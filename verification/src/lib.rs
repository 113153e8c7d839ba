//! A personal knowledge store: small units of knowledge are captured, staged
//! in an inbox for review and, once accepted, filed under a domain.
//!
//! The library holds what is decided and computed: how a record file is split
//! and put together (`frontmatter`, `fields`), whether a text from the
//! clipboard is worth staging (`clipboard`, `entropy`), and what staging,
//! listing, accepting and rejecting do (`inbox`). It reads no file and writes
//! none: it is handed texts and lists, and says which files to write and
//! remove.

pub mod bignat;
pub mod capture;
pub mod clipboard;
pub mod clock;
pub mod entropy;
pub mod error;
pub mod fields;
pub mod frontmatter;
pub mod import;
pub mod inbox;
pub mod model;
pub mod order;
pub mod paths;
pub mod pattern;
pub mod review;
pub mod store;
pub mod text;
