//! What can go wrong.

use vstd::prelude::*;
use vstd::string::*;

use crate::text::{chars_of, decimal, push_decimal, push_range, string_of};

verus! {

/// The failures of the store, the codec and the inbox.
#[derive(Debug)]
pub enum NuggetError {
    /// A file is missing, or cannot be read or written.
    Io { message: String },
    /// A header holds no valid fields.
    Yaml { message: String },
    /// A file has no opening or no closing fence.
    MissingFrontmatter { path: String },
    /// A file has its fences, but its fields cannot be decoded.
    InvalidFrontmatter { path: String, reason: String },
    /// An index lies outside the pending items, which are counted from 1.
    IndexOutOfRange { index: usize, count: usize },
    /// An index is given twice where each item can be taken once only.
    DuplicateIndex { index: usize },
    /// A path leaves the store.
    PathTraversalDenied { path: String },
}

/// What a `NuggetError` holds.
pub enum NuggetErrorView {
    Io { message: Seq<char> },
    Yaml { message: Seq<char> },
    MissingFrontmatter { path: Seq<char> },
    InvalidFrontmatter { path: Seq<char>, reason: Seq<char> },
    IndexOutOfRange { index: nat, count: nat },
    DuplicateIndex { index: nat },
    PathTraversalDenied { path: Seq<char> },
}

impl View for NuggetError {
    type V = NuggetErrorView;

    open spec fn view(&self) -> NuggetErrorView {
        match self {
            NuggetError::Io { message } => NuggetErrorView::Io { message: message@ },
            NuggetError::Yaml { message } => NuggetErrorView::Yaml { message: message@ },
            NuggetError::MissingFrontmatter { path } => NuggetErrorView::MissingFrontmatter {
                path: path@,
            },
            NuggetError::InvalidFrontmatter { path, reason } => NuggetErrorView::InvalidFrontmatter {
                path: path@,
                reason: reason@,
            },
            NuggetError::IndexOutOfRange { index, count } => NuggetErrorView::IndexOutOfRange {
                index: *index as nat,
                count: *count as nat,
            },
            NuggetError::DuplicateIndex { index } => NuggetErrorView::DuplicateIndex {
                index: *index as nat,
            },
            NuggetError::PathTraversalDenied { path } => NuggetErrorView::PathTraversalDenied {
                path: path@,
            },
        }
    }
}

/// The message of an error.
pub open spec fn message_of(e: NuggetErrorView) -> Seq<char> {
    match e {
        NuggetErrorView::Io { message } => "IO error: "@ + message,
        NuggetErrorView::Yaml { message } => "YAML parsing error: "@ + message,
        NuggetErrorView::MissingFrontmatter { path } => "missing frontmatter in "@ + path,
        NuggetErrorView::InvalidFrontmatter { path, reason } => "invalid frontmatter in "@ + path
            + ": "@ + reason,
        NuggetErrorView::IndexOutOfRange { index, count } => "index "@ + decimal(index)
            + " out of range (1-"@ + decimal(count) + ")"@,
        NuggetErrorView::DuplicateIndex { index } => "index "@ + decimal(index)
            + " given more than once"@,
        NuggetErrorView::PathTraversalDenied { path } => "path traversal denied: "@ + path
            + " is outside the brain"@,
    }
}

impl NuggetError {
    /// The message of this error.
    pub fn to_string(&self) -> (r: String)
        ensures
            r@ == message_of(self@),
    {
        match self {
            NuggetError::Io { message } => {
                let mut r = String::from_str("IO error: ");
                r.append(message.as_str());
                r
            },
            NuggetError::Yaml { message } => {
                let mut r = String::from_str("YAML parsing error: ");
                r.append(message.as_str());
                r
            },
            NuggetError::MissingFrontmatter { path } => {
                let mut r = String::from_str("missing frontmatter in ");
                r.append(path.as_str());
                r
            },
            NuggetError::InvalidFrontmatter { path, reason } => {
                let mut r = String::from_str("invalid frontmatter in ");
                r.append(path.as_str());
                r.append(": ");
                r.append(reason.as_str());
                r
            },
            NuggetError::IndexOutOfRange { index, count } => {
                let mut out: Vec<char> = chars_of("index ");
                push_decimal(&mut out, *index);
                let middle = chars_of(" out of range (1-");
                push_range(&mut out, &middle, 0, middle.len());
                assert(middle@.subrange(0, middle@.len() as int) =~= middle@);
                push_decimal(&mut out, *count);
                out.push(')');
                proof {
                    reveal_strlit(")");
                    assert(")"@ =~= seq![')']);
                    assert(out@ =~= message_of(self@));
                }
                string_of(&out)
            },
            NuggetError::DuplicateIndex { index } => {
                let mut out: Vec<char> = chars_of("index ");
                push_decimal(&mut out, *index);
                let end = chars_of(" given more than once");
                push_range(&mut out, &end, 0, end.len());
                assert(end@.subrange(0, end@.len() as int) =~= end@);
                assert(out@ =~= message_of(self@));
                string_of(&out)
            },
            NuggetError::PathTraversalDenied { path } => {
                let mut r = String::from_str("path traversal denied: ");
                r.append(path.as_str());
                r.append(" is outside the brain");
                r
            },
        }
    }
}

/// What an optional error holds.
pub open spec fn error_of(e: Option<NuggetError>) -> Option<NuggetErrorView> {
    match e {
        Some(x) => Some(x@),
        None => None,
    }
}

} // verus!
