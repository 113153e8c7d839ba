//! The review of pending items at a terminal: how an item is shown, and what
//! an answer means.

use vstd::prelude::*;
use vstd::string::*;

use crate::inbox::InboxEntry;
use crate::model::{capture_method_name, knowledge_type_name};
use crate::store::{truncate_preview, truncated};
use crate::text::{chars_of, decimal, lowercase, push_decimal, push_range, string_of, trim, trimmed};

verus! {

/// What the operator decides on a pending item.
#[derive(Debug, Clone, Copy, PartialEq, Eq, Structural)]
pub enum ReviewChoice {
    Accept,
    Reject,
    Skip,
    Quit,
}

/// What the answer `word` means, which is trimmed and in lower case: `a` or
/// `accept`, `r` or `reject`, `q` or `quit`; every other answer skips the
/// item.
pub open spec fn choice_for(word: Seq<char>) -> ReviewChoice {
    if word == "a"@ || word == "accept"@ {
        ReviewChoice::Accept
    } else if word == "r"@ || word == "reject"@ {
        ReviewChoice::Reject
    } else if word == "q"@ || word == "quit"@ {
        ReviewChoice::Quit
    } else {
        ReviewChoice::Skip
    }
}

/// Whether `word` reads `text`.
fn reads(word: &Vec<char>, text: &str) -> (r: bool)
    ensures
        r == (word@ == text@),
{
    let t = chars_of(text);
    crate::text::same_text(word, &t)
}

/// What the answer `word` means, which is trimmed and in lower case.
pub fn choice_for_word(word: &str) -> (r: ReviewChoice)
    ensures
        r == choice_for(word@),
{
    let w = chars_of(word);
    if reads(&w, "a") || reads(&w, "accept") {
        ReviewChoice::Accept
    } else if reads(&w, "r") || reads(&w, "reject") {
        ReviewChoice::Reject
    } else if reads(&w, "q") || reads(&w, "quit") {
        ReviewChoice::Quit
    } else {
        ReviewChoice::Skip
    }
}

/// What the answer `input` means: whitespace around it and the case of its
/// letters do not count.
pub fn review_choice(input: &str) -> (r: ReviewChoice)
    ensures
        r == choice_for(lowercase(trimmed(input@))),
{
    let t = trim(&chars_of(input));
    let word = string_of(&t);
    let lowered = word.as_str().to_lowercase();
    choice_for_word(lowered.as_str())
}

/// The number of bytes to which the first line of a body is shortened in a
/// listing.
pub const LINE_PREVIEW_LENGTH: usize = 80;

/// What a listing shows of a body: its first line, shortened to 80 bytes, or
/// `(empty)` for an empty body.
pub open spec fn shown_body(body: Seq<char>) -> Seq<char> {
    if body.len() == 0 {
        "(empty)"@
    } else {
        truncated(body, LINE_PREVIEW_LENGTH as nat)
    }
}

/// The line that lists `entry` under the index `index`: the index in square
/// brackets, then the type, the capture method, the suggested domain and the
/// start of the body, with ` | ` between them.
pub open spec fn listed_line(index: nat, entry: InboxEntry) -> Seq<char> {
    "  ["@ + decimal(index) + "] "@ + knowledge_type_name(entry.item@.knowledge_type) + " | "@
        + capture_method_name(entry.item@.capture_method) + " | "@ + entry.item@.suggested_domain
        + " | "@ + shown_body(entry.item@.body)
}

/// Adds the characters of `s` at the end of `out`.
fn push_text(out: &mut Vec<char>, s: &str)
    ensures
        final(out)@ == old(out)@ + s@,
{
    let v = chars_of(s);
    push_range(out, &v, 0, v.len());
    assert(v@.subrange(0, v@.len() as int) =~= v@);
}

/// The line that lists `entry` under the index `index`.
pub fn inbox_line(index: usize, entry: &InboxEntry) -> (r: String)
    ensures
        r@ == listed_line(index as nat, *entry),
{
    let mut out: Vec<char> = Vec::new();
    push_text(&mut out, "  [");
    push_decimal(&mut out, index);
    push_text(&mut out, "] ");
    push_text(&mut out, entry.item.knowledge_type.to_string().as_str());
    push_text(&mut out, " | ");
    push_text(&mut out, entry.item.capture_method.to_string().as_str());
    push_text(&mut out, " | ");
    push_text(&mut out, entry.item.suggested_domain.0.as_str());
    push_text(&mut out, " | ");
    let body = entry.item.body.as_str();
    if body.unicode_len() == 0 {
        push_text(&mut out, "(empty)");
    } else {
        push_text(&mut out, truncate_preview(body, LINE_PREVIEW_LENGTH).as_str());
    }
    assert(out@ =~= listed_line(index as nat, *entry));
    string_of(&out)
}

} // verus!
