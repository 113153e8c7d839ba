//! The capture filter: a chain of tests that decides whether a piece of text
//! taken from the clipboard is worth staging.

use vstd::prelude::*;
use vstd::string::*;

use crate::entropy::{chars_entropy_against, entropy_exceeds};
use crate::bignat::Level;
use crate::inbox::InboxEntry;
use crate::model::{
    fresh_id, text_of, texts_of, CaptureMethod, Confidence, Domain, InboxItem, InboxItemView,
    KnowledgeType, Timestamp,
};
use crate::paths::{join, joined};
use crate::store::BrainStore;
use crate::pattern::{find_first, first_match};
use crate::text::{
    chars_of, find_char, has_prefix, has_suffix, has_whitespace, index_of_char, is_whitespace,
    lemma_index_of_char, line_start, matches_at, occurs_at, substring, whitespace,
};

verus! {

/// Settings of the clipboard monitor.
#[derive(Debug)]
pub struct ClipboardConfig {
    pub enabled: bool,
    pub capture_urls: bool,
    pub capture_text: bool,
    pub poll_interval_ms: u64,
    pub ignore_domains: Vec<String>,
}

/// The settings file of a store, of which only the clipboard section is read.
#[derive(Debug)]
pub struct BrainConfig {
    pub clipboard: Option<ClipboardConfig>,
}

/// The hosts that are ignored unless the settings say otherwise.
pub open spec fn default_ignored() -> Seq<Seq<char>> {
    seq!["localhost"@, "mail.google.com"@, "accounts.google.com"@]
}

/// The default of a switch that is on unless the settings say otherwise.
pub fn default_true() -> (r: bool)
    ensures
        r,
{
    true
}

/// The default time between two looks at the clipboard, in milliseconds.
pub fn default_poll_interval() -> (r: u64)
    ensures
        r == 500,
{
    500
}

/// The default list of ignored hosts.
pub fn default_ignore_domains() -> (r: Vec<String>)
    ensures
        texts_of(r@) == default_ignored(),
{
    let mut r: Vec<String> = Vec::new();
    r.push(String::from_str("localhost"));
    r.push(String::from_str("mail.google.com"));
    r.push(String::from_str("accounts.google.com"));
    assert(texts_of(r@) =~= default_ignored());
    r
}

impl Default for ClipboardConfig {
    fn default() -> (r: Self)
        ensures
            r.enabled,
            r.capture_urls,
            !r.capture_text,
            r.poll_interval_ms == 500,
            texts_of(r.ignore_domains@) == default_ignored(),
    {
        ClipboardConfig {
            enabled: true,
            capture_urls: true,
            capture_text: false,
            poll_interval_ms: default_poll_interval(),
            ignore_domains: default_ignore_domains(),
        }
    }
}

impl Default for BrainConfig {
    fn default() -> (r: Self)
        ensures
            r.clipboard is None,
    {
        BrainConfig { clipboard: None }
    }
}

/// The least number of characters of a text that is kept.
pub const MIN_LENGTH: usize = 20;

/// Whether `text` is long enough to be kept.
pub fn length_check(text: &str) -> (ok: bool)
    ensures
        ok == (text@.len() >= MIN_LENGTH),
{
    text.unicode_len() >= MIN_LENGTH
}

/// The tokens that introduce a line of code.
pub open spec fn code_introducers() -> Seq<Seq<char>> {
    seq![
        "fn "@,
        "def "@,
        "class "@,
        "import "@,
        "const "@,
        "let "@,
        "var "@,
        "function "@,
    ]
}

/// Whether one of the code introducers stands in `s` at index `j`.
pub open spec fn introducer_at(s: Seq<char>, j: int) -> bool {
    exists|n: int| 0 <= n < code_introducers().len() && occurs_at(s, j, #[trigger] code_introducers()[n])
}

/// Whether the characters of `s` from `i` up to `j` are whitespace of one
/// line: whitespace other than the line feed.
pub open spec fn blank_run(s: Seq<char>, i: int, j: int) -> bool {
    &&& 0 <= i <= j <= s.len()
    &&& forall|k: int| i <= k < j ==> whitespace(#[trigger] s[k]) && s[k] != '\n'
}

/// Whether the line of `s` that begins at `i` holds, after its leading
/// whitespace, a code introducer at `j`.
pub open spec fn code_line_at(s: Seq<char>, i: int, j: int) -> bool {
    line_start(s, i) && blank_run(s, i, j) && introducer_at(s, j)
}

/// Whether some line of `s`, its leading whitespace set aside, begins with a
/// code introducer.
pub open spec fn has_code_line(s: Seq<char>) -> bool {
    exists|i: int, j: int| #[trigger] code_line_at(s, i, j)
}

/// Whether `c` is one of the brackets `{ } [ ] ( )`.
pub open spec fn is_bracket(c: char) -> bool {
    c == '{' || c == '}' || c == '[' || c == ']' || c == '(' || c == ')'
}

/// The number of brackets in `s`.
pub open spec fn bracket_count(s: Seq<char>) -> nat
    decreases s.len(),
{
    if s.len() == 0 {
        0
    } else {
        bracket_count(s.drop_last()) + if is_bracket(s.last()) {
            1nat
        } else {
            0nat
        }
    }
}

/// Whether more than one character in ten of `s` is a bracket.
pub open spec fn bracket_heavy(s: Seq<char>) -> bool {
    10 * bracket_count(s) > s.len()
}

/// Whether `s` has the shape of code.
pub open spec fn looks_like_code(s: Seq<char>) -> bool {
    has_code_line(s) || bracket_heavy(s)
}

/// Every code introducer begins with a character that is not whitespace.
proof fn lemma_introducers_begin_with_letters()
    ensures
        code_introducers().len() == 8,
        forall|n: int|
            0 <= n < code_introducers().len() ==> (#[trigger] code_introducers()[n]).len() > 0
                && !whitespace(code_introducers()[n][0]),
{
    reveal_strlit("fn ");
    reveal_strlit("def ");
    reveal_strlit("class ");
    reveal_strlit("import ");
    reveal_strlit("const ");
    reveal_strlit("let ");
    reveal_strlit("var ");
    reveal_strlit("function ");
}

/// The code introducers, as characters.
fn introducer_list() -> (r: Vec<Vec<char>>)
    ensures
        r@.len() == code_introducers().len(),
        forall|n: int| 0 <= n < r@.len() ==> (#[trigger] r@[n])@ == code_introducers()[n],
{
    let mut r: Vec<Vec<char>> = Vec::new();
    r.push(chars_of("fn "));
    r.push(chars_of("def "));
    r.push(chars_of("class "));
    r.push(chars_of("import "));
    r.push(chars_of("const "));
    r.push(chars_of("let "));
    r.push(chars_of("var "));
    r.push(chars_of("function "));
    r
}

/// Whether one of the introducers of `list` stands in `v` at index `j`.
fn introducer_here(v: &Vec<char>, j: usize, list: &Vec<Vec<char>>) -> (r: bool)
    requires
        list@.len() == code_introducers().len(),
        forall|n: int| 0 <= n < list@.len() ==> (#[trigger] list@[n])@ == code_introducers()[n],
    ensures
        r == introducer_at(v@, j as int),
{
    let mut n: usize = 0;
    while n < list.len()
        invariant
            n <= list.len(),
            list@.len() == code_introducers().len(),
            forall|m: int| 0 <= m < list@.len() ==> (#[trigger] list@[m])@ == code_introducers()[m],
            forall|m: int| 0 <= m < n ==> !occurs_at(v@, j as int, #[trigger] code_introducers()[m]),
        decreases list.len() - n,
    {
        if matches_at(v, j, &list[n]) {
            assert(occurs_at(v@, j as int, code_introducers()[n as int]));
            return true;
        }
        n += 1;
    }
    false
}

/// Whether some line of `v` begins, after its leading whitespace, with a code
/// introducer.
fn scan_code_lines(v: &Vec<char>) -> (found: bool)
    ensures
        found == has_code_line(v@),
{
    let list = introducer_list();
    let mut i: usize = 0;
    loop
        invariant
            line_start(v@, i as int),
            list@.len() == code_introducers().len(),
            forall|n: int| 0 <= n < list@.len() ==> (#[trigger] list@[n])@ == code_introducers()[n],
            forall|a: int, b: int| a < i ==> !#[trigger] code_line_at(v@, a, b),
        decreases v.len() - i,
    {
        let mut j: usize = i;
        while j < v.len() && is_whitespace(v[j]) && v[j] != '\n'
            invariant
                i <= j <= v.len(),
                blank_run(v@, i as int, j as int),
            decreases v.len() - j,
        {
            j += 1;
        }
        if introducer_here(v, j, &list) {
            assert(code_line_at(v@, i as int, j as int));
            return true;
        }
        proof {
            lemma_introducers_begin_with_letters();
            assert forall|b: int| !#[trigger] code_line_at(v@, i as int, b) by {
                if code_line_at(v@, i as int, b) {
                    if b < j {
                        let n = choose|n: int|
                            0 <= n < code_introducers().len() && occurs_at(
                                v@,
                                b,
                                #[trigger] code_introducers()[n],
                            );
                        let p = code_introducers()[n];
                        assert(v@[b + 0] == p[0]);
                        assert(whitespace(v@[b]));
                    } else if b > j {
                        assert(whitespace(v@[j as int]) && v@[j as int] != '\n');
                    }
                }
            }
        }
        let nl: usize = find_char(v, '\n', i);
        proof {
            lemma_index_of_char(v@, '\n', i as int);
        }
        if nl >= v.len() {
            proof {
                assert forall|a: int, b: int| !#[trigger] code_line_at(v@, a, b) by {
                    if a > i && line_start(v@, a) {
                        assert(v@[a - 1] == '\n');
                    }
                }
            }
            return false;
        }
        proof {
            assert forall|a: int, b: int| a < nl + 1 implies !#[trigger] code_line_at(v@, a, b) by {
                if a > i && line_start(v@, a) {
                    assert(v@[a - 1] == '\n');
                }
            }
        }
        i = nl + 1;
    }
}

/// The number of brackets in `v`.
fn count_brackets(v: &Vec<char>) -> (n: usize)
    ensures
        n == bracket_count(v@),
        n <= v.len(),
{
    let mut n: usize = 0;
    let mut i: usize = 0;
    while i < v.len()
        invariant
            i <= v.len(),
            n <= i,
            n == bracket_count(v@.take(i as int)),
        decreases v.len() - i,
    {
        let c: char = v[i];
        assert(v@.take(i + 1).drop_last() =~= v@.take(i as int));
        if c == '{' || c == '}' || c == '[' || c == ']' || c == '(' || c == ')' {
            n += 1;
        }
        i += 1;
    }
    assert(v@.take(v.len() as int) =~= v@);
    n
}

/// Whether `text` does not have the shape of code: no line of it begins with
/// a code introducer, and at most one character in ten is a bracket.
pub fn code_detection(text: &str) -> (ok: bool)
    ensures
        ok == !looks_like_code(text@),
{
    let v = chars_of(text);
    if scan_code_lines(&v) {
        return false;
    }
    let n: usize = count_brackets(&v);
    (n as u128) * 10 <= v.len() as u128
}

/// The regular expression of a URL: `http://` or `https://`, then one or
/// more characters other than whitespace, angle brackets, braces, square
/// brackets, and a few marks that end a URL in running text.
pub const URL_PATTERN: &'static str = "https?://[^\\s<>\"{}|\\\\^\\[\\]`]+";

/// The first URL in `text`, if it holds one.
pub fn extract_url(text: &str) -> (r: Option<String>)
    ensures
        text_of(r) == first_match(URL_PATTERN@, text@),
{
    find_first(URL_PATTERN, text)
}

/// `s` without the prefix `p`, where it begins with `p`.
pub open spec fn without_prefix(s: Seq<char>, p: Seq<char>) -> Option<Seq<char>> {
    if has_prefix(s, p) {
        Some(s.skip(p.len() as int))
    } else {
        None
    }
}

/// What follows the scheme of `url`, where the scheme is `https` or `http`.
pub open spec fn after_scheme(url: Seq<char>) -> Option<Seq<char>> {
    match without_prefix(url, "https://"@) {
        Some(rest) => Some(rest),
        None => without_prefix(url, "http://"@),
    }
}

/// The index at which the host ends in `rest`, the part of a URL after its
/// scheme: at the first `/` or `:`, or at the end.
pub open spec fn host_end(rest: Seq<char>) -> int {
    let slash = index_of_char(rest, '/', 0);
    let colon = index_of_char(rest, ':', 0);
    if slash <= colon {
        slash
    } else {
        colon
    }
}

/// The host of `url`: what stands between the scheme and the first `/` or
/// `:`. `None` where the scheme is neither `https` nor `http`, or the host is
/// empty.
pub open spec fn host_of(url: Seq<char>) -> Option<Seq<char>> {
    match after_scheme(url) {
        Some(rest) => if host_end(rest) == 0 {
            None
        } else {
            Some(rest.take(host_end(rest)))
        },
        None => None,
    }
}

/// The host of `url`.
pub fn extract_host(url: &str) -> (r: Option<String>)
    ensures
        text_of(r) == host_of(url@),
{
    let v = chars_of(url);
    let https = chars_of("https://");
    let http = chars_of("http://");
    let start: usize = if matches_at(&v, 0, &https) {
        https.len()
    } else if matches_at(&v, 0, &http) {
        http.len()
    } else {
        return None;
    };
    let ghost rest = v@.skip(start as int);
    assert(after_scheme(url@) == Some(rest));
    let mut end: usize = start;
    while end < v.len() && v[end] != '/' && v[end] != ':'
        invariant
            start <= end <= v.len(),
            rest == v@.skip(start as int),
            index_of_char(rest, '/', 0) == index_of_char(rest, '/', end - start),
            index_of_char(rest, ':', 0) == index_of_char(rest, ':', end - start),
        decreases v.len() - end,
    {
        end += 1;
    }
    proof {
        lemma_index_of_char(rest, '/', end - start);
        lemma_index_of_char(rest, ':', end - start);
        assert(host_end(rest) == end - start);
    }
    if end == start {
        None
    } else {
        assert(rest.take(end - start) =~= v@.subrange(start as int, end as int));
        Some(substring(&v, start, end))
    }
}

/// Whether `host` is the ignored host `entry` or a subdomain of it.
pub open spec fn host_matches(host: Seq<char>, entry: Seq<char>) -> bool {
    host == entry || has_suffix(host, seq!['.'] + entry)
}

/// Whether `host` is, or is a subdomain of, one of the hosts in `ignored`.
pub open spec fn host_ignored(host: Seq<char>, ignored: Seq<Seq<char>>) -> bool {
    exists|n: int| 0 <= n < ignored.len() && host_matches(host, #[trigger] ignored[n])
}

/// Whether `url` is kept: its host, if it has one, is not ignored.
pub open spec fn domain_kept(url: Seq<char>, ignored: Seq<Seq<char>>) -> bool {
    match host_of(url) {
        Some(host) => !host_ignored(host, ignored),
        None => true,
    }
}

/// Whether `url` is kept under the ignore list `ignore_domains`.
pub fn domain_filter(url: &str, ignore_domains: &[String]) -> (keep: bool)
    ensures
        keep == domain_kept(url@, texts_of(ignore_domains@)),
{
    let found = extract_host(url);
    if found.is_none() {
        return true;
    }
    let host = chars_of(found.unwrap().as_str());
    assert(host_of(url@) == Some(host@));
    let ghost ignored = texts_of(ignore_domains@);
    let mut n: usize = 0;
    while n < ignore_domains.len()
        invariant
            n <= ignore_domains.len(),
            ignored == texts_of(ignore_domains@),
            host_of(url@) == Some(host@),
            forall|m: int| 0 <= m < n ==> !host_matches(host@, #[trigger] ignored[m]),
        decreases ignore_domains.len() - n,
    {
        let entry = chars_of(ignore_domains[n].as_str());
        assert(entry@ == ignored[n as int]);
        let mut dotted: Vec<char> = Vec::new();
        dotted.push('.');
        crate::text::push_range(&mut dotted, &entry, 0, entry.len());
        assert(dotted@ =~= seq!['.'] + entry@);
        if crate::text::same_text(&host, &entry) || crate::text::ends_with(&host, &dotted) {
            assert(host_matches(host@, ignored[n as int]));
            assert(host_ignored(host@, ignored));
            return false;
        }
        n += 1;
    }
    true
}

/// The length of the window in which a URL counts as seen, in seconds: 24
/// hours.
pub const DEDUP_WINDOW_SECONDS: i64 = 86_400;

/// Whether `at` lies in the 24 hours that end at `now`, both ends included.
pub open spec fn in_window(at: Timestamp, now: Timestamp) -> bool {
    &&& at.not_after(now)
    &&& (now.seconds - DEDUP_WINDOW_SECONDS < at.seconds || (now.seconds - DEDUP_WINDOW_SECONDS
        == at.seconds && now.nanos <= at.nanos))
}

/// Whether `entry` stands for the same URL, captured within the window.
pub open spec fn repeats(entry: InboxEntry, url: Seq<char>, now: Timestamp) -> bool {
    text_of(entry.item.source) == Some(url) && in_window(entry.item.captured_at, now)
}

/// Whether some pending item has `url` as its source and was captured within
/// the 24 hours that end at `now`.
pub open spec fn is_duplicate(url: Seq<char>, pending: Seq<InboxEntry>, now: Timestamp) -> bool {
    exists|n: int| 0 <= n < pending.len() && repeats(#[trigger] pending[n], url, now)
}

/// Whether `at` lies in the 24 hours that end at `now`.
fn within_window(at: &Timestamp, now: &Timestamp) -> (r: bool)
    ensures
        r == in_window(*at, *now),
{
    let start: i128 = now.seconds as i128 - DEDUP_WINDOW_SECONDS as i128;
    let seconds: i128 = at.seconds as i128;
    !now.is_before(at) && (start < seconds || (start == seconds && now.nanos <= at.nanos))
}

/// Whether `url` is new: no pending item has it as its source and was
/// captured within the 24 hours that end at `now`.
pub fn dedup_check(url: &str, pending: &[InboxEntry], now: Timestamp) -> (is_new: bool)
    ensures
        is_new == !is_duplicate(url@, pending@, now),
{
    let wanted = chars_of(url);
    let mut n: usize = 0;
    while n < pending.len()
        invariant
            n <= pending.len(),
            wanted@ == url@,
            forall|m: int| 0 <= m < n ==> !repeats(#[trigger] pending[m], url@, now),
        decreases pending.len() - n,
    {
        let entry = &pending[n];
        let same: bool = match &entry.item.source {
            Some(source) => {
                let have = chars_of(source.as_str());
                crate::text::same_text(&have, &wanted)
            },
            None => false,
        };
        if same && within_window(&entry.item.captured_at, &now) {
            return false;
        }
        n += 1;
    }
    true
}

/// Whether some character of `v` is whitespace.
fn contains_whitespace(v: &Vec<char>) -> (r: bool)
    ensures
        r == has_whitespace(v@),
{
    let mut i: usize = 0;
    while i < v.len()
        invariant
            i <= v.len(),
            forall|k: int| 0 <= k < i ==> !whitespace(#[trigger] v@[k]),
        decreases v.len() - i,
    {
        if is_whitespace(v[i]) {
            return true;
        }
        i += 1;
    }
    false
}

/// Whether `s` is let through by the entropy test: it holds whitespace, or
/// the entropy of its character frequencies is at most 4.5 bits.
pub open spec fn calm(s: Seq<char>) -> bool {
    has_whitespace(s) || !entropy_exceeds(s)
}

/// Whether `text` does not look like a token or a secret: it holds
/// whitespace, or the Shannon entropy of its character frequencies is at most
/// 4.5 bits.
pub fn entropy_check(text: &str) -> (ok: bool)
    ensures
        ok == calm(text@),
{
    let v = chars_of(text);
    if contains_whitespace(&v) {
        return true;
    }
    match chars_entropy_against(&v, 9, 2) {
        Some(Level::Above) => false,
        _ => true,
    }
}

/// Whether `text` passes the tests on the text alone: length, entropy and
/// shape.
pub open spec fn passes_screens(text: Seq<char>) -> bool {
    text.len() >= MIN_LENGTH && calm(text) && !looks_like_code(text)
}

/// The URL `candidate`, where there is one and its host is not ignored.
pub open spec fn kept_url(candidate: Option<Seq<char>>, ignored: Seq<Seq<char>>) -> Option<
    Seq<char>,
> {
    match candidate {
        Some(url) => if domain_kept(url, ignored) {
            Some(url)
        } else {
            None
        },
        None => None,
    }
}

/// The URL that `text` offers under the ignore list `ignored`: the first URL
/// in it, where the text passes the tests on the text alone and the host of
/// that URL is not ignored.
pub open spec fn offered_url(text: Seq<char>, ignored: Seq<Seq<char>>) -> Option<Seq<char>> {
    if passes_screens(text) {
        kept_url(first_match(URL_PATTERN@, text), ignored)
    } else {
        None
    }
}

/// The URL `candidate`, where there is one and it has not been seen within
/// the 24 hours that end at `now`.
pub open spec fn unseen_url(
    candidate: Option<Seq<char>>,
    pending: Seq<InboxEntry>,
    now: Timestamp,
) -> Option<Seq<char>> {
    match candidate {
        Some(url) => if is_duplicate(url, pending, now) {
            None
        } else {
            Some(url)
        },
        None => None,
    }
}

/// What the filter makes of `text`: the URL it offers, unless a pending item
/// holds that URL already.
pub open spec fn filtered(
    text: Seq<char>,
    ignored: Seq<Seq<char>>,
    pending: Seq<InboxEntry>,
    now: Timestamp,
) -> Option<Seq<char>> {
    unseen_url(offered_url(text, ignored), pending, now)
}

/// The URL `candidate`, where there is one and its host is not ignored.
pub fn keep_url(candidate: Option<String>, ignore_domains: &[String]) -> (r: Option<String>)
    ensures
        text_of(r) == kept_url(text_of(candidate), texts_of(ignore_domains@)),
{
    match candidate {
        Some(url) => {
            if domain_filter(url.as_str(), ignore_domains) {
                Some(url)
            } else {
                None
            }
        },
        None => None,
    }
}

/// The URL `candidate`, where there is one and no pending item holds it
/// already.
pub fn admit_url(candidate: Option<String>, pending: &[InboxEntry], now: Timestamp) -> (r: Option<
    String,
>)
    ensures
        text_of(r) == unseen_url(text_of(candidate), pending@, now),
{
    match candidate {
        Some(url) => {
            if dedup_check(url.as_str(), pending, now) {
                Some(url)
            } else {
                None
            }
        },
        None => None,
    }
}

/// The URL that `text` offers: the stages of the filter that need no look at
/// the inbox.
pub fn find_candidate(text: &str, config: &ClipboardConfig) -> (r: Option<String>)
    ensures
        text_of(r) == offered_url(text@, texts_of(config.ignore_domains@)),
{
    if !length_check(text) {
        return None;
    }
    if !entropy_check(text) {
        return None;
    }
    if !code_detection(text) {
        return None;
    }
    keep_url(extract_url(text), config.ignore_domains.as_slice())
}

/// The whole filter: the URL in `text` that is worth staging at the time
/// `now`, given the pending items `pending`, or `None` where a stage turns
/// the text away. The stages are, in this order: length, entropy, shape of
/// code, presence of a URL, ignored hosts, and URLs seen within 24 hours.
pub fn run_filter_pipeline(
    text: &str,
    config: &ClipboardConfig,
    pending: &[InboxEntry],
    now: Timestamp,
) -> (r: Option<String>)
    ensures
        text_of(r) == filtered(text@, texts_of(config.ignore_domains@), pending@, now),
{
    admit_url(find_candidate(text, config), pending, now)
}

/// A URL that the filter let through is turned away while the item staged
/// for it lies within the 24 hours that end at the time of asking, and is
/// let through again after that: for an inbox that holds nothing captured
/// later than that item.
pub proof fn law_seen_url_returns_after_a_day(
    text: Seq<char>,
    ignored: Seq<Seq<char>>,
    pending: Seq<InboxEntry>,
    staged: InboxEntry,
    url: Seq<char>,
    first: Timestamp,
    later: Timestamp,
)
    requires
        filtered(text, ignored, pending, first) == Some(url),
        text_of(staged.item.source) == Some(url),
        staged.item.captured_at == first,
        forall|n: int|
            0 <= n < pending.len() ==> (#[trigger] pending[n]).item.captured_at.not_after(first),
        first.not_after(later),
    ensures
        in_window(first, later) ==> filtered(text, ignored, pending.push(staged), later) is None,
        !in_window(first, later) ==> filtered(text, ignored, pending.push(staged), later) == Some(
            url,
        ),
{
    let after = pending.push(staged);
    assert(offered_url(text, ignored) == Some(url));
    assert(!is_duplicate(url, pending, first));
    if in_window(first, later) {
        assert(repeats(after[pending.len() as int], url, later));
    } else {
        assert forall|n: int| 0 <= n < after.len() implies !repeats(
            #[trigger] after[n],
            url,
            later,
        ) by {
            if n < pending.len() {
                assert(after[n] == pending[n]);
                assert(!repeats(pending[n], url, first));
                assert(pending[n].item.captured_at.not_after(first));
            }
        }
    }
}

/// The confidence of an item staged from the clipboard.
pub const CLIPBOARD_CONFIDENCE: u32 = 500_000;

/// The item staged for a URL taken from the clipboard: a concept for the
/// domain `inbox`, whose body and source are the URL.
pub open spec fn clipboard_item(id: Seq<char>, at: Timestamp, url: Seq<char>) -> InboxItemView {
    InboxItemView {
        source: Some(url),
        confidence: Confidence(CLIPBOARD_CONFIDENCE),
        ..InboxItemView::fresh(
            id,
            at,
            KnowledgeType::Concept,
            "inbox"@,
            CaptureMethod::ClipboardUrl,
            url,
        )
    }
}

/// The monitor of the clipboard: its settings, the store it stages into,
/// whether it still runs, and the text it saw last.
#[derive(Debug)]
pub struct ClipboardMonitor {
    config: ClipboardConfig,
    store: BrainStore,
    running: bool,
    last_seen: String,
}

impl ClipboardMonitor {
    /// Whether the monitor still runs.
    pub closed spec fn is_running(&self) -> bool {
        self.running
    }

    /// The text that the monitor saw last.
    pub closed spec fn seen(&self) -> Seq<char> {
        self.last_seen@
    }

    /// The hosts that the monitor ignores.
    pub closed spec fn ignored(&self) -> Seq<Seq<char>> {
        texts_of(self.config.ignore_domains@)
    }

    /// The time between two looks at the clipboard, in milliseconds.
    pub closed spec fn interval(&self) -> u64 {
        self.config.poll_interval_ms
    }

    /// The root directory of the store that the monitor stages into.
    pub closed spec fn root(&self) -> Seq<char> {
        self.store.root@
    }

    /// A monitor that runs and has seen nothing yet.
    pub fn new(config: ClipboardConfig, store: BrainStore) -> (r: Self)
        ensures
            r.is_running(),
            r.seen() == Seq::<char>::empty(),
            r.ignored() == texts_of(config.ignore_domains@),
            r.interval() == config.poll_interval_ms,
            r.root() == store.root@,
    {
        ClipboardMonitor { config, store, running: true, last_seen: String::new() }
    }

    /// Whether the monitor still runs.
    pub fn running_flag(&self) -> (r: bool)
        ensures
            r == self.is_running(),
    {
        self.running
    }

    /// Stops the monitor.
    pub fn stop(&mut self)
        ensures
            !final(self).is_running(),
            final(self).seen() == old(self).seen(),
            final(self).ignored() == old(self).ignored(),
            final(self).interval() == old(self).interval(),
            final(self).root() == old(self).root(),
    {
        self.running = false;
    }

    /// The time between two looks at the clipboard, in milliseconds.
    pub fn poll_interval_ms(&self) -> (r: u64)
        ensures
            r == self.interval(),
    {
        self.config.poll_interval_ms
    }

    /// The store that the monitor stages into.
    pub fn store(&self) -> (r: &BrainStore)
        ensures
            r.root@ == self.root(),
    {
        &self.store
    }

    /// Whether what was read from the clipboard is new: whether something
    /// was read, and differs from the text seen last.
    pub fn is_fresh(&self, reading: Option<&str>) -> (fresh: bool)
        ensures
            fresh == (reading matches Some(t) && t@ != self.seen()),
    {
        match reading {
            Some(t) => {
                let now_seen = chars_of(t);
                let before = chars_of(self.last_seen.as_str());
                !crate::text::same_text(&now_seen, &before)
            },
            None => false,
        }
    }

    /// Takes note of what was read from the clipboard: `None` where it
    /// could not be read. Says whether the text is new, that is whether it
    /// differs from the text seen last, and remembers it.
    pub fn observe(&mut self, reading: Option<&str>) -> (fresh: bool)
        ensures
            fresh == (reading matches Some(t) && t@ != old(self).seen()),
            final(self).seen() == match reading {
                Some(t) => t@,
                None => old(self).seen(),
            },
            final(self).is_running() == old(self).is_running(),
            final(self).ignored() == old(self).ignored(),
            final(self).interval() == old(self).interval(),
            final(self).root() == old(self).root(),
    {
        match reading {
            Some(t) => {
                let now_seen = chars_of(t);
                let before = chars_of(self.last_seen.as_str());
                if crate::text::same_text(&now_seen, &before) {
                    false
                } else {
                    self.last_seen = String::from_str(t);
                    true
                }
            },
            None => false,
        }
    }

    /// The item that is staged for `url`, with the identifier `id`, captured
    /// at `at`.
    pub fn item_for(url: &str, id: String, at: Timestamp) -> (r: InboxItem)
        ensures
            r@ == clipboard_item(id@, at, url@),
    {
        let mut item = InboxItem::with_identity(
            id,
            at,
            KnowledgeType::Concept,
            Domain(String::from_str("inbox")),
            CaptureMethod::ClipboardUrl,
            String::from_str(url),
        );
        item.source = Some(String::from_str(url));
        item.confidence = Confidence(CLIPBOARD_CONFIDENCE);
        item
    }

    /// The first part of a turn of the monitor: takes note of what was read
    /// from the clipboard and, where the text is new, gives the URL that it
    /// offers. This part needs no look at the inbox.
    pub fn offer(&mut self, reading: Option<&str>) -> (r: Option<String>)
        ensures
            final(self).seen() == match reading {
                Some(t) => t@,
                None => old(self).seen(),
            },
            final(self).is_running() == old(self).is_running(),
            final(self).ignored() == old(self).ignored(),
            final(self).interval() == old(self).interval(),
            final(self).root() == old(self).root(),
            text_of(r) == match reading {
                Some(t) if t@ != old(self).seen() => offered_url(t@, old(self).ignored()),
                _ => None,
            },
    {
        if !self.observe(reading) {
            return None;
        }
        find_candidate(reading.unwrap(), &self.config)
    }

    /// The second part of a turn of the monitor, at the time `now`: the item
    /// to stage for the URL `url` that a text offered, unless a pending item
    /// holds that URL already.
    pub fn stage(&self, url: String, pending: &[InboxEntry], now: Timestamp) -> (r: Option<
        InboxItem,
    >)
        ensures
            match unseen_url(Some(url@), pending@, now) {
                Some(kept) => r matches Some(item) && item@ == clipboard_item(
                    item@.id,
                    now,
                    kept,
                ) && item@.id.len() == crate::model::ID_LENGTH,
                None => r is None,
            },
    {
        match admit_url(Some(url), pending, now) {
            Some(kept) => Some(ClipboardMonitor::item_for(kept.as_str(), fresh_id(), now)),
            None => None,
        }
    }

    /// One turn of the monitor, at the time `now`: takes note of what was
    /// read from the clipboard and, where the text is new and the filter lets
    /// a URL of it through, gives the item to stage for that URL.
    pub fn step(&mut self, reading: Option<&str>, pending: &[InboxEntry], now: Timestamp) -> (r:
        Option<InboxItem>)
        ensures
            final(self).seen() == match reading {
                Some(t) => t@,
                None => old(self).seen(),
            },
            final(self).is_running() == old(self).is_running(),
            final(self).ignored() == old(self).ignored(),
            final(self).interval() == old(self).interval(),
            final(self).root() == old(self).root(),
            match reading {
                Some(t) if t@ != old(self).seen() => match filtered(
                    t@,
                    old(self).ignored(),
                    pending@,
                    now,
                ) {
                    Some(url) => r matches Some(item) && item@ == clipboard_item(
                        item@.id,
                        now,
                        url,
                    ) && item@.id.len() == crate::model::ID_LENGTH,
                    None => r is None,
                },
                _ => r is None,
            },
    {
        match self.offer(reading) {
            Some(url) => self.stage(url, pending, now),
            None => None,
        }
    }
}

/// The file that holds the process number of the monitor of the store rooted
/// at `brain_root`.
pub fn pid_file_path(brain_root: &str) -> (r: String)
    ensures
        r@ == joined(joined(brain_root@, ".nugget"@), "clipboard.pid"@),
{
    let dir = join(brain_root, ".nugget");
    join(dir.as_str(), "clipboard.pid")
}

/// Whether a settings file that reads `content` says nothing: it is empty
/// or, whitespace before it set aside, begins with a comment.
pub open spec fn says_nothing(content: Seq<char>) -> bool {
    crate::text::trimmed(content).len() == 0 || crate::text::trimmed(content)[0] == '#'
}

/// Whether a settings file that reads `content` says nothing, so that the
/// default settings hold.
pub fn settings_are_blank(content: &str) -> (r: bool)
    ensures
        r == says_nothing(content@),
{
    let t = crate::text::trim(&chars_of(content));
    t.len() == 0 || t[0] == '#'
}

/// The settings of the clipboard that `config` holds, or the default ones
/// where it holds none.
pub fn clipboard_settings(config: BrainConfig) -> (r: ClipboardConfig)
    ensures
        config.clipboard matches Some(c) ==> r == c,
        config.clipboard is None ==> r.enabled && r.capture_urls && !r.capture_text
            && r.poll_interval_ms == 500 && texts_of(r.ignore_domains@) == default_ignored(),
{
    match config.clipboard {
        Some(c) => c,
        None => ClipboardConfig::default(),
    }
}

} // verus!
