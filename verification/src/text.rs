//! Text as sequences of characters: the predicates the rest of the crate is
//! specified with, and verified routines that compute them.

use vstd::prelude::*;
use vstd::string::*;

verus! {

/// `String::push` appends one character at the end.
pub assume_specification[ String::push ](s: &mut String, c: char)
    ensures
        final(s)@ == old(s)@.push(c),
;

/// Whether `c` is a letter or a number, as `char::is_alphanumeric` tells it
/// from the Unicode tables of the standard library.
pub uninterp spec fn alphanumeric(c: char) -> bool;

/// `char::is_alphanumeric`: the result is named, not described.
pub assume_specification[ char::is_alphanumeric ](c: char) -> (r: bool)
    ensures
        r == alphanumeric(c),
;

/// The text that `str::to_lowercase` makes of `s`, from the Unicode tables of
/// the standard library.
pub uninterp spec fn lowercase(s: Seq<char>) -> Seq<char>;

/// `str::to_lowercase`: the result is named, not described.
pub assume_specification[ str::to_lowercase ](s: &str) -> (r: String)
    ensures
        r@ == lowercase(s@),
;

/// Whether `c` has the Unicode property `White_Space`.
pub open spec fn whitespace(c: char) -> bool {
    let n = c as u32;
    ||| 0x09 <= n <= 0x0d
    ||| n == 0x20
    ||| n == 0x85
    ||| n == 0xa0
    ||| n == 0x1680
    ||| 0x2000 <= n <= 0x200a
    ||| n == 0x2028
    ||| n == 0x2029
    ||| n == 0x202f
    ||| n == 0x205f
    ||| n == 0x3000
}

/// Whether some character of `s` is whitespace.
pub open spec fn has_whitespace(s: Seq<char>) -> bool {
    exists|i: int| 0 <= i < s.len() && whitespace(#[trigger] s[i])
}

/// Whether `p` stands in `s` at index `i`.
pub open spec fn occurs_at(s: Seq<char>, i: int, p: Seq<char>) -> bool {
    &&& 0 <= i
    &&& i + p.len() <= s.len()
    &&& forall|k: int| 0 <= k < p.len() ==> s[i + k] == #[trigger] p[k]
}

/// Whether `s` begins with `p`.
pub open spec fn has_prefix(s: Seq<char>, p: Seq<char>) -> bool {
    occurs_at(s, 0, p)
}

/// Whether `s` ends with `p`.
pub open spec fn has_suffix(s: Seq<char>, p: Seq<char>) -> bool {
    occurs_at(s, s.len() - p.len(), p)
}

/// Whether `p` stands somewhere in `s`.
pub open spec fn contains_text(s: Seq<char>, p: Seq<char>) -> bool {
    exists|i: int| #[trigger] occurs_at(s, i, p)
}

/// Whether a line begins at index `i` of `s`: at the start, or right after a
/// line feed.
pub open spec fn line_start(s: Seq<char>, i: int) -> bool {
    0 <= i <= s.len() && (i == 0 || s[i - 1] == '\n')
}

/// The index of the first `c` at or after `from`, or the length of `s` where
/// there is none.
pub open spec fn index_of_char(s: Seq<char>, c: char, from: int) -> int
    decreases s.len() - from,
{
    if from < 0 || from >= s.len() {
        s.len() as int
    } else if s[from] == c {
        from
    } else {
        index_of_char(s, c, from + 1)
    }
}

/// The index of the first character at or after `from` that is not whitespace,
/// or the length of `s` where there is none.
pub open spec fn skip_whitespace(s: Seq<char>, from: int) -> int
    decreases s.len() - from,
{
    if from < 0 || from >= s.len() {
        s.len() as int
    } else if !whitespace(s[from]) {
        from
    } else {
        skip_whitespace(s, from + 1)
    }
}

/// The length of `s` without its trailing whitespace.
pub open spec fn trimmed_end(s: Seq<char>) -> int
    decreases s.len(),
{
    if s.len() == 0 {
        0
    } else if !whitespace(s.last()) {
        s.len() as int
    } else {
        trimmed_end(s.drop_last())
    }
}

/// `s` without leading and trailing whitespace.
pub open spec fn trimmed(s: Seq<char>) -> Seq<char> {
    let start = skip_whitespace(s, 0);
    if start >= s.len() {
        Seq::empty()
    } else {
        s.subrange(start, trimmed_end(s))
    }
}

/// `s` without leading whitespace.
pub open spec fn trimmed_start(s: Seq<char>) -> Seq<char> {
    s.skip(skip_whitespace(s, 0))
}

/// The first line of `s`: what stands before the first line feed, without the
/// carriage return that may precede it. The whole of `s` where it holds no
/// line feed.
pub open spec fn first_line(s: Seq<char>) -> Seq<char> {
    let end = index_of_char(s, '\n', 0);
    if end < s.len() && end > 0 && s[end - 1] == '\r' {
        s.take(end - 1)
    } else {
        s.take(end)
    }
}

/// `index_of_char` stays within `s`, points at `c` when it is inside, and
/// passes over no `c`.
pub proof fn lemma_index_of_char(s: Seq<char>, c: char, from: int)
    requires
        0 <= from <= s.len(),
    ensures
        from <= index_of_char(s, c, from) <= s.len(),
        index_of_char(s, c, from) < s.len() ==> s[index_of_char(s, c, from)] == c,
        forall|k: int| from <= k < index_of_char(s, c, from) ==> s[k] != c,
    decreases s.len() - from,
{
    if from < s.len() && s[from] != c {
        lemma_index_of_char(s, c, from + 1);
    }
}

/// `skip_whitespace` stays within `s`, stops at a character that is not
/// whitespace, and passes over whitespace only.
pub proof fn lemma_skip_whitespace(s: Seq<char>, from: int)
    requires
        0 <= from <= s.len(),
    ensures
        from <= skip_whitespace(s, from) <= s.len(),
        skip_whitespace(s, from) < s.len() ==> !whitespace(s[skip_whitespace(s, from)]),
        forall|k: int| from <= k < skip_whitespace(s, from) ==> whitespace(#[trigger] s[k]),
    decreases s.len() - from,
{
    if from < s.len() && whitespace(s[from]) {
        lemma_skip_whitespace(s, from + 1);
    }
}

/// `trimmed_end` stays within `s`, stops after a character that is not
/// whitespace, and cuts whitespace only.
pub proof fn lemma_trimmed_end(s: Seq<char>)
    ensures
        0 <= trimmed_end(s) <= s.len(),
        trimmed_end(s) > 0 ==> !whitespace(s[trimmed_end(s) - 1]),
        forall|k: int| trimmed_end(s) <= k < s.len() ==> whitespace(#[trigger] s[k]),
    decreases s.len(),
{
    if s.len() > 0 && whitespace(s.last()) {
        let t = s.drop_last();
        lemma_trimmed_end(t);
        assert forall|k: int| trimmed_end(s) <= k < s.len() implies whitespace(
            #[trigger] s[k],
        ) by {
            if k < t.len() {
                assert(t[k] == s[k]);
            }
        }
    }
}

/// Whether `c` is whitespace.
pub fn is_whitespace(c: char) -> (r: bool)
    ensures
        r == whitespace(c),
{
    let n: u32 = c as u32;
    (0x09 <= n && n <= 0x0d) || n == 0x20 || n == 0x85 || n == 0xa0 || n == 0x1680 || (0x2000 <= n
        && n <= 0x200a) || n == 0x2028 || n == 0x2029 || n == 0x202f || n == 0x205f || n == 0x3000
}

/// The characters of `s`, in order.
pub fn chars_of(s: &str) -> (v: Vec<char>)
    ensures
        v@ == s@,
{
    let mut v: Vec<char> = Vec::new();
    for c in it: s.chars()
        invariant
            v@ == it.seq().take(it.index() as int),
            it.seq() == s@,
    {
        v.push(c);
    }
    v
}

/// The string made of the characters of `v`, in order.
pub fn string_of(v: &Vec<char>) -> (s: String)
    ensures
        s@ == v@,
{
    substring(v, 0, v.len())
}

/// The string made of the characters of `v` from index `from` up to `to`.
pub fn substring(v: &Vec<char>, from: usize, to: usize) -> (s: String)
    requires
        from <= to <= v.len(),
    ensures
        s@ == v@.subrange(from as int, to as int),
{
    let mut s = String::new();
    let mut i: usize = from;
    while i < to
        invariant
            from <= i <= to <= v.len(),
            s@ == v@.subrange(from as int, i as int),
        decreases to - i,
    {
        s.push(v[i]);
        i += 1;
    }
    s
}

/// Adds the characters of `v` from index `from` up to `to` at the end of
/// `out`.
pub fn push_range(out: &mut Vec<char>, v: &Vec<char>, from: usize, to: usize)
    requires
        from <= to <= v.len(),
    ensures
        final(out)@ == old(out)@ + v@.subrange(from as int, to as int),
{
    let mut i: usize = from;
    while i < to
        invariant
            from <= i <= to <= v.len(),
            out@ == old(out)@ + v@.subrange(from as int, i as int),
        decreases to - i,
    {
        out.push(v[i]);
        i += 1;
    }
}

/// Whether the two vectors hold the same characters.
pub fn same_text(a: &Vec<char>, b: &Vec<char>) -> (r: bool)
    ensures
        r == (a@ == b@),
{
    if a.len() != b.len() {
        return false;
    }
    let mut i: usize = 0;
    while i < a.len()
        invariant
            i <= a.len(),
            a.len() == b.len(),
            forall|k: int| 0 <= k < i ==> a@[k] == b@[k],
        decreases a.len() - i,
    {
        if a[i] != b[i] {
            return false;
        }
        i += 1;
    }
    assert(a@ =~= b@);
    true
}

/// Whether `p` stands in `v` at index `i`.
pub fn matches_at(v: &Vec<char>, i: usize, p: &Vec<char>) -> (r: bool)
    ensures
        r == occurs_at(v@, i as int, p@),
{
    if p.len() > v.len() || i > v.len() - p.len() {
        return false;
    }
    let mut k: usize = 0;
    while k < p.len()
        invariant
            k <= p.len(),
            i + p.len() <= v.len(),
            forall|j: int| 0 <= j < k ==> v@[i + j] == #[trigger] p@[j],
        decreases p.len() - k,
    {
        if v[i + k] != p[k] {
            return false;
        }
        k += 1;
    }
    true
}

/// Whether `v` ends with `p`.
pub fn ends_with(v: &Vec<char>, p: &Vec<char>) -> (r: bool)
    ensures
        r == has_suffix(v@, p@),
{
    if p.len() > v.len() {
        return false;
    }
    matches_at(v, v.len() - p.len(), p)
}

/// Whether `p` stands somewhere in `v`.
pub fn contains(v: &Vec<char>, p: &Vec<char>) -> (r: bool)
    ensures
        r == contains_text(v@, p@),
{
    if p.len() > v.len() {
        assert forall|i: int| !#[trigger] occurs_at(v@, i, p@) by {}
        return false;
    }
    let last: usize = v.len() - p.len();
    let mut i: usize = 0;
    while i <= last
        invariant
            i <= last + 1,
            last == v.len() - p.len(),
            forall|j: int| 0 <= j < i ==> !#[trigger] occurs_at(v@, j, p@),
        decreases last + 1 - i,
    {
        if matches_at(v, i, p) {
            return true;
        }
        i += 1;
    }
    assert forall|j: int| !#[trigger] occurs_at(v@, j, p@) by {}
    false
}

/// The index of the first `c` at or after `from`, or the length of `v`.
pub fn find_char(v: &Vec<char>, c: char, from: usize) -> (r: usize)
    requires
        from <= v.len(),
    ensures
        r == index_of_char(v@, c, from as int),
        from <= r <= v.len(),
{
    let mut i: usize = from;
    while i < v.len() && v[i] != c
        invariant
            from <= i <= v.len(),
            index_of_char(v@, c, from as int) == index_of_char(v@, c, i as int),
        decreases v.len() - i,
    {
        i += 1;
    }
    i
}

/// The index of the first character at or after `from` that is not
/// whitespace, or the length of `v`.
pub fn find_non_whitespace(v: &Vec<char>, from: usize) -> (r: usize)
    requires
        from <= v.len(),
    ensures
        r == skip_whitespace(v@, from as int),
        from <= r <= v.len(),
{
    let mut i: usize = from;
    while i < v.len() && is_whitespace(v[i])
        invariant
            from <= i <= v.len(),
            skip_whitespace(v@, from as int) == skip_whitespace(v@, i as int),
        decreases v.len() - i,
    {
        i += 1;
    }
    i
}

/// The length of `v` without its trailing whitespace.
pub fn find_trimmed_end(v: &Vec<char>) -> (r: usize)
    ensures
        r == trimmed_end(v@),
        r <= v.len(),
{
    let mut i: usize = v.len();
    assert(v@.take(v.len() as int) =~= v@);
    while i > 0 && is_whitespace(v[i - 1])
        invariant
            i <= v.len(),
            trimmed_end(v@) == trimmed_end(v@.take(i as int)),
        decreases i,
    {
        assert(v@.take(i as int).drop_last() =~= v@.take(i - 1));
        i -= 1;
    }
    i
}

/// `v` without leading and trailing whitespace.
pub fn trim(v: &Vec<char>) -> (r: Vec<char>)
    ensures
        r@ == trimmed(v@),
{
    let start: usize = find_non_whitespace(v, 0);
    let mut r: Vec<char> = Vec::new();
    if start < v.len() {
        let end: usize = find_trimmed_end(v);
        proof {
            lemma_skip_whitespace(v@, 0);
            lemma_trimmed_end(v@);
        }
        push_range(&mut r, v, start, end);
    }
    r
}

/// The first line of `v`.
pub fn take_first_line(v: &Vec<char>) -> (r: Vec<char>)
    ensures
        r@ == first_line(v@),
{
    let end: usize = find_char(v, '\n', 0);
    let mut r: Vec<char> = Vec::new();
    if end < v.len() && end > 0 && v[end - 1] == '\r' {
        push_range(&mut r, v, 0, end - 1);
    } else {
        push_range(&mut r, v, 0, end);
    }
    r
}

/// The character of the decimal digit `d`.
pub open spec fn digit_char(d: nat) -> char {
    (('0' as u8) + d) as char
}

/// `n` written in decimal digits.
pub open spec fn decimal(n: nat) -> Seq<char>
    decreases n,
{
    if n < 10 {
        seq![digit_char(n)]
    } else {
        decimal(n / 10).push(digit_char(n % 10))
    }
}

/// Adds `n`, written in decimal digits, at the end of `out`.
pub fn push_decimal(out: &mut Vec<char>, n: usize)
    ensures
        final(out)@ == old(out)@ + decimal(n as nat),
    decreases n,
{
    if n >= 10 {
        push_decimal(out, n / 10);
    }
    let d: u8 = (n % 10) as u8;
    out.push((48u8 + d) as char);
    assert(out@ =~= old(out)@ + decimal(n as nat));
}

/// Whether `c` is a decimal digit.
pub open spec fn is_digit(c: char) -> bool {
    '0' <= c <= '9'
}

/// Whether `s` is made of decimal digits only.
pub open spec fn all_digits(s: Seq<char>) -> bool {
    forall|i: int| 0 <= i < s.len() ==> is_digit(#[trigger] s[i])
}

/// The number that the decimal digits `s` stand for.
pub open spec fn decimal_value(s: Seq<char>) -> nat
    decreases s.len(),
{
    if s.len() == 0 {
        0
    } else {
        decimal_value(s.drop_last()) * 10 + ((s.last() as u8) - ('0' as u8)) as nat
    }
}

/// The number that `s` stands for, where it is, whitespace around it set
/// aside, an optional `+` and then one or more decimal digits.
pub open spec fn parsed_number(s: Seq<char>) -> Option<nat> {
    let t = trimmed(s);
    let digits = if t.len() > 0 && t[0] == '+' {
        t.skip(1)
    } else {
        t
    };
    if digits.len() > 0 && all_digits(digits) {
        Some(decimal_value(digits))
    } else {
        None
    }
}

/// A number does not shrink when digits follow it.
pub proof fn lemma_decimal_value_grows(s: Seq<char>, k: int)
    requires
        0 <= k <= s.len(),
        all_digits(s),
    ensures
        decimal_value(s.take(k)) <= decimal_value(s),
    decreases s.len() - k,
{
    if k < s.len() {
        lemma_decimal_value_grows(s, k + 1);
        assert(s.take(k + 1).drop_last() =~= s.take(k));
        assert(is_digit(s[k]));
    } else {
        assert(s.take(k) =~= s);
    }
}

/// The number that `text` stands for, where it fits in 32 bits.
pub fn parse_u32(text: &str) -> (r: Option<u32>)
    ensures
        r == match parsed_number(text@) {
            Some(n) => if n <= u32::MAX {
                Some(n as u32)
            } else {
                None
            },
            None => None,
        },
{
    let whole = chars_of(text);
    let t = trim(&whole);
    let start: usize = if t.len() > 0 && t[0] == '+' {
        1
    } else {
        0
    };
    let ghost digits = t@.skip(start as int);
    if start >= t.len() {
        return None;
    }
    let mut value: u64 = 0;
    let mut i: usize = start;
    assert(digits.take(0) =~= Seq::empty());
    while i < t.len()
        invariant
            start <= i <= t.len(),
            start < t.len(),
            t@ == trimmed(text@),
            start == if t@.len() > 0 && t@[0] == '+' {
                1int
            } else {
                0int
            },
            digits == t@.skip(start as int),
            forall|k: int| 0 <= k < i - start ==> is_digit(#[trigger] digits[k]),
            value == decimal_value(digits.take(i - start)),
            value <= u32::MAX,
        decreases t.len() - i,
    {
        let c: char = t[i];
        assert(digits[i - start] == c);
        if !('0' <= c && c <= '9') {
            assert(!is_digit(digits[i - start]));
            return None;
        }
        assert(digits.take(i - start + 1).drop_last() =~= digits.take(i - start));
        value = value * 10 + ((c as u8) - 48u8) as u64;
        i += 1;
        if value > 0xffff_ffff {
            let mut j: usize = i;
            while j < t.len()
                invariant
                    i <= j <= t.len(),
                    start <= i,
                    start < t.len(),
                    t@ == trimmed(text@),
                    start == if t@.len() > 0 && t@[0] == '+' {
                        1int
                    } else {
                        0int
                    },
                    value == decimal_value(digits.take(i - start)),
                    value > u32::MAX,
                    digits == t@.skip(start as int),
                    forall|k: int| 0 <= k < j - start ==> is_digit(#[trigger] digits[k]),
                decreases t.len() - j,
            {
                let d: char = t[j];
                assert(digits[j - start] == d);
                if !('0' <= d && d <= '9') {
                    assert(!is_digit(digits[j - start]));
                    return None;
                }
                j += 1;
            }
            proof {
                assert(t@.skip(0) =~= t@);
                assert(digits.len() == t.len() - start);
                assert(all_digits(digits));
                lemma_decimal_value_grows(digits, i - start);
            }
            return None;
        }
    }
    assert(t@.skip(0) =~= t@);
    assert(digits.len() == t.len() - start);
    assert(digits.take(t.len() - start) =~= digits);
    assert(all_digits(digits));
    Some(value as u32)
}

/// The first index at or after `from` at which `p` stands in `s`.
pub open spec fn index_of(s: Seq<char>, p: Seq<char>, from: int) -> Option<int>
    decreases s.len() - from,
{
    if from < 0 || from + p.len() > s.len() {
        None
    } else if occurs_at(s, from, p) {
        Some(from)
    } else {
        index_of(s, p, from + 1)
    }
}

/// The first index at or after `from` at which `s` holds another character
/// than `c`, or the length of `s` where there is none.
pub open spec fn past_char(s: Seq<char>, c: char, from: int) -> int
    decreases s.len() - from,
{
    if from < 0 || from >= s.len() {
        s.len() as int
    } else if s[from] != c {
        from
    } else {
        past_char(s, c, from + 1)
    }
}

/// `index_of` gives the least index at or after `from` at which `p` stands.
pub proof fn lemma_index_of(s: Seq<char>, p: Seq<char>, from: int)
    requires
        0 <= from,
    ensures
        match index_of(s, p, from) {
            Some(at) => from <= at && occurs_at(s, at, p) && forall|k: int|
                from <= k < at ==> !occurs_at(s, k, p),
            None => forall|k: int| from <= k ==> !occurs_at(s, k, p),
        },
    decreases s.len() - from,
{
    if from + p.len() <= s.len() && !occurs_at(s, from, p) {
        lemma_index_of(s, p, from + 1);
    }
}

/// `past_char` stays within `s`, stops at another character than `c`, and
/// passes over `c` only.
pub proof fn lemma_past_char(s: Seq<char>, c: char, from: int)
    requires
        0 <= from <= s.len(),
    ensures
        from <= past_char(s, c, from) <= s.len(),
        past_char(s, c, from) < s.len() ==> s[past_char(s, c, from)] != c,
        forall|k: int| from <= k < past_char(s, c, from) ==> s[k] == c,
    decreases s.len() - from,
{
    if from < s.len() && s[from] == c {
        lemma_past_char(s, c, from + 1);
    }
}

/// The first index at or after `from` at which `p` stands in `v`.
pub fn find(v: &Vec<char>, p: &Vec<char>, from: usize) -> (r: Option<usize>)
    ensures
        match r {
            Some(at) => index_of(v@, p@, from as int) == Some(at as int) && from <= at && at
                + p.len() <= v.len(),
            None => index_of(v@, p@, from as int) is None,
        },
{
    if p.len() > v.len() || from > v.len() - p.len() {
        return None;
    }
    let last: usize = v.len() - p.len();
    let mut i: usize = from;
    while i <= last
        invariant
            from <= i <= last + 1,
            last == v.len() - p.len(),
            index_of(v@, p@, from as int) == index_of(v@, p@, i as int),
        decreases last + 1 - i,
    {
        if matches_at(v, i, p) {
            return Some(i);
        }
        i += 1;
    }
    None
}

/// The first index at or after `from` at which `v` holds another character
/// than `c`, or the length of `v`.
pub fn skip_char(v: &Vec<char>, c: char, from: usize) -> (r: usize)
    ensures
        r == past_char(v@, c, from as int),
        from <= v.len() ==> from <= r <= v.len(),
{
    if from >= v.len() {
        return v.len();
    }
    let mut i: usize = from;
    while i < v.len() && v[i] == c
        invariant
            from <= i <= v.len(),
            past_char(v@, c, from as int) == past_char(v@, c, i as int),
        decreases v.len() - i,
    {
        i += 1;
    }
    i
}

/// The number of bytes that `c` takes in UTF-8.
pub open spec fn utf8_width(c: char) -> nat {
    let n = c as u32;
    if n < 0x80 {
        1
    } else if n < 0x800 {
        2
    } else if n < 0x1_0000 {
        3
    } else {
        4
    }
}

/// The number of bytes that `s` takes in UTF-8.
pub open spec fn utf8_length(s: Seq<char>) -> nat
    decreases s.len(),
{
    if s.len() == 0 {
        0
    } else {
        utf8_length(s.drop_last()) + utf8_width(s.last())
    }
}

/// The number of bytes that `c` takes in UTF-8.
pub fn char_width(c: char) -> (r: u8)
    ensures
        r == utf8_width(c),
{
    let n: u32 = c as u32;
    if n < 0x80 {
        1
    } else if n < 0x800 {
        2
    } else if n < 0x1_0000 {
        3
    } else {
        4
    }
}

/// The bytes of a text are those of its first character and those of the
/// rest.
pub proof fn lemma_utf8_length_front(s: Seq<char>)
    requires
        s.len() > 0,
    ensures
        utf8_length(s) == utf8_width(s[0]) + utf8_length(s.drop_first()),
    decreases s.len(),
{
    if s.len() == 1 {
        assert(s.drop_last() =~= Seq::empty());
        assert(s.drop_first() =~= Seq::empty());
    } else {
        lemma_utf8_length_front(s.drop_last());
        assert(s.drop_last().drop_first() =~= s.drop_first().drop_last());
        assert(s.drop_first().last() == s.last());
        assert(s.drop_last()[0] == s[0]);
    }
}

/// `utf8_length` is the length of the UTF-8 encoding.
pub proof fn lemma_utf8_length_is_encoded_length(s: Seq<char>)
    ensures
        utf8_length(s) == vstd::utf8::encode_utf8(s).len(),
    decreases s.len(),
{
    if s.len() > 0 {
        lemma_utf8_length_front(s);
        lemma_utf8_length_is_encoded_length(s.drop_first());
        vstd::utf8::char_is_scalar(s[0]);
    }
}

/// The start of a text takes no more bytes than the text.
pub proof fn lemma_utf8_length_grows(s: Seq<char>, k: int)
    requires
        0 <= k <= s.len(),
    ensures
        utf8_length(s.take(k)) <= utf8_length(s),
    decreases s.len() - k,
{
    if k < s.len() {
        lemma_utf8_length_grows(s, k + 1);
        assert(s.take(k + 1).drop_last() =~= s.take(k));
    } else {
        assert(s.take(k) =~= s);
    }
}

/// The number of bytes that the first `end` characters of `v` take in UTF-8.
pub fn byte_length_until(v: &Vec<char>, end: usize) -> (r: u128)
    requires
        end <= v.len(),
    ensures
        r == utf8_length(v@.take(end as int)),
{
    let mut total: u128 = 0;
    let mut i: usize = 0;
    assert(v@.take(0) =~= Seq::empty());
    while i < end
        invariant
            i <= end <= v.len(),
            total == utf8_length(v@.take(i as int)),
            total <= 4 * i,
        decreases end - i,
    {
        assert(v@.take(i + 1).drop_last() =~= v@.take(i as int));
        total = total + char_width(v[i]) as u128;
        i += 1;
    }
    total
}

/// The number of bytes that `v` takes in UTF-8.
pub fn byte_length(v: &Vec<char>) -> (r: u128)
    ensures
        r == utf8_length(v@),
{
    assert(v@.take(v.len() as int) =~= v@);
    byte_length_until(v, v.len())
}

} // verus!
