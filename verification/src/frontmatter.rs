//! The header of a record file: how a file is split into its header and its
//! body, and how the two are put together again.
//!
//! A file is an opening fence line `---`, the header, a closing fence line
//! that begins with `---`, and the body.

use vstd::prelude::*;
use vstd::string::*;

use crate::error::{NuggetError, NuggetErrorView};
use crate::text::{
    byte_length_until, chars_of, find_char, index_of_char, lemma_index_of_char,
    lemma_utf8_length_grows, lemma_utf8_length_is_encoded_length, line_start, matches_at,
    occurs_at, past_char, push_range, skip_char, string_of, substring, utf8_length,
};

verus! {

/// The fence: three hyphens.
pub open spec fn fence() -> Seq<char> {
    seq!['-', '-', '-']
}

/// The opening fence line.
pub open spec fn opening() -> Seq<char> {
    seq!['-', '-', '-', '\n']
}

/// The opening fence line of a file whose lines end with a carriage return
/// and a line feed.
pub open spec fn opening_with_return() -> Seq<char> {
    seq!['-', '-', '-', '\r', '\n']
}

/// The index at which the header of `input` begins: right after its first
/// line, where that line is the fence and nothing else. `None` where `input`
/// begins with no such line.
pub open spec fn header_start(input: Seq<char>) -> Option<int> {
    if occurs_at(input, 0, opening()) {
        Some(4)
    } else if occurs_at(input, 0, opening_with_return()) {
        Some(5)
    } else {
        None
    }
}

/// The first index at or after `from` at which a line of `s` begins with the
/// fence.
pub open spec fn fence_from(s: Seq<char>, from: int) -> Option<int>
    decreases s.len() - from,
{
    if from < 0 || from + 3 > s.len() {
        None
    } else if line_start(s, from) && occurs_at(s, from, fence()) {
        Some(from)
    } else {
        fence_from(s, from + 1)
    }
}

/// The header and the body of `input`: the header is what stands between the
/// opening fence line and the first later line that begins with the fence;
/// the body is what stands after that line and the empty lines that follow
/// it. `None` where the first line of `input` is not the fence alone, or
/// `input` has no closing fence.
pub open spec fn split(input: Seq<char>) -> Option<(Seq<char>, Seq<char>)> {
    match header_start(input) {
        None => None,
        Some(from) => match fence_from(input, from) {
            Some(at) => Some(
                (
                    input.subrange(from, at),
                    input.skip(past_char(input, '\n', index_of_char(input, '\n', at))),
                ),
            ),
            None => None,
        },
    }
}

/// `body` with a line feed at its end, unless it is empty or has one.
pub open spec fn settled(body: Seq<char>) -> Seq<char> {
    if body.len() == 0 || body.last() == '\n' {
        body
    } else {
        body.push('\n')
    }
}

/// The file made of `header` and `body`: the opening fence line, the header,
/// the closing fence line and, where the body is not empty, an empty line and
/// the body, which ends with a line feed.
pub open spec fn rendered(header: Seq<char>, body: Seq<char>) -> Seq<char> {
    if body.len() == 0 {
        opening() + header + opening()
    } else {
        opening() + header + opening() + seq!['\n'] + settled(body)
    }
}

/// Whether `header` can stand between the fences: it is empty or ends with a
/// line feed, and no line of it begins with the fence.
pub open spec fn fits_between_fences(header: Seq<char>) -> bool {
    &&& header.len() == 0 || header.last() == '\n'
    &&& forall|i: int| line_start(header, i) ==> !#[trigger] occurs_at(header, i, fence())
}

/// `fence_from` gives the least index at or after `from` at which a line
/// begins with the fence.
pub proof fn lemma_fence_from(s: Seq<char>, from: int)
    requires
        0 <= from,
    ensures
        match fence_from(s, from) {
            Some(at) => from <= at && line_start(s, at) && occurs_at(s, at, fence()) && forall|
                k: int,
            |
                from <= k < at ==> !(line_start(s, k) && occurs_at(s, k, fence())),
            None => forall|k: int| from <= k ==> !(line_start(s, k) && occurs_at(s, k, fence())),
        },
    decreases s.len() - from,
{
    if from + 3 <= s.len() && !(line_start(s, from) && occurs_at(s, from, fence())) {
        lemma_fence_from(s, from + 1);
    }
}

/// Where a line begins with the fence at `at` and none does from `from` up
/// to `at`, `fence_from` gives `at`.
pub proof fn lemma_fence_found(s: Seq<char>, from: int, at: int)
    requires
        0 <= from <= at,
        line_start(s, at),
        occurs_at(s, at, fence()),
        forall|k: int| from <= k < at ==> !(line_start(s, k) && occurs_at(s, k, fence())),
    ensures
        fence_from(s, from) == Some(at),
    decreases at - from,
{
    if from < at {
        lemma_fence_found(s, from + 1, at);
    }
}

/// Splitting what `rendered` put together gives the header back, and the
/// body with a line feed at its end: for every header that fits between the
/// fences and every body that does not begin with an empty line.
pub proof fn law_split_inverts_rendered(header: Seq<char>, body: Seq<char>)
    requires
        fits_between_fences(header),
        body.len() > 0 ==> body[0] != '\n',
    ensures
        split(rendered(header, body)) == Some((header, settled(body))),
{
    let file = rendered(header, body);
    let at: int = 4 + header.len() as int;
    assert(occurs_at(file, 0, opening()));
    assert(occurs_at(file, at, fence()));
    assert(line_start(file, at)) by {
        if header.len() > 0 {
            assert(file[at - 1] == header.last());
        }
    }
    assert forall|k: int| 4 <= k < at implies !(line_start(file, k) && occurs_at(
        file,
        k,
        fence(),
    )) by {
        if line_start(file, k) && occurs_at(file, k, fence()) {
            assert(file[k - 1] == '\n');
            assert(line_start(header, k - 4)) by {
                if k > 4 {
                    assert(header[k - 5] == file[k - 1]);
                }
            }
            assert(file[at - 1] == '\n');
            assert(file[k + 0] == fence()[0]);
            assert(file[k + 1] == fence()[1]);
            assert(file[k + 2] == fence()[2]);
            assert(k + 2 < at - 1);
            assert(occurs_at(header, k - 4, fence())) by {
                assert forall|j: int| 0 <= j < 3 implies header[k - 4 + j] == #[trigger] fence()[j] by {
                    assert(header[k - 4 + j] == file[k + j]);
                }
            }
        }
    }
    lemma_fence_found(file, 4, at);
    assert(file.subrange(4, at) =~= header);
    assert(file[at + 3] == '\n');
    assert(index_of_char(file, '\n', at) == at + 3) by {
        reveal_with_fuel(index_of_char, 4);
    }
    if body.len() == 0 {
        assert(past_char(file, '\n', at + 3) == file.len()) by {
            reveal_with_fuel(past_char, 2);
        }
        assert(file.skip(file.len() as int) =~= body);
    } else {
        assert(file[at + 4] == '\n');
        assert(file[at + 5] == settled(body)[0]);
        assert(settled(body)[0] == body[0]);
        assert(past_char(file, '\n', at + 3) == at + 5) by {
            reveal_with_fuel(past_char, 3);
        }
        assert(file.skip(at + 5) =~= settled(body));
    }
}

/// Where the first line of `content` that begins with the fence begins, as
/// an offset in the bytes of its UTF-8 form.
pub fn find_closing_fence(content: &str) -> (r: Option<usize>)
    ensures
        match fence_from(content@, 0) {
            Some(at) => r matches Some(offset) && offset == utf8_length(content@.take(at)),
            None => r is None,
        },
{
    let v = chars_of(content);
    let found = closing_fence(&v, 0);
    match found {
        Some(at) => {
            proof {
                lemma_fence_from(v@, 0);
                assert(occurs_at(v@, at as int, fence()));
            }
            let whole: usize = content.as_bytes().len();
            let offset: u128 = byte_length_until(&v, at);
            proof {
                lemma_utf8_length_is_encoded_length(content@);
                lemma_utf8_length_grows(content@, at as int);
                assert(whole == vstd::utf8::encode_utf8(content@).len());
            }
            Some(offset as usize)
        },
        None => None,
    }
}

/// The first index at or after the line start `from` at which a line of `v`
/// begins with the fence.
fn closing_fence(v: &Vec<char>, from: usize) -> (r: Option<usize>)
    requires
        line_start(v@, from as int),
    ensures
        match r {
            Some(at) => fence_from(v@, from as int) == Some(at as int),
            None => fence_from(v@, from as int) is None,
        },
{
    let mut marks: Vec<char> = Vec::new();
    marks.push('-');
    marks.push('-');
    marks.push('-');
    assert(marks@ =~= fence());
    let mut i: usize = from;
    loop
        invariant
            from <= i <= v.len(),
            line_start(v@, i as int),
            marks@ == fence(),
            forall|k: int| from <= k < i ==> !(line_start(v@, k) && occurs_at(v@, k, fence())),
        decreases v.len() - i,
    {
        if matches_at(v, i, &marks) {
            proof {
                lemma_fence_found(v@, from as int, i as int);
            }
            return Some(i);
        }
        let nl: usize = find_char(v, '\n', i);
        proof {
            lemma_index_of_char(v@, '\n', i as int);
            lemma_fence_from(v@, from as int);
        }
        if nl >= v.len() {
            proof {
                assert forall|k: int| from <= k implies !(line_start(v@, k) && occurs_at(
                    v@,
                    k,
                    fence(),
                )) by {
                    if k > i && line_start(v@, k) {
                        assert(v@[k - 1] == '\n');
                    }
                }
            }
            return None;
        }
        proof {
            assert forall|k: int| from <= k < nl + 1 implies !(line_start(v@, k) && occurs_at(
                v@,
                k,
                fence(),
            )) by {
                if k > i && line_start(v@, k) {
                    assert(v@[k - 1] == '\n');
                }
            }
        }
        i = nl + 1;
    }
}

/// The header and the body of `input`, which is the file `path`.
pub fn split_frontmatter(input: &str, path: &str) -> (r: Result<(String, String), NuggetError>)
    ensures
        match split(input@) {
            Some((header, body)) => r matches Ok((h, b)) && h@ == header && b@ == body,
            None => r matches Err(e) && e@ == (NuggetErrorView::MissingFrontmatter { path: path@ }),
        },
{
    let v = chars_of(input);
    let mut first: Vec<char> = Vec::new();
    first.push('-');
    first.push('-');
    first.push('-');
    first.push('\n');
    assert(first@ =~= opening());
    let mut first_with_return: Vec<char> = Vec::new();
    first_with_return.push('-');
    first_with_return.push('-');
    first_with_return.push('-');
    first_with_return.push('\r');
    first_with_return.push('\n');
    assert(first_with_return@ =~= opening_with_return());
    let from: usize = if matches_at(&v, 0, &first) {
        assert(v@[0int + 3] == opening()[3]);
        4
    } else if matches_at(&v, 0, &first_with_return) {
        assert(v@[0int + 4] == opening_with_return()[4]);
        5
    } else {
        return Err(NuggetError::MissingFrontmatter { path: String::from_str(path) });
    };
    let found = closing_fence(&v, from);
    let at: usize = match found {
        Some(at) => at,
        None => {
            return Err(NuggetError::MissingFrontmatter { path: String::from_str(path) });
        },
    };
    proof {
        lemma_fence_from(v@, from as int);
    }
    let eol: usize = find_char(&v, '\n', at);
    let start: usize = skip_char(&v, '\n', eol);
    let header = substring(&v, from, at);
    let body = substring(&v, start, v.len());
    Ok((header, body))
}

/// The file made of `header` and `body`.
pub fn render_file(header: &str, body: &str) -> (r: String)
    ensures
        r@ == rendered(header@, body@),
{
    let h = chars_of(header);
    let b = chars_of(body);
    let mut out: Vec<char> = Vec::new();
    out.push('-');
    out.push('-');
    out.push('-');
    out.push('\n');
    push_range(&mut out, &h, 0, h.len());
    out.push('-');
    out.push('-');
    out.push('-');
    out.push('\n');
    assert(out@ =~= opening() + h@ + opening());
    if b.len() > 0 {
        out.push('\n');
        push_range(&mut out, &b, 0, b.len());
        if b[b.len() - 1] != '\n' {
            out.push('\n');
        }
        assert(out@ =~= rendered(h@, b@));
    }
    string_of(&out)
}

} // verus!
