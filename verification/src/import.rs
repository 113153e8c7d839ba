//! Pages of an exported notebook, made into candidates.

use vstd::prelude::*;
use vstd::string::*;

use crate::clock::now;
use crate::model::{
    fresh_id, CaptureMethod, Domain, InboxItem, InboxItemView, KnowledgeType, Timestamp,
};
use crate::paths::{
    extension_is, file_stem, has_extension, is_absolute, leads, leads_segments, segments,
    split_path, stem_of, views,
};
use crate::pattern::{first_replaced, replace_first};
use crate::store::{join_segments, relative_to, slashed, BrainStore};
use crate::text::{
    byte_length, chars_of, find_char, has_prefix, index_of_char, lowercase, matches_at, push_range,
    string_of, trim, trimmed, utf8_length,
};

verus! {

/// How many pages an import staged, and how many it passed over.
#[derive(Debug)]
pub struct ImportSummary {
    pub imported: usize,
    pub skipped: usize,
}

/// A file of an export: where it lies and what it holds, or `None` where it
/// could not be read.
#[derive(Debug)]
pub struct ExportFile {
    pub path: String,
    pub content: Option<String>,
}

/// What an import makes of a file.
#[derive(Debug)]
pub enum PageOutcome {
    /// The file is no page: it is not of the extension `md`.
    Ignored,
    /// The page could not be read, or holds next to nothing.
    Skipped,
    /// The page is staged as this item.
    Imported(InboxItem),
}

/// What an import makes of the files of an export, file by file, and the
/// count of it.
#[derive(Debug)]
pub struct Import {
    pub outcomes: Vec<PageOutcome>,
    pub summary: ImportSummary,
}

/// The regular expression of the identifier that the notebook adds to a
/// name: whitespace and 32 hexadecimal digits, at the end.
pub const NOTION_SUFFIX: &'static str = "\\s+[a-f0-9]{32}$";

/// The least number of bytes that a page that is staged takes in UTF-8,
/// whitespace around it set aside.
pub const MIN_PAGE_LENGTH: usize = 10;

/// The name `name` without the identifier that the notebook added to it.
pub open spec fn cleaned_title(name: Seq<char>) -> Seq<char> {
    match first_replaced(NOTION_SUFFIX@, name, ""@) {
        Some(t) => t,
        None => name,
    }
}

/// `s` with a hyphen in place of each space.
pub open spec fn dashed(s: Seq<char>) -> Seq<char> {
    s.map_values(
        |c: char|
            if c == ' ' {
                '-'
            } else {
                c
            },
    )
}

/// The part of a domain that the folder `component` gives: its name without
/// the identifier of the notebook, in lower case, with hyphens for spaces.
pub open spec fn folder_name(component: Seq<char>) -> Seq<char> {
    dashed(lowercase(cleaned_title(component)))
}

/// The folders between the export directory `root` and the file `path`.
pub open spec fn folders_of(path: Seq<char>, root: Seq<char>) -> Seq<Seq<char>> {
    let parent = if segments(path).len() > 0 {
        segments(path).drop_last()
    } else {
        Seq::empty()
    };
    if is_absolute(path) == is_absolute(root) && leads(segments(root), parent) {
        parent.skip(segments(root).len() as int)
    } else {
        Seq::empty()
    }
}

/// The domain suggested for the page `path` of the export at `root`:
/// `imported`, and the names of the folders between the two.
pub open spec fn import_domain(path: Seq<char>, root: Seq<char>) -> Seq<char> {
    let folders = folders_of(path, root);
    if folders.len() == 0 {
        "imported"@
    } else {
        "imported/"@ + slashed(folders.map_values(|c: Seq<char>| folder_name(c)), 0)
    }
}

/// The heading that the line `line` holds: what follows `# `, whitespace
/// around the line and around the heading set aside. `None` where the line
/// is no heading of the first level or the heading is empty.
pub open spec fn heading_of(line: Seq<char>) -> Option<Seq<char>> {
    let t = trimmed(line);
    if has_prefix(t, seq!['#', ' ']) && trimmed(t.skip(2)).len() > 0 {
        Some(trimmed(t.skip(2)))
    } else {
        None
    }
}

/// The first heading in the lines of `s` that begin at or after `from`.
pub open spec fn heading_from(s: Seq<char>, from: int) -> Option<Seq<char>>
    decreases s.len() - from,
{
    if from < 0 || from > s.len() {
        None
    } else {
        let end = index_of_char(s, '\n', from);
        match heading_of(s.subrange(from, end)) {
            Some(h) => Some(h),
            None => {
                if end >= s.len() || end < from {
                    None
                } else {
                    heading_from(s, end + 1)
                }
            },
        }
    }
}

/// The title of a page: its first heading, or the name of its file without
/// the identifier of the notebook.
pub open spec fn title_of(content: Seq<char>, filename: Seq<char>) -> Seq<char> {
    match heading_from(content, 0) {
        Some(h) => h,
        None => cleaned_title(filename),
    }
}

/// The name `filename` without the identifier that the notebook added to it.
pub fn clean_notion_title(filename: &str) -> (r: String)
    ensures
        r@ == cleaned_title(filename@),
{
    match replace_first(NOTION_SUFFIX, filename, "") {
        Some(t) => t,
        None => String::from_str(filename),
    }
}

/// The part of a domain that a folder gives, from its name without the
/// identifier of the notebook and in lower case.
pub fn dash_spaces(name: &str) -> (r: Vec<char>)
    ensures
        r@ == dashed(name@),
{
    let v = chars_of(name);
    let mut out: Vec<char> = Vec::new();
    let mut i: usize = 0;
    while i < v.len()
        invariant
            i <= v.len(),
            out@ == dashed(v@.take(i as int)),
        decreases v.len() - i,
    {
        let c: char = v[i];
        out.push(
            if c == ' ' {
                '-'
            } else {
                c
            },
        );
        assert(out@ =~= dashed(v@.take(i + 1)));
        i += 1;
    }
    assert(v@.take(v.len() as int) =~= v@);
    out
}

/// The domain suggested for the page `path` of the export at `root`.
pub fn suggest_domain_from_path(path: &str, root: &str) -> (r: String)
    ensures
        r@ == import_domain(path@, root@),
{
    let p = chars_of(path);
    let q = chars_of(root);
    let ps = split_path(&p);
    let qs = split_path(&q);
    let p_absolute: bool = p.len() > 0 && p[0] == '/';
    let q_absolute: bool = q.len() > 0 && q[0] == '/';
    let parent_len: usize = if ps.len() > 0 {
        ps.len() - 1
    } else {
        0
    };
    let ghost parent = if segments(path@).len() > 0 {
        segments(path@).drop_last()
    } else {
        Seq::empty()
    };
    assert(parent =~= segments(path@).take(parent_len as int));
    let inside: bool = p_absolute == q_absolute && leads_segments(&qs, &ps, parent_len);
    assert(inside == (is_absolute(path@) == is_absolute(root@) && leads(segments(root@), parent)));
    if !inside || qs.len() == parent_len {
        proof {
            if inside {
                assert(folders_of(path@, root@) =~= Seq::empty());
            }
        }
        return String::from_str("imported");
    }
    let ghost folders = folders_of(path@, root@);
    let mut names: Vec<Vec<char>> = Vec::new();
    let mut n: usize = qs.len();
    assert(views(names@) =~= folders.map_values(|c: Seq<char>| folder_name(c)).take(0));
    while n < parent_len
        invariant
            qs.len() <= n <= parent_len,
            parent_len <= ps.len(),
            views(ps@) == segments(path@),
            folders == parent.skip(qs.len() as int),
            parent == segments(path@).take(parent_len as int),
            views(names@) == folders.map_values(|c: Seq<char>| folder_name(c)).take(
                n - qs.len(),
            ),
        decreases parent_len - n,
    {
        assert(views(ps@)[n as int] == ps@[n as int]@);
        let component = string_of(&ps[n]);
        let cleaned = clean_notion_title(component.as_str());
        let lowered = cleaned.as_str().to_lowercase();
        let name = dash_spaces(lowered.as_str());
        let ghost before = views(names@);
        let ghost piece = name@;
        names.push(name);
        proof {
            assert(views(names@) =~= before.push(piece));
            assert(folders[n - qs.len()] == ps@[n as int]@);
            assert(piece == folder_name(folders[n - qs.len()]));
            assert(folders.map_values(|c: Seq<char>| folder_name(c)).take(n - qs.len() + 1)
                =~= before.push(piece));
        }
        n += 1;
    }
    assert(folders.map_values(|c: Seq<char>| folder_name(c)).take(parent_len - qs.len())
        =~= folders.map_values(|c: Seq<char>| folder_name(c)));
    let mut out: Vec<char> = chars_of("imported/");
    let rest = join_segments(&names, 0);
    push_range(&mut out, &rest, 0, rest.len());
    assert(out@ =~= "imported/"@ + rest@);
    string_of(&out)
}

/// The heading that the line of `v` from `from` up to `to` holds.
fn line_heading(v: &Vec<char>, from: usize, to: usize) -> (r: Option<Vec<char>>)
    requires
        from <= to <= v.len(),
    ensures
        match heading_of(v@.subrange(from as int, to as int)) {
            Some(h) => r matches Some(x) && x@ == h,
            None => r is None,
        },
{
    let mut line: Vec<char> = Vec::new();
    push_range(&mut line, v, from, to);
    assert(line@ =~= v@.subrange(from as int, to as int));
    let t = trim(&line);
    let mut mark: Vec<char> = Vec::new();
    mark.push('#');
    mark.push(' ');
    assert(mark@ =~= seq!['#', ' ']);
    if !matches_at(&t, 0, &mark) {
        return None;
    }
    let mut rest: Vec<char> = Vec::new();
    push_range(&mut rest, &t, 2, t.len());
    assert(rest@ =~= t@.skip(2));
    let heading = trim(&rest);
    if heading.len() > 0 {
        Some(heading)
    } else {
        None
    }
}

/// The title of the page `content` of the file named `filename`.
pub fn extract_title(content: &str, filename: &str) -> (r: String)
    ensures
        r@ == title_of(content@, filename@),
{
    let v = chars_of(content);
    let mut i: usize = 0;
    loop
        invariant
            i <= v.len(),
            v@ == content@,
            heading_from(v@, 0) == heading_from(v@, i as int),
        decreases v.len() - i,
    {
        let end: usize = find_char(&v, '\n', i);
        match line_heading(&v, i, end) {
            Some(h) => {
                return string_of(&h);
            },
            None => {},
        }
        if end >= v.len() {
            return clean_notion_title(filename);
        }
        i = end + 1;
    }
}

/// The body of the item staged for a page: its title as a heading, an empty
/// line, and the page.
pub open spec fn notion_body(title: Seq<char>, content: Seq<char>) -> Seq<char> {
    seq!['#', ' '] + title + seq!['\n', '\n'] + content
}

/// The name under which a page without a file name is staged.
pub open spec fn untitled() -> Seq<char> {
    "untitled"@
}

/// The item staged for the page `content` at `path` of the export at `root`:
/// a concept, imported, for the domain that the folders of the page suggest,
/// with the place of the page in the export as its source.
pub open spec fn notion_item(
    id: Seq<char>,
    at: Timestamp,
    path: Seq<char>,
    content: Seq<char>,
    root: Seq<char>,
) -> InboxItemView {
    let filename = match stem_of(path) {
        Some(stem) => stem,
        None => untitled(),
    };
    InboxItemView {
        source: Some("notion:"@ + relative_to(path, root)),
        ..InboxItemView::fresh(
            id,
            at,
            KnowledgeType::Concept,
            import_domain(path, root),
            CaptureMethod::Import,
            notion_body(title_of(content, filename), content),
        )
    }
}

/// Whether `file` is a page: it is of the extension `md`.
pub open spec fn is_page(file: ExportFile) -> bool {
    has_extension(file.path@, "md"@)
}

/// Whether `file` is a page that is staged: it could be read and takes,
/// whitespace around it set aside, at least `MIN_PAGE_LENGTH` bytes in UTF-8.
pub open spec fn is_staged(file: ExportFile) -> bool {
    &&& is_page(file)
    &&& file.content matches Some(c)
    &&& utf8_length(trimmed(c@)) >= MIN_PAGE_LENGTH
}

/// Whether `outcome` is what an import makes of `file`, in the export at
/// `root`. An item that is staged has an identifier and a time of capture of
/// its own.
pub open spec fn outcome_fits(outcome: PageOutcome, file: ExportFile, root: Seq<char>) -> bool {
    if !is_page(file) {
        outcome is Ignored
    } else if !is_staged(file) {
        outcome is Skipped
    } else {
        outcome matches PageOutcome::Imported(item) && item@ == notion_item(
            item@.id,
            item@.captured_at,
            file.path@,
            file.content->Some_0@,
            root,
        )
    }
}

/// The number of the first `k` files that are pages and staged, or pages and
/// not staged.
pub open spec fn page_count(files: Seq<ExportFile>, staged: bool, k: nat) -> nat
    decreases k,
{
    if k == 0 {
        0
    } else {
        page_count(files, staged, (k - 1) as nat) + if is_page(files[k - 1]) && is_staged(
            files[k - 1],
        ) == staged {
            1nat
        } else {
            0nat
        }
    }
}

/// The item staged for the page `content` at `path`, with the identifier
/// `id`, captured at `at`.
pub fn item_for_page(id: String, at: Timestamp, path: &str, content: &str, root: &str) -> (r:
    InboxItem)
    ensures
        r@ == notion_item(id@, at, path@, content@, root@),
{
    let filename = match file_stem(path) {
        Some(stem) => stem,
        None => String::from_str("untitled"),
    };
    let title = extract_title(content, filename.as_str());
    let mut body = String::from_str("# ");
    body.append(title.as_str());
    body.append("\n\n");
    body.append(content);
    proof {
        reveal_strlit("# ");
        reveal_strlit("\n\n");
        assert(body@ =~= notion_body(title@, content@));
    }
    let store = BrainStore::new(root);
    let mut source = String::from_str("notion:");
    source.append(store.relative_path(path).as_str());
    let mut item = InboxItem::with_identity(
        id,
        at,
        KnowledgeType::Concept,
        Domain(suggest_domain_from_path(path, root)),
        CaptureMethod::Import,
        body,
    );
    item.source = Some(source);
    item
}

/// What an import makes of the files `files` of the export at
/// `export_root`: each page that could be read and holds something is staged,
/// with the time at which its item is made; each other page is passed over;
/// and files that are no pages are left out of the count.
pub fn import_notion(export_root: &str, files: &[ExportFile]) -> (r: Import)
    ensures
        r.outcomes@.len() == files@.len(),
        forall|i: int|
            0 <= i < files@.len() ==> outcome_fits(
                #[trigger] r.outcomes@[i],
                files@[i],
                export_root@,
            ),
        r.summary.imported == page_count(files@, true, files@.len()),
        r.summary.skipped == page_count(files@, false, files@.len()),
{
    let mut outcomes: Vec<PageOutcome> = Vec::new();
    let mut imported: usize = 0;
    let mut skipped: usize = 0;
    let mut i: usize = 0;
    while i < files.len()
        invariant
            i <= files.len(),
            outcomes@.len() == i,
            forall|j: int|
                0 <= j < i ==> outcome_fits(#[trigger] outcomes@[j], files@[j], export_root@),
            imported == page_count(files@, true, i as nat),
            skipped == page_count(files@, false, i as nat),
            imported + skipped <= i,
        decreases files.len() - i,
    {
        let file = &files[i];
        let outcome = if !extension_is(file.path.as_str(), "md") {
            PageOutcome::Ignored
        } else {
            match &file.content {
                Some(content) => {
                    let v = chars_of(content.as_str());
                    if byte_length(&trim(&v)) < MIN_PAGE_LENGTH as u128 {
                        skipped += 1;
                        PageOutcome::Skipped
                    } else {
                        imported += 1;
                        PageOutcome::Imported(
                            item_for_page(
                                fresh_id(),
                                now(),
                                file.path.as_str(),
                                content.as_str(),
                                export_root,
                            ),
                        )
                    }
                },
                None => {
                    skipped += 1;
                    PageOutcome::Skipped
                },
            }
        };
        outcomes.push(outcome);
        i += 1;
    }
    Import { outcomes, summary: ImportSummary { imported, skipped } }
}

} // verus!
