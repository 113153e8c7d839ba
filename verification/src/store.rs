//! The store: where its files lie, and what is shown of a filed unit.

use vstd::prelude::*;
use vstd::string::*;

use crate::error::{NuggetError, NuggetErrorView};
use crate::model::{knowledge_type_name, tags_of, text_of, texts_of, KnowledgeUnit};
use crate::paths::{join, joined, lies_within, segments, split_path, views};
use crate::text::{
    byte_length, char_width, chars_of, find, first_line, index_of, lemma_index_of, matches_at,
    occurs_at, past_char, push_range, same_text, skip_char, string_of, substring,
    take_first_line, utf8_length, utf8_width,
};

verus! {

/// What a domain says of itself.
#[derive(Debug)]
pub struct DomainMeta {
    pub name: String,
    pub description: Option<String>,
}

/// What a listing shows of a filed unit.
#[derive(Debug)]
pub struct KnowledgeSummary {
    pub id: String,
    pub knowledge_type: String,
    pub tags: Vec<String>,
    pub preview: String,
    pub relative_path: String,
}

/// A store, known by its root directory.
#[derive(Debug)]
pub struct BrainStore {
    pub root: String,
}

impl Clone for BrainStore {
    fn clone(&self) -> (r: Self)
        ensures
            r == *self,
    {
        BrainStore { root: self.root.clone() }
    }
}

/// The mark that ends the header in the lenient reading: a line feed and the
/// fence.
pub open spec fn closing_mark() -> Seq<char> {
    seq!['\n', '-', '-', '-']
}

/// The lenient reading of a file: where `content` begins with the opening
/// fence line and holds a closing mark after it, the header is what stands
/// between the two, and the rest is what follows the mark, without the line
/// feeds at its start. Else there is no header, and the rest is `content`.
pub open spec fn loosely_split(content: Seq<char>) -> (Option<Seq<char>>, Seq<char>) {
    if !occurs_at(content, 0, crate::frontmatter::opening()) {
        (None, content)
    } else {
        match index_of(content, closing_mark(), 4) {
            Some(at) => (
                Some(content.subrange(4, at)),
                content.skip(past_char(content, '\n', at + 4)),
            ),
            None => (None, content),
        }
    }
}

/// The header and the rest of `content`, in the lenient reading.
pub fn split_frontmatter(content: &str) -> (r: (Option<String>, String))
    ensures
        (text_of(r.0), r.1@) == loosely_split(content@),
{
    let v = chars_of(content);
    let mut first: Vec<char> = Vec::new();
    first.push('-');
    first.push('-');
    first.push('-');
    first.push('\n');
    assert(first@ =~= crate::frontmatter::opening());
    if !matches_at(&v, 0, &first) {
        return (None, String::from_str(content));
    }
    let mut mark: Vec<char> = Vec::new();
    mark.push('\n');
    mark.push('-');
    mark.push('-');
    mark.push('-');
    assert(mark@ =~= closing_mark());
    let found = find(&v, &mark, 4);
    match found {
        Some(at) => {
            proof {
                lemma_index_of(v@, mark@, 4);
                assert(occurs_at(v@, at as int, mark@));
                assert(mark@.len() == 4);
            }
            let start: usize = skip_char(&v, '\n', at + 4);
            (Some(substring(&v, 4, at)), substring(&v, start, v.len()))
        },
        None => (None, String::from_str(content)),
    }
}

/// The three dots that end a shortened line.
pub open spec fn ellipsis() -> Seq<char> {
    seq!['.', '.', '.']
}

/// The first line of `s`, shortened to `max_len` characters where it is
/// longer: its first `max_len - 3` characters, and three dots.
pub open spec fn preview_of(s: Seq<char>, max_len: nat) -> Seq<char> {
    let line = first_line(s);
    if line.len() > max_len {
        line.take(
            if max_len >= 3 {
                max_len - 3
            } else {
                0
            },
        ) + ellipsis()
    } else {
        line
    }
}

/// The index up to which the characters of `s`, from index `from` on, take
/// at most `budget` bytes in UTF-8 together.
pub open spec fn fitting(s: Seq<char>, from: int, budget: int) -> int
    decreases s.len() - from,
{
    if from < 0 || from >= s.len() || utf8_width(s[from]) > budget {
        from
    } else {
        fitting(s, from + 1, budget - utf8_width(s[from]))
    }
}

/// The first line of `s`, shortened where it takes more than `max_len` bytes
/// in UTF-8: its longest start of whole characters that takes at most
/// `max_len - 3` bytes, and three dots.
pub open spec fn truncated(s: Seq<char>, max_len: nat) -> Seq<char> {
    let line = first_line(s);
    if utf8_length(line) > max_len {
        line.take(
            fitting(
                line,
                0,
                if max_len >= 3 {
                    max_len - 3
                } else {
                    0
                },
            ),
        ) + ellipsis()
    } else {
        line
    }
}

/// The first line of `s`, shortened to `max_len` bytes.
pub fn truncate_preview(s: &str, max_len: usize) -> (r: String)
    ensures
        r@ == truncated(s@, max_len as nat),
{
    let v = chars_of(s);
    let line = take_first_line(&v);
    if byte_length(&line) > max_len as u128 {
        let whole: usize = if max_len >= 3 {
            max_len - 3
        } else {
            0
        };
        let mut budget: usize = whole;
        let mut i: usize = 0;
        while i < line.len() && char_width(line[i]) as usize <= budget
            invariant
                i <= line.len(),
                fitting(line@, 0, whole as int) == fitting(line@, i as int, budget as int),
            decreases line.len() - i,
        {
            budget = budget - char_width(line[i]) as usize;
            i += 1;
        }
        let mut out: Vec<char> = Vec::new();
        push_range(&mut out, &line, 0, i);
        out.push('.');
        out.push('.');
        out.push('.');
        assert(out@ =~= line@.take(i as int) + ellipsis());
        string_of(&out)
    } else {
        string_of(&line)
    }
}

/// The first line of `s`, shortened to `max_len` characters.
pub fn preview(s: &str, max_len: usize) -> (r: String)
    ensures
        r@ == preview_of(s@, max_len as nat),
{
    let v = chars_of(s);
    let line = take_first_line(&v);
    if line.len() > max_len {
        let keep: usize = if max_len >= 3 {
            max_len - 3
        } else {
            0
        };
        let mut out: Vec<char> = Vec::new();
        push_range(&mut out, &line, 0, keep);
        out.push('.');
        out.push('.');
        out.push('.');
        assert(out@ =~= line@.take(keep as int) + ellipsis());
        string_of(&out)
    } else {
        string_of(&line)
    }
}

/// The components `parts`, from index `from` on, with a `/` between them.
pub open spec fn slashed(parts: Seq<Seq<char>>, from: int) -> Seq<char>
    decreases parts.len() - from,
{
    if from < 0 || from >= parts.len() {
        Seq::empty()
    } else if from == parts.len() - 1 {
        parts[from]
    } else {
        parts[from] + seq!['/'] + slashed(parts, from + 1)
    }
}

/// `path` as seen from `root`: the components of `path` that follow those of
/// `root`, where `path` lies within `root`; else `path` as it is.
pub open spec fn relative_to(path: Seq<char>, root: Seq<char>) -> Seq<char> {
    if lies_within(path, root) {
        slashed(segments(path), segments(root).len() as int)
    } else {
        path
    }
}

/// The length of the previews in a listing, in characters.
pub const PREVIEW_LENGTH: usize = 100;

/// What a listing shows of the unit `unit`, read from the file `path` of a
/// store rooted at `root`.
pub open spec fn summary_of(
    unit: crate::model::KnowledgeUnitView,
    path: Seq<char>,
    root: Seq<char>,
) -> KnowledgeSummaryView {
    KnowledgeSummaryView {
        id: unit.id,
        knowledge_type: knowledge_type_name(unit.knowledge_type),
        tags: unit.tags,
        preview: preview_of(unit.body, PREVIEW_LENGTH as nat),
        relative_path: relative_to(path, root),
    }
}

/// What a `KnowledgeSummary` holds.
pub struct KnowledgeSummaryView {
    pub id: Seq<char>,
    pub knowledge_type: Seq<char>,
    pub tags: Seq<Seq<char>>,
    pub preview: Seq<char>,
    pub relative_path: Seq<char>,
}

impl View for KnowledgeSummary {
    type V = KnowledgeSummaryView;

    open spec fn view(&self) -> KnowledgeSummaryView {
        KnowledgeSummaryView {
            id: self.id@,
            knowledge_type: self.knowledge_type@,
            tags: texts_of(self.tags@),
            preview: self.preview@,
            relative_path: self.relative_path@,
        }
    }
}

/// Whether `name` is among `names`.
pub open spec fn has_name(names: Seq<Seq<char>>, name: Seq<char>) -> bool {
    exists|n: int| 0 <= n < names.len() && #[trigger] names[n] == name
}

/// Whether `name` is among `names`.
pub fn contains_name(names: &[String], name: &str) -> (r: bool)
    ensures
        r == has_name(texts_of(names@), name@),
{
    let wanted = chars_of(name);
    let mut n: usize = 0;
    while n < names.len()
        invariant
            n <= names.len(),
            wanted@ == name@,
            forall|m: int| 0 <= m < n ==> #[trigger] texts_of(names@)[m] != name@,
        decreases names.len() - n,
    {
        let have = chars_of(names[n].as_str());
        assert(texts_of(names@)[n as int] == have@);
        if same_text(&have, &wanted) {
            return true;
        }
        n += 1;
    }
    false
}

/// The texts of `parts`, from index `from` on, with a `/` between them.
pub fn join_segments(parts: &Vec<Vec<char>>, from: usize) -> (r: Vec<char>)
    ensures
        r@ == slashed(views(parts@), from as int),
    decreases parts.len() - from,
{
    let mut out: Vec<char> = Vec::new();
    if from >= parts.len() {
        return out;
    }
    assert(views(parts@)[from as int] == parts@[from as int]@);
    push_range(&mut out, &parts[from], 0, parts[from].len());
    assert(out@ =~= parts@[from as int]@);
    if from < parts.len() - 1 {
        out.push('/');
        let rest = join_segments(parts, from + 1);
        push_range(&mut out, &rest, 0, rest.len());
        assert(out@ =~= parts@[from as int]@ + seq!['/'] + rest@);
    }
    out
}

/// The name of the file that marks a store.
pub open spec fn marker_name() -> Seq<char> {
    "brain.yaml"@
}

impl BrainStore {
    /// The store rooted at `root`.
    pub fn new(root: &str) -> (r: Self)
        ensures
            r.root@ == root@,
    {
        BrainStore { root: String::from_str(root) }
    }

    /// The directory of the inbox.
    pub fn inbox_path(&self) -> (r: String)
        ensures
            r@ == joined(self.root@, "inbox"@),
    {
        join(self.root.as_str(), "inbox")
    }

    /// The file that marks the store.
    pub fn marker_path(&self) -> (r: String)
        ensures
            r@ == joined(self.root@, marker_name()),
    {
        join(self.root.as_str(), "brain.yaml")
    }

    /// Whether the store has been set up: whether its root directory, whose
    /// entries are `root_entries`, holds the marker file.
    pub fn is_initialized(&self, root_entries: &[String]) -> (r: bool)
        ensures
            r == has_name(texts_of(root_entries@), marker_name()),
    {
        contains_name(root_entries, "brain.yaml")
    }

    /// The directory of the domain `domain`.
    pub fn domain_path(&self, domain: &str) -> (r: String)
        ensures
            r@ == joined(self.root@, domain@),
    {
        join(self.root.as_str(), domain)
    }

    /// The file that holds what the domain `domain` says of itself.
    pub fn domain_meta_path(&self, domain: &str) -> (r: String)
        ensures
            r@ == joined(joined(self.root@, domain@), "domain.yaml"@),
    {
        let dir = join(self.root.as_str(), domain);
        join(dir.as_str(), "domain.yaml")
    }

    /// The file named `filename` in which `unit` is filed: in the directory
    /// of its domain.
    pub fn knowledge_path(&self, unit: &KnowledgeUnit, filename: &str) -> (r: String)
        ensures
            r@ == joined(joined(self.root@, unit@.domain), filename@),
    {
        let dir = join(self.root.as_str(), unit.domain.0.as_str());
        join(dir.as_str(), filename)
    }

    /// `path` as seen from the root of the store.
    pub fn relative_path(&self, path: &str) -> (r: String)
        ensures
            r@ == relative_to(path@, self.root@),
    {
        let p = chars_of(path);
        let q = chars_of(self.root.as_str());
        if crate::paths::path_within(path, self.root.as_str()) {
            let ps = split_path(&p);
            let qs = split_path(&q);
            let rest = join_segments(&ps, qs.len());
            string_of(&rest)
        } else {
            String::from_str(path)
        }
    }

    /// What a listing shows of `unit`, read from the file `path`.
    pub fn summarize(&self, unit: &KnowledgeUnit, path: &str) -> (r: KnowledgeSummary)
        ensures
            r@ == summary_of(unit@, path@, self.root@),
    {
        let mut tags: Vec<String> = Vec::new();
        let mut n: usize = 0;
        while n < unit.tags.len()
            invariant
                n <= unit.tags.len(),
                texts_of(tags@) == tags_of(unit.tags@).take(n as int),
            decreases unit.tags.len() - n,
        {
            let ghost before = texts_of(tags@);
            let tag = unit.tags[n].to_string();
            tags.push(tag);
            assert(texts_of(tags@) =~= before.push(unit.tags@[n as int]@));
            assert(tags_of(unit.tags@).take(n + 1) =~= tags_of(unit.tags@).take(n as int).push(
                unit.tags@[n as int]@,
            ));
            n += 1;
        }
        assert(tags_of(unit.tags@).take(unit.tags.len() as int) =~= tags_of(unit.tags@));
        KnowledgeSummary {
            id: unit.id.clone(),
            knowledge_type: unit.knowledge_type.to_string(),
            tags,
            preview: preview(unit.body.as_str(), PREVIEW_LENGTH),
            relative_path: self.relative_path(path),
        }
    }
}

/// What is missing from the directory of a store whose entries are `names`:
/// nothing, the marker file, or the directory of the domains.
pub open spec fn missing_from(names: Seq<Seq<char>>, path: Seq<char>) -> Option<Seq<char>> {
    if !has_name(names, marker_name()) {
        Some("brain.yaml not found in "@ + path)
    } else if !has_name(names, "domains"@) {
        Some("domains directory not found in "@ + path)
    } else {
        None
    }
}

/// Whether the directory `brain_path`, whose entries are `entries`, has the
/// shape of a store: it holds the marker file and the directory of the
/// domains.
pub fn validate_brain(brain_path: &str, entries: &[String]) -> (r: Result<(), NuggetError>)
    ensures
        match missing_from(texts_of(entries@), brain_path@) {
            Some(message) => r matches Err(e) && e@ == (NuggetErrorView::Io { message }),
            None => r is Ok,
        },
{
    if !contains_name(entries, "brain.yaml") {
        let mut message = String::from_str("brain.yaml not found in ");
        message.append(brain_path);
        return Err(NuggetError::Io { message });
    }
    if !contains_name(entries, "domains") {
        let mut message = String::from_str("domains directory not found in ");
        message.append(brain_path);
        return Err(NuggetError::Io { message });
    }
    Ok(())
}

/// What reading a file under the directory of a domain gave: the unit that
/// it holds, or `None` where it could not be read or holds none.
#[derive(Debug)]
pub struct UnitReading {
    pub path: String,
    pub unit: Option<KnowledgeUnit>,
}

/// What a listing shows of the files `readings` of a store rooted at `root`:
/// a summary for each file of the extension `md` that holds a unit, in the
/// order of the files.
pub open spec fn summaries_of(readings: Seq<UnitReading>, root: Seq<char>) -> Seq<
    KnowledgeSummaryView,
>
    decreases readings.len(),
{
    if readings.len() == 0 {
        Seq::empty()
    } else {
        let before = summaries_of(readings.drop_last(), root);
        let last = readings.last();
        if crate::paths::has_extension(last.path@, "md"@) && last.unit is Some {
            before.push(summary_of(last.unit->Some_0@, last.path@, root))
        } else {
            before
        }
    }
}

/// What a list of summaries holds.
pub open spec fn summary_views(v: Seq<KnowledgeSummary>) -> Seq<KnowledgeSummaryView> {
    v.map_values(|s: KnowledgeSummary| s@)
}

impl BrainStore {
    /// The summaries of the units of a domain whose files were read with the
    /// outcomes `readings`. A file that is not of the extension `md`, cannot
    /// be read or holds no unit is passed over, and keeps no other file from
    /// being listed.
    pub fn list_knowledge(&self, readings: &[UnitReading]) -> (r: Vec<KnowledgeSummary>)
        ensures
            summary_views(r@) == summaries_of(readings@, self.root@),
    {
        let mut out: Vec<KnowledgeSummary> = Vec::new();
        let mut i: usize = 0;
        assert(readings@.take(0) =~= Seq::empty());
        assert(summary_views(out@) =~= Seq::empty());
        while i < readings.len()
            invariant
                i <= readings.len(),
                summary_views(out@) == summaries_of(readings@.take(i as int), self.root@),
            decreases readings.len() - i,
        {
            assert(readings@.take(i + 1).drop_last() =~= readings@.take(i as int));
            let reading = &readings[i];
            if crate::paths::extension_is(reading.path.as_str(), "md") {
                match &reading.unit {
                    Some(unit) => {
                        let ghost before = summary_views(out@);
                        let summary = self.summarize(unit, reading.path.as_str());
                        out.push(summary);
                        assert(summary_views(out@) =~= before.push(summary@));
                    },
                    None => {},
                }
            }
            i += 1;
        }
        assert(readings@.take(readings.len() as int) =~= readings@);
        out
    }
}

/// An entry of a directory: its name, whether it is a directory itself, and
/// whether it holds the file in which a domain says what it is.
#[derive(Debug)]
pub struct DirEntry {
    pub name: String,
    pub is_dir: bool,
    pub has_meta: bool,
}

/// The names of the directories among `entries`, in the order in which they
/// are given; where `need_meta` is set, of those only that say what they
/// are.
pub open spec fn domain_names(entries: Seq<DirEntry>, need_meta: bool) -> Seq<Seq<char>>
    decreases entries.len(),
{
    if entries.len() == 0 {
        Seq::empty()
    } else {
        let before = domain_names(entries.drop_last(), need_meta);
        let e = entries.last();
        if e.is_dir && (e.has_meta || !need_meta) {
            before.push(e.name@)
        } else {
            before
        }
    }
}

/// The paths among `files` that name a file of the extension `md`, in the
/// order in which they are given.
pub open spec fn knowledge_files(files: Seq<Seq<char>>) -> Seq<Seq<char>>
    decreases files.len(),
{
    if files.len() == 0 {
        Seq::empty()
    } else {
        let before = knowledge_files(files.drop_last());
        if crate::paths::has_extension(files.last(), "md"@) {
            before.push(files.last())
        } else {
            before
        }
    }
}

/// The names of the directories among `entries`, as given.
fn pick_domains(entries: &[DirEntry], need_meta: bool) -> (r: Vec<String>)
    ensures
        texts_of(r@) == domain_names(entries@, need_meta),
{
    let mut out: Vec<String> = Vec::new();
    let mut i: usize = 0;
    assert(entries@.take(0) =~= Seq::empty());
    assert(texts_of(out@) =~= Seq::empty());
    while i < entries.len()
        invariant
            i <= entries.len(),
            texts_of(out@) == domain_names(entries@.take(i as int), need_meta),
        decreases entries.len() - i,
    {
        assert(entries@.take(i + 1).drop_last() =~= entries@.take(i as int));
        let e = &entries[i];
        if e.is_dir && (e.has_meta || !need_meta) {
            let ghost before = texts_of(out@);
            out.push(e.name.clone());
            assert(texts_of(out@) =~= before.push(e.name@));
        }
        i += 1;
    }
    assert(entries@.take(entries.len() as int) =~= entries@);
    out
}

/// The domains of a store laid out with a directory of domains, whose
/// entries are `entries`: the names of the directories among them, in order.
pub fn list_domains(entries: &[DirEntry]) -> (r: Vec<String>)
    ensures
        texts_of(r@) == crate::order::arranged(domain_names(entries@, false), false),
{
    crate::order::arrange(pick_domains(entries, false), false)
}

/// The files of knowledge among `files`: the paths that name a file of the
/// extension `md`, in the order of paths.
pub fn walk_knowledge_files(files: &[String]) -> (r: Vec<String>)
    ensures
        texts_of(r@) == crate::order::arranged(knowledge_files(texts_of(files@)), true),
{
    let mut out: Vec<String> = Vec::new();
    let ghost given = texts_of(files@);
    let mut i: usize = 0;
    assert(given.take(0) =~= Seq::empty());
    assert(texts_of(out@) =~= Seq::empty());
    while i < files.len()
        invariant
            i <= files.len(),
            given == texts_of(files@),
            texts_of(out@) == knowledge_files(given.take(i as int)),
        decreases files.len() - i,
    {
        assert(given.take(i + 1).drop_last() =~= given.take(i as int));
        assert(given.take(i + 1).last() == files@[i as int]@);
        if crate::paths::extension_is(files[i].as_str(), "md") {
            let ghost before = texts_of(out@);
            out.push(files[i].clone());
            assert(texts_of(out@) =~= before.push(files@[i as int]@));
        }
        i += 1;
    }
    assert(given.take(files.len() as int) =~= given);
    crate::order::arrange(out, true)
}

impl BrainStore {
    /// The domains of the store, whose root directory has the entries
    /// `entries`: the names of the directories among them that say what they
    /// are, in order.
    pub fn list_domains(&self, entries: &[DirEntry]) -> (r: Vec<String>)
        ensures
            texts_of(r@) == crate::order::arranged(domain_names(entries@, true), false),
    {
        crate::order::arrange(pick_domains(entries, true), false)
    }

    /// The number of files of knowledge among `files`, the files under the
    /// directory of a domain.
    pub fn count_knowledge(&self, files: &[String]) -> (r: usize)
        ensures
            r == knowledge_files(texts_of(files@)).len(),
    {
        let ghost given = texts_of(files@);
        let mut n: usize = 0;
        let mut i: usize = 0;
        assert(given.take(0) =~= Seq::empty());
        while i < files.len()
            invariant
                i <= files.len(),
                n <= i,
                given == texts_of(files@),
                n == knowledge_files(given.take(i as int)).len(),
            decreases files.len() - i,
        {
            assert(given.take(i + 1).drop_last() =~= given.take(i as int));
            assert(given.take(i + 1).last() == files@[i as int]@);
            if crate::paths::extension_is(files[i].as_str(), "md") {
                n += 1;
            }
            i += 1;
        }
        assert(given.take(files.len() as int) =~= given);
        n
    }

    /// The file that a reader asks for by the path `relative`, as seen from
    /// the root of the store.
    pub fn requested_path(&self, relative: &str) -> (r: String)
        ensures
            r@ == joined(self.root@, relative@),
    {
        join(self.root.as_str(), relative)
    }
}

/// Whether the resolved path `resolved` may be read by a reader of the store
/// whose resolved root is `resolved_root`: whether it lies within that root.
pub fn guard_path(resolved: &str, resolved_root: &str) -> (r: Result<(), NuggetError>)
    ensures
        match r {
            Ok(_) => lies_within(resolved@, resolved_root@),
            Err(e) => !lies_within(resolved@, resolved_root@) && e@ == (
            NuggetErrorView::PathTraversalDenied { path: resolved@ }),
        },
{
    if crate::paths::path_within(resolved, resolved_root) {
        Ok(())
    } else {
        Err(NuggetError::PathTraversalDenied { path: String::from_str(resolved) })
    }
}

} // verus!
