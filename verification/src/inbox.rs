//! The inbox: candidates that await review, and what accepting or rejecting
//! them does.
//!
//! The inbox itself is a directory. What stands here decides: under which
//! name a candidate is staged, in which order the pending items are listed,
//! and which files an acceptance or a rejection writes and removes.

use vstd::prelude::*;
use vstd::string::*;

use crate::clock::{format_time, formatted_time, now};
use crate::error::{NuggetError, NuggetErrorView};
use crate::frontmatter::{render_file, rendered};
use crate::model::{InboxItem, InboxItemView, KnowledgeUnit, KnowledgeUnitView, Timestamp};
use crate::paths::{extension_is, has_extension, join, joined};
use crate::store::BrainStore;
use crate::text::{
    alphanumeric, chars_of, first_line, lowercase, push_range, string_of, take_first_line,
};

verus! {

/// A pending item and the file that holds it.
#[derive(Debug)]
pub struct InboxEntry {
    pub item: InboxItem,
    pub path: String,
}

/// The inbox of a store.
#[derive(Debug)]
pub struct Inbox {
    store: BrainStore,
}

/// What staging an item does: the directory to make, and the file to write
/// there.
#[derive(Debug)]
pub struct Staged {
    pub directory: String,
    pub path: String,
    pub content: String,
}

/// What reading a file of the inbox gave: the item that it holds, or why it
/// holds none.
#[derive(Debug)]
pub struct Reading {
    pub path: String,
    pub item: Result<InboxItem, NuggetError>,
}

/// A file of the inbox that a listing passes over, and why.
#[derive(Debug)]
pub struct Skipped {
    pub path: String,
    pub reason: String,
}

/// A listing of the inbox: the pending items, the oldest first, and the files
/// that were passed over.
#[derive(Debug)]
pub struct Listing {
    pub entries: Vec<InboxEntry>,
    pub skipped: Vec<Skipped>,
}

/// What accepting a pending item does: the directory to make, the file to
/// write there and the unit it holds, and the pending file to remove after
/// that.
#[derive(Debug)]
pub struct Accepted {
    pub directory: String,
    pub destination: String,
    pub unit: KnowledgeUnit,
    pub pending: String,
}

/// What rejecting a pending item does: the pending file to remove, and the
/// index under which the item was listed.
#[derive(Debug)]
pub struct Rejected {
    pub index: usize,
    pub path: String,
}

/// What an `Accepted` holds.
pub struct AcceptedView {
    pub directory: Seq<char>,
    pub destination: Seq<char>,
    pub unit: KnowledgeUnitView,
    pub pending: Seq<char>,
}

impl View for Accepted {
    type V = AcceptedView;

    open spec fn view(&self) -> AcceptedView {
        AcceptedView {
            directory: self.directory@,
            destination: self.destination@,
            unit: self.unit@,
            pending: self.pending@,
        }
    }
}

/// The format of the time in the name of a pending file and in the name that
/// stands in for an empty slug: year, month, day, a hyphen, hour, minute,
/// second.
pub const STAMP_PATTERN: &'static str = "%Y%m%d-%H%M%S";

/// The number of characters of the identifier in the name of a pending file.
pub const ID_PREFIX_LENGTH: usize = 8;

/// The number of characters of the first line of a body that a slug is made
/// from.
pub const SLUG_SOURCE_LENGTH: usize = 60;

/// The first `n` characters of `s`, or all of `s` where it is shorter.
pub open spec fn head(s: Seq<char>, n: nat) -> Seq<char> {
    if s.len() <= n {
        s
    } else {
        s.take(n as int)
    }
}

/// The time `at`, written under `STAMP_PATTERN`.
pub open spec fn stamp(at: Timestamp) -> Option<Seq<char>> {
    formatted_time(at.seconds as int, at.nanos as int, STAMP_PATTERN@)
}

/// The name of the file that holds the pending item `item`: the time of its
/// capture, a hyphen, the first 8 characters of its identifier, and `.md`.
/// `None` where the time cannot be written.
pub open spec fn entry_name(item: InboxItemView) -> Option<Seq<char>> {
    match stamp(item.captured_at) {
        Some(label) => Some(label + seq!['-'] + head(item.id, ID_PREFIX_LENGTH as nat) + ".md"@),
        None => None,
    }
}

/// The slug of `s`: its words, which are its maximal runs of letters and
/// numbers, with one hyphen between two words.
pub open spec fn slug_of(s: Seq<char>) -> Seq<char>
    decreases s.len(),
{
    if s.len() == 0 {
        Seq::empty()
    } else {
        let before = slug_of(s.drop_last());
        let c = s.last();
        if !alphanumeric(c) {
            before
        } else if before.len() > 0 && !alphanumeric(s[s.len() - 2]) {
            before.push('-').push(c)
        } else {
            before.push(c)
        }
    }
}

/// The slug of the body `body`: that of the first 60 characters of its first
/// line, in lower case.
pub open spec fn body_slug(body: Seq<char>) -> Seq<char> {
    slug_of(lowercase(head(first_line(body), SLUG_SOURCE_LENGTH as nat)))
}

/// The name that stands in for an empty slug: `item-` and the time, as far
/// as it can be written.
pub open spec fn stand_in(label: Option<Seq<char>>) -> Seq<char> {
    match label {
        Some(l) => "item-"@ + l,
        None => "item-"@,
    }
}

/// The name under which the body `body` is filed at the time `at`: its slug,
/// or the stand-in where the slug is empty.
pub open spec fn file_stem(body: Seq<char>, at: Timestamp) -> Seq<char> {
    if body_slug(body).len() > 0 {
        body_slug(body)
    } else {
        stand_in(stamp(at))
    }
}

/// What accepting `entry` at the time `at` does, in a store rooted at `root`.
pub open spec fn acceptance(root: Seq<char>, entry: InboxEntry, at: Timestamp) -> AcceptedView {
    let directory = joined(root, entry.item@.suggested_domain);
    AcceptedView {
        directory,
        destination: joined(directory, file_stem(entry.item@.body, at) + ".md"@),
        unit: entry.item@.filed(entry.item@.suggested_domain),
        pending: entry.path@,
    }
}

/// Whether `index` names one of `count` pending items, which are counted
/// from 1.
pub open spec fn in_range(index: usize, count: nat) -> bool {
    1 <= index <= count
}

/// The first position of `indices` whose index names none of `count` pending
/// items, if there is one.
pub open spec fn first_out_of_range(indices: Seq<usize>, count: nat, from: int) -> Option<int>
    decreases indices.len() - from,
{
    if from < 0 || from >= indices.len() {
        None
    } else if !in_range(indices[from], count) {
        Some(from)
    } else {
        first_out_of_range(indices, count, from + 1)
    }
}

/// The first position of `indices` whose index stands at an earlier position
/// too, if there is one.
pub open spec fn first_repeat(indices: Seq<usize>, from: int) -> Option<int>
    decreases indices.len() - from,
{
    if from < 0 || from >= indices.len() {
        None
    } else if indices.take(from).contains(indices[from]) {
        Some(from)
    } else {
        first_repeat(indices, from + 1)
    }
}

/// The pending items that the readings `readings` gave, in their order:
/// those of the files of the extension `md` that hold an item.
pub open spec fn readable(readings: Seq<Reading>) -> Seq<InboxEntry>
    decreases readings.len(),
{
    if readings.len() == 0 {
        Seq::empty()
    } else {
        let rest = readable(readings.drop_first());
        let first = readings[0];
        if has_extension(first.path@, "md"@) && first.item is Ok {
            rest.insert(0, InboxEntry { item: first.item->Ok_0, path: first.path })
        } else {
            rest
        }
    }
}

/// The files of the extension `md` among `readings` that hold no item, in
/// their order, each with the message of the error that says why.
pub open spec fn unreadable(readings: Seq<Reading>) -> Seq<(Seq<char>, Seq<char>)>
    decreases readings.len(),
{
    if readings.len() == 0 {
        Seq::empty()
    } else {
        let rest = unreadable(readings.drop_first());
        let first = readings[0];
        if has_extension(first.path@, "md"@) && first.item is Err {
            rest.insert(0, (first.path@, crate::error::message_of(first.item->Err_0@)))
        } else {
            rest
        }
    }
}

/// The paths and the reasons of a list of files that were passed over.
pub open spec fn skipped_views(v: Seq<Skipped>) -> Seq<(Seq<char>, Seq<char>)> {
    v.map_values(|s: Skipped| (s.path@, s.reason@))
}

/// Whether `a` comes before `b` in a listing: it was captured earlier.
pub open spec fn earlier(a: InboxEntry, b: InboxEntry) -> bool {
    a.item.captured_at.before(b.item.captured_at)
}

/// The number of entries at the start of `sorted` that were captured earlier
/// than `e`, counted from `from`.
pub open spec fn place_of(e: InboxEntry, sorted: Seq<InboxEntry>, from: int) -> int
    decreases sorted.len() - from,
{
    if from < 0 || from >= sorted.len() {
        sorted.len() as int
    } else if !earlier(sorted[from], e) {
        from
    } else {
        place_of(e, sorted, from + 1)
    }
}

/// The listing of `entries`: the oldest first, and entries captured at the
/// same time in the order in which they stand in `entries`.
pub open spec fn ordered(entries: Seq<InboxEntry>) -> Seq<InboxEntry>
    decreases entries.len(),
{
    if entries.len() == 0 {
        Seq::empty()
    } else {
        let rest = ordered(entries.drop_first());
        rest.insert(place_of(entries[0], rest, 0), entries[0])
    }
}

/// Whether no entry of `s` stands before one that was captured earlier.
pub open spec fn oldest_first(s: Seq<InboxEntry>) -> bool {
    forall|i: int, j: int| 0 <= i < j < s.len() ==> !earlier(#[trigger] s[j], #[trigger] s[i])
}

/// `place_of` stays within the listing; the entries before it were captured
/// earlier than `e`, and the entry at it was not.
pub proof fn lemma_place_of(e: InboxEntry, sorted: Seq<InboxEntry>, from: int)
    requires
        0 <= from <= sorted.len(),
    ensures
        from <= place_of(e, sorted, from) <= sorted.len(),
        forall|k: int| from <= k < place_of(e, sorted, from) ==> earlier(#[trigger] sorted[k], e),
        place_of(e, sorted, from) < sorted.len() ==> !earlier(
            sorted[place_of(e, sorted, from)],
            e,
        ),
    decreases sorted.len() - from,
{
    if from < sorted.len() && earlier(sorted[from], e) {
        lemma_place_of(e, sorted, from + 1);
    }
}

/// A listing holds the entries it was made from, each as often as it was
/// given, and holds them oldest first.
pub proof fn law_listing_is_oldest_first(entries: Seq<InboxEntry>)
    ensures
        ordered(entries).to_multiset() == entries.to_multiset(),
        ordered(entries).len() == entries.len(),
        oldest_first(ordered(entries)),
    decreases entries.len(),
{
    broadcast use vstd::seq_lib::group_to_multiset_ensures;

    if entries.len() == 0 {
        assert(ordered(entries).to_multiset() =~= entries.to_multiset());
    } else {
        let e = entries[0];
        let tail = entries.drop_first();
        law_listing_is_oldest_first(tail);
        let rest = ordered(tail);
        let p = place_of(e, rest, 0);
        lemma_place_of(e, rest, 0);
        let out = rest.insert(p, e);
        vstd::seq_lib::to_multiset_insert(rest, p, e);
        assert(entries =~= seq![e] + tail);
        assert(entries.to_multiset() =~= tail.to_multiset().insert(e)) by {
            vstd::seq_lib::to_multiset_insert(tail, 0, e);
            assert(tail.insert(0, e) =~= entries);
        }
        assert(oldest_first(out)) by {
            assert forall|i: int, j: int| 0 <= i < j < out.len() implies !earlier(
                #[trigger] out[j],
                #[trigger] out[i],
            ) by {
                if i == p {
                    // out[j] stands at or after the first entry that is not
                    // earlier than `e`.
                    assert(out[j] == rest[j - 1]);
                    if j - 1 > p {
                        assert(!earlier(rest[j - 1], rest[p]));
                    }
                } else if j == p {
                    assert(out[i] == rest[i]);
                    assert(earlier(rest[i], e));
                } else {
                    let a = if i < p {
                        i
                    } else {
                        i - 1
                    };
                    let b = if j < p {
                        j
                    } else {
                        j - 1
                    };
                    assert(out[i] == rest[a]);
                    assert(out[j] == rest[b]);
                    assert(!earlier(rest[b], rest[a]));
                }
            }
        }
    }
}

/// Whether no two entries of `s` were captured at the same time.
pub open spec fn distinct_times(s: Seq<InboxEntry>) -> bool {
    forall|i: int, j: int|
        0 <= i < s.len() && 0 <= j < s.len() && i != j ==> (#[trigger] s[i]).item.captured_at != (
        #[trigger] s[j]).item.captured_at
}

/// Entries captured at distinct times stay so when they are given in another
/// order.
proof fn lemma_distinct_times_carry_over(a: Seq<InboxEntry>, x: Seq<InboxEntry>)
    requires
        distinct_times(a),
        a.to_multiset() == x.to_multiset(),
    ensures
        distinct_times(x),
{
    broadcast use vstd::seq_lib::group_to_multiset_ensures;

    assert(a.no_duplicates());
    a.lemma_multiset_has_no_duplicates();
    x.lemma_multiset_has_no_duplicates_conv();
    assert forall|i: int, j: int| 0 <= i < x.len() && 0 <= j < x.len() && i != j implies (
    #[trigger] x[i]).item.captured_at != (#[trigger] x[j]).item.captured_at by {
        assert(x.contains(x[i]));
        assert(x.contains(x[j]));
        assert(a.to_multiset().count(x[i]) > 0);
        assert(a.to_multiset().count(x[j]) > 0);
        assert(a.contains(x[i]));
        assert(a.contains(x[j]));
        let m = choose|m: int| 0 <= m < a.len() && a[m] == x[i];
        let n = choose|n: int| 0 <= n < a.len() && a[n] == x[j];
        assert(x[i] != x[j]);
        assert(m != n);
    }
}

/// Two listings of the same entries, captured at distinct times, end with
/// the same entry.
proof fn lemma_listings_end_alike(x: Seq<InboxEntry>, y: Seq<InboxEntry>)
    requires
        x.len() > 0,
        x.to_multiset() == y.to_multiset(),
        oldest_first(x),
        oldest_first(y),
        distinct_times(x),
        distinct_times(y),
    ensures
        y.len() == x.len(),
        x.last() == y.last(),
{
    broadcast use vstd::seq_lib::group_to_multiset_ensures;

    vstd::seq_lib::to_multiset_len(x);
    vstd::seq_lib::to_multiset_len(y);
    assert(x.len() == y.len());
    assert(x.contains(x.last()));
    assert(y.contains(y.last()));
    assert(y.to_multiset().count(x.last()) > 0);
    assert(x.to_multiset().count(y.last()) > 0);
    assert(y.contains(x.last()));
    assert(x.contains(y.last()));
    let j = choose|j: int| 0 <= j < y.len() && y[j] == x.last();
    let i = choose|i: int| 0 <= i < x.len() && x[i] == y.last();
    if j < y.len() - 1 {
        assert(!earlier(y[y.len() - 1], y[j]));
        if i < x.len() - 1 {
            assert(!earlier(x[x.len() - 1], x[i]));
            assert(y[y.len() - 1].item.captured_at == y[j].item.captured_at);
        }
    }
}

/// Two listings of the same entries, captured at distinct times, are the
/// same.
proof fn lemma_listing_is_unique(x: Seq<InboxEntry>, y: Seq<InboxEntry>)
    requires
        x.to_multiset() == y.to_multiset(),
        oldest_first(x),
        oldest_first(y),
        distinct_times(x),
        distinct_times(y),
    ensures
        x == y,
    decreases x.len(),
{
    broadcast use vstd::seq_lib::group_to_multiset_ensures;

    vstd::seq_lib::to_multiset_len(x);
    vstd::seq_lib::to_multiset_len(y);
    assert(x.len() == y.len());
    if x.len() == 0 {
        assert(x =~= y);
    } else {
        lemma_listings_end_alike(x, y);
        let x0 = x.drop_last();
        let y0 = y.drop_last();
        assert(x.remove(x.len() - 1) =~= x0);
        assert(y.remove(y.len() - 1) =~= y0);
        vstd::seq_lib::to_multiset_remove(x, x.len() - 1);
        vstd::seq_lib::to_multiset_remove(y, y.len() - 1);
        assert(x0.to_multiset() == y0.to_multiset());
        assert(oldest_first(x0)) by {
            assert forall|i: int, j: int| 0 <= i < j < x0.len() implies !earlier(
                #[trigger] x0[j],
                #[trigger] x0[i],
            ) by {
                assert(x0[i] == x[i] && x0[j] == x[j]);
            }
        }
        assert(oldest_first(y0)) by {
            assert forall|i: int, j: int| 0 <= i < j < y0.len() implies !earlier(
                #[trigger] y0[j],
                #[trigger] y0[i],
            ) by {
                assert(y0[i] == y[i] && y0[j] == y[j]);
            }
        }
        assert(distinct_times(x0)) by {
            assert forall|i: int, j: int|
                0 <= i < x0.len() && 0 <= j < x0.len() && i != j implies (
            #[trigger] x0[i]).item.captured_at != (#[trigger] x0[j]).item.captured_at by {
                assert(x0[i] == x[i] && x0[j] == x[j]);
            }
        }
        assert(distinct_times(y0)) by {
            assert forall|i: int, j: int|
                0 <= i < y0.len() && 0 <= j < y0.len() && i != j implies (
            #[trigger] y0[i]).item.captured_at != (#[trigger] y0[j]).item.captured_at by {
                assert(y0[i] == y[i] && y0[j] == y[j]);
            }
        }
        lemma_listing_is_unique(x0, y0);
        assert(x =~= x0.push(x.last()));
        assert(y =~= y0.push(y.last()));
    }
}

/// The listing does not depend on the order in which the entries are given:
/// for entries of which no two were captured at the same time.
pub proof fn law_listing_ignores_given_order(a: Seq<InboxEntry>, b: Seq<InboxEntry>)
    requires
        a.to_multiset() == b.to_multiset(),
        distinct_times(a),
    ensures
        ordered(a) == ordered(b),
{
    law_listing_is_oldest_first(a);
    law_listing_is_oldest_first(b);
    lemma_distinct_times_carry_over(a, ordered(a));
    lemma_distinct_times_carry_over(a, ordered(b));
    lemma_listing_is_unique(ordered(a), ordered(b));
}

/// The highest of `indices`, or 0 where there are none.
pub open spec fn highest(indices: Seq<usize>) -> usize
    decreases indices.len(),
{
    if indices.len() == 0 {
        0
    } else if indices.last() > highest(indices.drop_last()) {
        indices.last()
    } else {
        highest(indices.drop_last())
    }
}

/// Why a batch of indices to reject among `count` pending items is turned
/// away: because one of them names no pending item. The index that the error
/// names is the highest of the batch where that is greater than the number of
/// pending items, and 0 else. `None` where every index names a pending item.
pub open spec fn rejection_fault(indices: Seq<usize>, count: nat) -> Option<NuggetErrorView> {
    if first_out_of_range(indices, count, 0) is None {
        None
    } else if highest(indices) > count {
        Some(NuggetErrorView::IndexOutOfRange { index: highest(indices) as nat, count })
    } else {
        Some(NuggetErrorView::IndexOutOfRange { index: 0, count })
    }
}

/// The highest of a batch is one of its indices, and none is higher.
pub proof fn lemma_highest(indices: Seq<usize>)
    ensures
        forall|k: int| 0 <= k < indices.len() ==> #[trigger] indices[k] <= highest(indices),
        indices.len() > 0 ==> indices.contains(highest(indices)),
    decreases indices.len(),
{
    if indices.len() > 0 {
        let before = indices.drop_last();
        lemma_highest(before);
        assert forall|k: int| 0 <= k < indices.len() implies #[trigger] indices[k] <= highest(
            indices,
        ) by {
            if k < before.len() {
                assert(before[k] == indices[k]);
            }
        }
        if indices.last() > highest(before) {
            assert(indices[indices.len() - 1] == highest(indices));
        } else if before.len() > 0 {
            let m = choose|m: int| 0 <= m < before.len() && before[m] == highest(before);
            assert(indices[m] == highest(indices));
        } else {
            assert(indices[indices.len() - 1] == highest(indices));
        }
    }
}

/// An error that turns a batch to reject away names one of its indices, and
/// one that names no pending item.
pub proof fn law_rejection_names_a_bad_index(indices: Seq<usize>, count: nat)
    ensures
        rejection_fault(indices, count) matches Some(NuggetErrorView::IndexOutOfRange {
            index,
            count: c,
        }) ==> c == count && !(1 <= index <= count) && exists|k: int|
            0 <= k < indices.len() && #[trigger] indices[k] == index,
{
    lemma_first_out_of_range(indices, count, 0);
    lemma_highest(indices);
    if first_out_of_range(indices, count, 0) is Some {
        let bad = first_out_of_range(indices, count, 0)->Some_0;
        if highest(indices) > count {
            let m = choose|m: int| 0 <= m < indices.len() && indices[m] == highest(indices);
            assert(indices[m] == highest(indices));
        } else {
            assert(indices[bad] <= highest(indices));
            assert(indices[bad] == 0);
        }
    }
}

/// Why a batch of indices into `count` pending items is turned away: the
/// first index that names no pending item or, where every index names one,
/// the first index that is given a second time. `None` where the batch is in
/// order.
pub open spec fn batch_fault(indices: Seq<usize>, count: nat) -> Option<NuggetErrorView> {
    match first_out_of_range(indices, count, 0) {
        Some(k) => Some(NuggetErrorView::IndexOutOfRange { index: indices[k] as nat, count }),
        None => match first_repeat(indices, 0) {
            Some(k) => Some(NuggetErrorView::DuplicateIndex { index: indices[k] as nat }),
            None => None,
        },
    }
}

/// Whether `plans` holds, for each index of `indices` in turn, what
/// accepting the entry of that index at the time `at` does.
pub open spec fn accepts(
    plans: Seq<Accepted>,
    root: Seq<char>,
    entries: Seq<InboxEntry>,
    indices: Seq<usize>,
    at: Timestamp,
) -> bool {
    &&& plans.len() == indices.len()
    &&& forall|k: int|
        0 <= k < indices.len() ==> (#[trigger] plans[k])@ == acceptance(
            root,
            entries[indices[k] - 1],
            at,
        )
}

/// Whether `plan` names the index `x`.
pub open spec fn names(plan: Seq<Rejected>, x: usize) -> bool {
    exists|a: int| 0 <= a < plan.len() && (#[trigger] plan[a]).index == x
}

/// Whether `plan` removes the entries of `indices`, each once, the highest
/// index first.
pub open spec fn rejects(plan: Seq<Rejected>, entries: Seq<InboxEntry>, indices: Seq<usize>) -> bool {
    &&& forall|a: int, b: int|
        0 <= a < b < plan.len() ==> (#[trigger] plan[a]).index > (#[trigger] plan[b]).index
    &&& forall|x: usize| names(plan, x) <==> indices.contains(x)
    &&& forall|a: int|
        0 <= a < plan.len() ==> in_range((#[trigger] plan[a]).index, entries.len()) && plan[a].path@
            == entries[plan[a].index - 1].path@
}

/// `first_out_of_range` gives the least position at or after `from` whose
/// index names no pending item.
pub proof fn lemma_first_out_of_range(indices: Seq<usize>, count: nat, from: int)
    requires
        0 <= from,
    ensures
        match first_out_of_range(indices, count, from) {
            Some(k) => from <= k < indices.len() && !in_range(indices[k], count) && forall|j: int|
                from <= j < k ==> in_range(#[trigger] indices[j], count),
            None => forall|j: int| from <= j < indices.len() ==> in_range(#[trigger] indices[j], count),
        },
    decreases indices.len() - from,
{
    if from < indices.len() && in_range(indices[from], count) {
        lemma_first_out_of_range(indices, count, from + 1);
    }
}

/// `first_repeat` gives the least position at or after `from` whose index
/// stands at an earlier position too.
proof fn lemma_first_repeat(indices: Seq<usize>, from: int)
    requires
        0 <= from,
    ensures
        match first_repeat(indices, from) {
            Some(k) => from <= k < indices.len() && indices.take(k).contains(indices[k]),
            None => forall|j: int|
                from <= j < indices.len() ==> !indices.take(j).contains(#[trigger] indices[j]),
        },
    decreases indices.len() - from,
{
    if from < indices.len() && !indices.take(from).contains(indices[from]) {
        lemma_first_repeat(indices, from + 1);
    }
}

/// A batch is in order exactly when each of its indices names a pending item
/// and none is given twice. It is turned away as out of range exactly when
/// one of its indices is 0 or greater than the number of pending items,
/// whatever else it holds.
pub proof fn law_bad_batches_are_turned_away(indices: Seq<usize>, count: nat)
    ensures
        batch_fault(indices, count) is None <==> (forall|k: int|
            0 <= k < indices.len() ==> in_range(#[trigger] indices[k], count))
            && indices.no_duplicates(),
        (batch_fault(indices, count) matches Some(e) && e is IndexOutOfRange) <==> exists|k: int|
            0 <= k < indices.len() && !in_range(#[trigger] indices[k], count),
{
    lemma_first_out_of_range(indices, count, 0);
    lemma_first_repeat(indices, 0);
    match first_repeat(indices, 0) {
        Some(k) => {
            let m = choose|m: int|
                0 <= m < indices.take(k).len() && indices.take(k)[m] == indices[k];
            assert(indices[m] == indices[k] && m != k);
        },
        None => {
            assert forall|i: int, j: int|
                0 <= i < indices.len() && 0 <= j < indices.len() && i != j implies indices[i]
                != indices[j] by {
                if i < j {
                    assert(!indices.take(j).contains(indices[j]));
                    assert(indices.take(j)[i] == indices[i]);
                } else {
                    assert(!indices.take(i).contains(indices[i]));
                    assert(indices.take(i)[j] == indices[j]);
                }
            }
        },
    }
}

/// A plan names, after an insertion, what it named before and the index that
/// was inserted.
proof fn lemma_names_after_insert(plan: Seq<Rejected>, p: int, new: Rejected, x: usize)
    requires
        0 <= p <= plan.len(),
    ensures
        names(plan.insert(p, new), x) <==> (names(plan, x) || new.index == x),
{
    let next = plan.insert(p, new);
    if names(plan, x) {
        let a = choose|a: int| 0 <= a < plan.len() && (#[trigger] plan[a]).index == x;
        let b = if a < p {
            a
        } else {
            a + 1
        };
        assert(next[b] == plan[a]);
    }
    if new.index == x {
        assert(next[p] == new);
    }
    if names(next, x) {
        let b = choose|b: int| 0 <= b < next.len() && (#[trigger] next[b]).index == x;
        if b != p {
            let a = if b < p {
                b
            } else {
                b - 1
            };
            assert(next[b] == plan[a]);
        }
    }
}

/// Whether `path` can hold a pending item: it names a file of the extension
/// `md`.
pub fn is_inbox_file(path: &str) -> (r: bool)
    ensures
        r == has_extension(path@, "md"@),
{
    extension_is(path, "md")
}

/// The name of the file that holds the pending item `item`.
pub fn inbox_filename(item: &InboxItem) -> (r: Option<String>)
    ensures
        crate::model::text_of(r) == entry_name(item@),
{
    match format_time(item.captured_at, STAMP_PATTERN) {
        Some(label) => {
            let id = chars_of(item.id.as_str());
            let n: usize = if id.len() <= ID_PREFIX_LENGTH {
                id.len()
            } else {
                ID_PREFIX_LENGTH
            };
            let mut out: Vec<char> = chars_of(label.as_str());
            out.push('-');
            push_range(&mut out, &id, 0, n);
            let end = chars_of(".md");
            push_range(&mut out, &end, 0, end.len());
            proof {
                assert(id@.subrange(0, n as int) =~= head(id@, ID_PREFIX_LENGTH as nat));
                assert(end@.subrange(0, end@.len() as int) =~= end@);
                assert(out@ =~= label@ + seq!['-'] + head(id@, ID_PREFIX_LENGTH as nat) + ".md"@);
            }
            Some(string_of(&out))
        },
        None => None,
    }
}

/// The slug of `line`.
fn slug_chars(line: &Vec<char>) -> (r: Vec<char>)
    ensures
        r@ == slug_of(line@),
{
    let mut out: Vec<char> = Vec::new();
    let mut i: usize = 0;
    assert(line@.take(0) =~= Seq::empty());
    while i < line.len()
        invariant
            i <= line.len(),
            out@ == slug_of(line@.take(i as int)),
            out@.len() > 0 ==> i > 0,
        decreases line.len() - i,
    {
        let c: char = line[i];
        assert(line@.take(i + 1).drop_last() =~= line@.take(i as int));
        assert(line@.take(i + 1).last() == c);
        if c.is_alphanumeric() {
            if out.len() > 0 {
                assert(line@.take(i + 1)[i - 1] == line@[i - 1]);
                if !line[i - 1].is_alphanumeric() {
                    out.push('-');
                }
            }
            out.push(c);
        }
        i += 1;
    }
    assert(line@.take(line.len() as int) =~= line@);
    out
}

/// The slug of the body `body`.
fn slug_of_body(body: &str) -> (r: Vec<char>)
    ensures
        r@ == body_slug(body@),
{
    let v = chars_of(body);
    let line = take_first_line(&v);
    let n: usize = if line.len() <= SLUG_SOURCE_LENGTH {
        line.len()
    } else {
        SLUG_SOURCE_LENGTH
    };
    let source = crate::text::substring(&line, 0, n);
    assert(line@.subrange(0, n as int) =~= head(line@, SLUG_SOURCE_LENGTH as nat));
    let lowered = source.as_str().to_lowercase();
    let low = chars_of(lowered.as_str());
    slug_chars(&low)
}

/// The name under which `body` is filed at the time `at`.
pub fn slug_at(body: &str, at: Timestamp) -> (r: String)
    ensures
        r@ == file_stem(body@, at),
{
    let slug = slug_of_body(body);
    if slug.len() > 0 {
        string_of(&slug)
    } else {
        let mut r = String::from_str("item-");
        match format_time(at, STAMP_PATTERN) {
            Some(label) => {
                r.append(label.as_str());
            },
            None => {},
        }
        r
    }
}

/// The name under which `body` is filed now.
pub fn slug_from_body(body: &str) -> (r: String)
    ensures
        exists|at: Timestamp| r@ == file_stem(body@, at),
        body_slug(body@).len() > 0 ==> r@ == body_slug(body@),
{
    let at = now();
    let r = slug_at(body, at);
    assert(r@ == file_stem(body@, at));
    r
}

impl Inbox {
    /// The root directory of the store of this inbox.
    pub closed spec fn root(&self) -> Seq<char> {
        self.store.root@
    }

    /// The inbox of `store`.
    pub fn new(store: BrainStore) -> (r: Self)
        ensures
            r.root() == store.root@,
    {
        Inbox { store }
    }

    /// The directory of this inbox.
    pub fn directory(&self) -> (r: String)
        ensures
            r@ == joined(self.root(), "inbox"@),
    {
        self.store.inbox_path()
    }

    /// The file that staging `item` writes, whose encoded fields are
    /// `header`: it lies in the directory of the inbox, under the name of the
    /// item, and holds the header and the body of the item. `None` where the
    /// time of capture cannot be written.
    pub fn add(&self, item: &InboxItem, header: &str) -> (r: Option<Staged>)
        ensures
            match entry_name(item@) {
                Some(name) => r matches Some(file) && file.directory@ == joined(
                    self.root(),
                    "inbox"@,
                ) && file.path@ == joined(joined(self.root(), "inbox"@), name) && file.content@
                    == rendered(header@, item@.body),
                None => r is None,
            },
    {
        match inbox_filename(item) {
            Some(name) => {
                let directory = self.store.inbox_path();
                let path = join(directory.as_str(), name.as_str());
                Some(Staged { directory, path, content: render_file(header, item.body.as_str()) })
            },
            None => None,
        }
    }

    /// The listing of the inbox whose files were read with the outcomes
    /// `readings`: the items of the files of the extension `md` that hold
    /// one, the oldest first, and the other files of that extension, each with
    /// the reason why it holds none. No file keeps the others from being
    /// listed.
    pub fn list_readings(&self, readings: Vec<Reading>) -> (r: Listing)
        ensures
            r.entries@ == ordered(readable(readings@)),
            skipped_views(r.skipped@) == unreadable(readings@),
    {
        let mut stack = readings;
        let mut kept: Vec<InboxEntry> = Vec::new();
        let mut skipped: Vec<Skipped> = Vec::new();
        let ghost total = readings@.len();
        assert(readings@.skip(total as int) =~= Seq::empty());
        assert(skipped_views(skipped@) =~= Seq::empty());
        while stack.len() > 0
            invariant
                stack@.len() <= total,
                total == readings@.len(),
                stack@ == readings@.take(stack@.len() as int),
                kept@ == readable(readings@.skip(stack@.len() as int)),
                skipped_views(skipped@) == unreadable(readings@.skip(stack@.len() as int)),
            decreases stack.len(),
        {
            let ghost k = stack@.len() - 1;
            let reading = stack.pop().unwrap();
            assert(reading == readings@[k]);
            assert(stack@ =~= readings@.take(k));
            assert(readings@.skip(k).drop_first() =~= readings@.skip(k + 1));
            assert(readings@.skip(k)[0] == reading);
            if is_inbox_file(reading.path.as_str()) {
                match reading.item {
                    Ok(item) => {
                        kept.insert(0, InboxEntry { item, path: reading.path });
                    },
                    Err(e) => {
                        let ghost before = skipped_views(skipped@);
                        let reason = e.to_string();
                        skipped.insert(0, Skipped { path: reading.path, reason });
                        assert(skipped_views(skipped@) =~= before.insert(
                            0,
                            (reading.path@, crate::error::message_of(e@)),
                        ));
                    },
                }
            }
        }
        assert(readings@.skip(0) =~= readings@);
        Listing { entries: self.list(kept), skipped }
    }

    /// The listing of the pending items `entries`: the oldest first.
    pub fn list(&self, entries: Vec<InboxEntry>) -> (r: Vec<InboxEntry>)
        ensures
            r@ == ordered(entries@),
    {
        let mut rest = entries;
        let mut out: Vec<InboxEntry> = Vec::new();
        assert(entries@.skip(entries@.len() as int) =~= Seq::empty());
        while rest.len() > 0
            invariant
                rest@ == entries@.take(rest@.len() as int),
                rest@.len() <= entries@.len(),
                out@ == ordered(entries@.skip(rest@.len() as int)),
            decreases rest.len(),
        {
            let ghost k = rest@.len() - 1;
            let e = rest.pop().unwrap();
            assert(e == entries@[k]);
            assert(rest@ =~= entries@.take(k));
            let ghost tail = entries@.skip(k + 1);
            assert(entries@.skip(k).drop_first() =~= tail);
            assert(entries@.skip(k)[0] == e);
            let mut p: usize = 0;
            while p < out.len() && out[p].item.captured_at.is_before(&e.item.captured_at)
                invariant
                    p <= out.len(),
                    place_of(e, out@, 0) == place_of(e, out@, p as int),
                decreases out.len() - p,
            {
                p += 1;
            }
            out.insert(p, e);
        }
        assert(entries@.skip(0) =~= entries@);
        out
    }

    /// What accepting `entry` at the time `at` does.
    pub fn accept_at(&self, entry: &InboxEntry, at: Timestamp) -> (r: Accepted)
        ensures
            r@ == acceptance(self.root(), *entry, at),
    {
        let domain = entry.item.suggested_domain.clone();
        let directory = join(self.store.root.as_str(), domain.0.as_str());
        let mut name = slug_at(entry.item.body.as_str(), at);
        name.append(".md");
        let destination = join(directory.as_str(), name.as_str());
        let unit = entry.item.clone().into_knowledge_unit(domain);
        Accepted { directory, destination, unit, pending: entry.path.clone() }
    }

    /// What accepting `entry` now does.
    pub fn accept(&self, entry: &InboxEntry) -> (r: Accepted)
        ensures
            exists|at: Timestamp| r@ == acceptance(self.root(), *entry, at),
    {
        let at = now();
        let r = self.accept_at(entry, at);
        assert(r@ == acceptance(self.root(), *entry, at));
        r
    }

    /// What rejecting `entry` does: the pending file to remove.
    pub fn reject(&self, entry: &InboxEntry) -> (r: String)
        ensures
            r@ == entry.path@,
    {
        entry.path.clone()
    }

    /// The highest of `indices`.
    fn highest_of(indices: &[usize]) -> (r: usize)
        ensures
            r == highest(indices@),
    {
        let mut top: usize = 0;
        let mut k: usize = 0;
        assert(indices@.take(0) =~= Seq::empty());
        while k < indices.len()
            invariant
                k <= indices.len(),
                top == highest(indices@.take(k as int)),
            decreases indices.len() - k,
        {
            assert(indices@.take(k + 1).drop_last() =~= indices@.take(k as int));
            if indices[k] > top {
                top = indices[k];
            }
            k += 1;
        }
        assert(indices@.take(indices.len() as int) =~= indices@);
        top
    }

    /// Why the batch `indices` into `count` pending items is turned away, if
    /// it is.
    fn check_batch(indices: &[usize], count: usize, once: bool) -> (r: Option<NuggetError>)
        ensures
            once ==> crate::error::error_of(r) == batch_fault(indices@, count as nat),
            !once ==> crate::error::error_of(r) == match first_out_of_range(
                indices@,
                count as nat,
                0,
            ) {
                Some(k) => Some(
                    NuggetErrorView::IndexOutOfRange {
                        index: indices@[k] as nat,
                        count: count as nat,
                    },
                ),
                None => None,
            },
    {
        let mut k: usize = 0;
        while k < indices.len()
            invariant
                k <= indices.len(),
                first_out_of_range(indices@, count as nat, 0) == first_out_of_range(
                    indices@,
                    count as nat,
                    k as int,
                ),
            decreases indices.len() - k,
        {
            let index: usize = indices[k];
            if index == 0 || index > count {
                return Some(NuggetError::IndexOutOfRange { index, count });
            }
            k += 1;
        }
        if !once {
            return None;
        }
        let mut k: usize = 0;
        while k < indices.len()
            invariant
                k <= indices.len(),
                once,
                first_out_of_range(indices@, count as nat, 0) is None,
                first_repeat(indices@, 0) == first_repeat(indices@, k as int),
            decreases indices.len() - k,
        {
            let index: usize = indices[k];
            let mut j: usize = 0;
            while j < k
                invariant
                    j <= k < indices.len(),
                    once,
                    first_out_of_range(indices@, count as nat, 0) is None,
                    first_repeat(indices@, 0) == first_repeat(indices@, k as int),
                    index == indices@[k as int],
                    forall|m: int| 0 <= m < j ==> indices@[m] != index,
                decreases k - j,
            {
                if indices[j] == index {
                    assert(indices@.take(k as int)[j as int] == index);
                    return Some(NuggetError::DuplicateIndex { index });
                }
                j += 1;
            }
            assert(!indices@.take(k as int).contains(index));
            k += 1;
        }
        None
    }

    /// What accepting, at the time `at`, the entries of `entries` that
    /// `indices` name does: one acceptance for each index, in the order of
    /// `indices`. The entries are counted from 1. Nothing is accepted where
    /// an index names no entry or is given twice.
    pub fn accept_by_indices_at(&self, entries: &[InboxEntry], indices: &[usize], at: Timestamp) -> (r:
        Result<Vec<Accepted>, NuggetError>)
        ensures
            match batch_fault(indices@, entries@.len()) {
                Some(fault) => r matches Err(e) && e@ == fault,
                None => r matches Ok(plans) && accepts(
                    plans@,
                    self.root(),
                    entries@,
                    indices@,
                    at,
                ),
            },
    {
        match Inbox::check_batch(indices, entries.len(), true) {
            Some(e) => {
                return Err(e);
            },
            None => {},
        }
        proof {
            lemma_first_out_of_range(indices@, entries@.len(), 0);
        }
        let mut plans: Vec<Accepted> = Vec::new();
        let mut k: usize = 0;
        while k < indices.len()
            invariant
                k <= indices.len(),
                plans@.len() == k,
                forall|j: int| 0 <= j < indices.len() ==> in_range(#[trigger] indices@[j], entries@.len()),
                forall|j: int|
                    0 <= j < k ==> (#[trigger] plans@[j])@ == acceptance(
                        self.root(),
                        entries@[indices@[j] - 1],
                        at,
                    ),
            decreases indices.len() - k,
        {
            let index: usize = indices[k];
            assert(in_range(indices@[k as int], entries@.len()));
            let plan = self.accept_at(&entries[index - 1], at);
            plans.push(plan);
            k += 1;
        }
        Ok(plans)
    }

    /// What accepting now the entries of `entries` that `indices` name does.
    pub fn accept_by_indices(&self, entries: &[InboxEntry], indices: &[usize]) -> (r: Result<
        Vec<Accepted>,
        NuggetError,
    >)
        ensures
            match batch_fault(indices@, entries@.len()) {
                Some(fault) => r matches Err(e) && e@ == fault,
                None => r matches Ok(plans) && exists|at: Timestamp|
                    accepts(plans@, self.root(), entries@, indices@, at),
            },
    {
        let at = now();
        let r = self.accept_by_indices_at(entries, indices, at);
        proof {
            if r is Ok {
                assert(accepts(r->Ok_0@, self.root(), entries@, indices@, at));
            }
        }
        r
    }

    /// What rejecting the entries of `entries` that `indices` name does: one
    /// removal for each entry named, the highest index first, however often
    /// and in whatever order the indices are given. The entries are counted
    /// from 1. Nothing is rejected where an index names no entry: the error
    /// then names the highest index of the batch, or 0 where only that is at
    /// fault.
    pub fn reject_by_indices(&self, entries: &[InboxEntry], indices: &[usize]) -> (r: Result<
        Vec<Rejected>,
        NuggetError,
    >)
        ensures
            match rejection_fault(indices@, entries@.len()) {
                Some(fault) => r matches Err(e) && e@ == fault,
                None => r matches Ok(plan) && rejects(plan@, entries@, indices@),
            },
    {
        match Inbox::check_batch(indices, entries.len(), false) {
            Some(_) => {
                let top: usize = Inbox::highest_of(indices);
                let index: usize = if top > entries.len() {
                    top
                } else {
                    0
                };
                return Err(NuggetError::IndexOutOfRange { index, count: entries.len() });
            },
            None => {},
        }
        proof {
            lemma_first_out_of_range(indices@, entries@.len(), 0);
        }
        let mut plan: Vec<Rejected> = Vec::new();
        let mut k: usize = 0;
        assert(indices@.take(0) =~= Seq::empty());
        while k < indices.len()
            invariant
                k <= indices.len(),
                forall|j: int| 0 <= j < indices.len() ==> in_range(#[trigger] indices@[j], entries@.len()),
                rejects(plan@, entries@, indices@.take(k as int)),
            decreases indices.len() - k,
        {
            let index: usize = indices[k];
            assert(in_range(indices@[k as int], entries@.len()));
            let ghost before = plan@;
            let ghost seen = indices@.take(k as int);
            let mut p: usize = 0;
            while p < plan.len() && plan[p].index > index
                invariant
                    p <= plan.len(),
                    forall|a: int| 0 <= a < p ==> (#[trigger] plan@[a]).index > index,
                decreases plan.len() - p,
            {
                p += 1;
            }
            assert(indices@.take(k + 1) =~= seen.push(index));
            if p < plan.len() && plan[p].index == index {
                proof {
                    assert(names(before, index));
                    assert forall|x: usize| names(before, x) <==> seen.push(index).contains(
                        x,
                    ) by {
                        if seen.push(index).contains(x) {
                            let m = choose|m: int|
                                0 <= m < seen.push(index).len() && seen.push(index)[m] == x;
                            if m < seen.len() {
                                assert(seen[m] == x);
                            }
                        }
                        if seen.contains(x) {
                            let m = choose|m: int| 0 <= m < seen.len() && seen[m] == x;
                            assert(seen.push(index)[m] == x);
                        }
                    }
                }
            } else {
                let new = Rejected { index, path: entries[index - 1].path.clone() };
                plan.insert(p, new);
                proof {
                    assert forall|x: usize| names(plan@, x) <==> seen.push(index).contains(
                        x,
                    ) by {
                        lemma_names_after_insert(before, p as int, new, x);
                        if seen.push(index).contains(x) {
                            let m = choose|m: int|
                                0 <= m < seen.push(index).len() && seen.push(index)[m] == x;
                            if m < seen.len() {
                                assert(seen[m] == x);
                            }
                        }
                        if seen.contains(x) {
                            let m = choose|m: int| 0 <= m < seen.len() && seen[m] == x;
                            assert(seen.push(index)[m] == x);
                        }
                        if x == index {
                            assert(seen.push(index)[seen.len() as int] == x);
                        }
                    }
                    assert forall|a: int, b: int| 0 <= a < b < plan@.len() implies (
                    #[trigger] plan@[a]).index > (#[trigger] plan@[b]).index by {
                        let a0 = if a < p {
                            a
                        } else {
                            a - 1
                        };
                        let b0 = if b < p {
                            b
                        } else {
                            b - 1
                        };
                        if a != p {
                            assert(plan@[a] == before[a0]);
                        }
                        if b != p {
                            assert(plan@[b] == before[b0]);
                        }
                        if a == p {
                            // what follows the new removal has a lower index
                            if b - 1 > p {
                                assert(before[p as int].index > before[b - 1].index);
                            }
                        }
                    }
                    assert forall|a: int| 0 <= a < plan@.len() implies in_range(
                        (#[trigger] plan@[a]).index,
                        entries@.len(),
                    ) && plan@[a].path@ == entries@[plan@[a].index - 1].path@ by {
                        if a != p {
                            let a0 = if a < p {
                                a
                            } else {
                                a - 1
                            };
                            assert(plan@[a] == before[a0]);
                        }
                    }
                }
            }
            k += 1;
        }
        assert(indices@.take(indices.len() as int) =~= indices@);
        Ok(plan)
    }
}

} // verus!
