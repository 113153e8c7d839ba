//! The order of names and of paths, and lists arranged in it.

use vstd::prelude::*;

use crate::model::texts_of;
use crate::text::chars_of;

verus! {

/// The rank of `c` in the order of texts: its code point. In the order of
/// paths the `/` ranks before every other character, so that a path is
/// ordered component by component.
pub open spec fn rank(c: char, by_component: bool) -> int {
    if by_component && c == '/' {
        -1
    } else {
        (c as u32) as int
    }
}

/// Whether `a` stands before `b`: at the first index at which they differ
/// `a` has the character of lower rank, or `a` ends there and `b` does not.
pub open spec fn precedes(a: Seq<char>, b: Seq<char>, by_component: bool) -> bool
    decreases a.len(),
{
    if b.len() == 0 {
        false
    } else if a.len() == 0 {
        true
    } else if rank(a[0], by_component) != rank(b[0], by_component) {
        rank(a[0], by_component) < rank(b[0], by_component)
    } else {
        precedes(a.drop_first(), b.drop_first(), by_component)
    }
}

/// The number of texts at the start of `sorted`, counted from `from`, that
/// stand before `e`.
pub open spec fn slot_of(e: Seq<char>, sorted: Seq<Seq<char>>, from: int, by_component: bool) -> int
    decreases sorted.len() - from,
{
    if from < 0 || from >= sorted.len() {
        sorted.len() as int
    } else if !precedes(sorted[from], e, by_component) {
        from
    } else {
        slot_of(e, sorted, from + 1, by_component)
    }
}

/// `names` in order: each text stands before the first of the later texts
/// that does not stand before it.
pub open spec fn arranged(names: Seq<Seq<char>>, by_component: bool) -> Seq<Seq<char>>
    decreases names.len(),
{
    if names.len() == 0 {
        Seq::empty()
    } else {
        let rest = arranged(names.drop_first(), by_component);
        rest.insert(slot_of(names[0], rest, 0, by_component), names[0])
    }
}

/// Whether no text of `s` stands after one that it stands before.
pub open spec fn in_order(s: Seq<Seq<char>>, by_component: bool) -> bool {
    forall|i: int, j: int|
        0 <= i < j < s.len() ==> !precedes(#[trigger] s[j], #[trigger] s[i], by_component)
}

/// Where `c` does not stand before `b` and `b` does not stand before `a`,
/// `c` does not stand before `a`.
pub proof fn lemma_order_is_transitive(a: Seq<char>, b: Seq<char>, c: Seq<char>, by_component: bool)
    requires
        !precedes(b, a, by_component),
        !precedes(c, b, by_component),
    ensures
        !precedes(c, a, by_component),
    decreases a.len(),
{
    if a.len() > 0 && b.len() > 0 && c.len() > 0 {
        let ra = rank(a[0], by_component);
        let rb = rank(b[0], by_component);
        let rc = rank(c[0], by_component);
        if ra == rb && rb == rc {
            lemma_order_is_transitive(
                a.drop_first(),
                b.drop_first(),
                c.drop_first(),
                by_component,
            );
        }
    }
}

/// `slot_of` stays within the list; the texts before it stand before `e`,
/// and the text at it does not.
pub proof fn lemma_slot_of(e: Seq<char>, sorted: Seq<Seq<char>>, from: int, by_component: bool)
    requires
        0 <= from <= sorted.len(),
    ensures
        from <= slot_of(e, sorted, from, by_component) <= sorted.len(),
        forall|k: int|
            from <= k < slot_of(e, sorted, from, by_component) ==> precedes(
                #[trigger] sorted[k],
                e,
                by_component,
            ),
        slot_of(e, sorted, from, by_component) < sorted.len() ==> !precedes(
            sorted[slot_of(e, sorted, from, by_component)],
            e,
            by_component,
        ),
    decreases sorted.len() - from,
{
    if from < sorted.len() && precedes(sorted[from], e, by_component) {
        lemma_slot_of(e, sorted, from + 1, by_component);
    }
}

/// A text that stands before another does not stand after it.
pub proof fn lemma_order_is_one_way(a: Seq<char>, b: Seq<char>, by_component: bool)
    requires
        precedes(a, b, by_component),
    ensures
        !precedes(b, a, by_component),
    decreases a.len(),
{
    if a.len() > 0 && b.len() > 0 && rank(a[0], by_component) == rank(b[0], by_component) {
        lemma_order_is_one_way(a.drop_first(), b.drop_first(), by_component);
    }
}

/// An arranged list holds the texts it was made from, each as often as it
/// was given, and holds them in order.
pub proof fn law_arranged_is_in_order(names: Seq<Seq<char>>, by_component: bool)
    ensures
        arranged(names, by_component).to_multiset() == names.to_multiset(),
        arranged(names, by_component).len() == names.len(),
        in_order(arranged(names, by_component), by_component),
    decreases names.len(),
{
    broadcast use vstd::seq_lib::group_to_multiset_ensures;

    if names.len() == 0 {
        assert(arranged(names, by_component).to_multiset() =~= names.to_multiset());
    } else {
        let e = names[0];
        let tail = names.drop_first();
        law_arranged_is_in_order(tail, by_component);
        let rest = arranged(tail, by_component);
        let p = slot_of(e, rest, 0, by_component);
        lemma_slot_of(e, rest, 0, by_component);
        let out = rest.insert(p, e);
        vstd::seq_lib::to_multiset_insert(rest, p, e);
        assert(names.to_multiset() =~= tail.to_multiset().insert(e)) by {
            vstd::seq_lib::to_multiset_insert(tail, 0, e);
            assert(tail.insert(0, e) =~= names);
        }
        assert(in_order(out, by_component)) by {
            assert forall|i: int, j: int| 0 <= i < j < out.len() implies !precedes(
                #[trigger] out[j],
                #[trigger] out[i],
                by_component,
            ) by {
                if i == p {
                    assert(out[j] == rest[j - 1]);
                    if j - 1 > p {
                        assert(!precedes(rest[j - 1], rest[p], by_component));
                        lemma_order_is_transitive(e, rest[p], rest[j - 1], by_component);
                    }
                } else if j == p {
                    assert(out[i] == rest[i]);
                    assert(precedes(rest[i], e, by_component));
                    lemma_order_is_one_way(rest[i], e, by_component);
                } else {
                    let a = if i < p {
                        i
                    } else {
                        i - 1
                    };
                    let b = if j < p {
                        j
                    } else {
                        j - 1
                    };
                    assert(out[i] == rest[a]);
                    assert(out[j] == rest[b]);
                    assert(!precedes(rest[b], rest[a], by_component));
                }
            }
        }
    }
}

/// The rank of `c`.
pub fn rank_of(c: char, by_component: bool) -> (r: i64)
    ensures
        r == rank(c, by_component),
{
    if by_component && c == '/' {
        -1
    } else {
        let n: u32 = c as u32;
        n as i64
    }
}

/// Whether `a` stands before `b`.
pub fn stands_before(a: &Vec<char>, b: &Vec<char>, by_component: bool) -> (r: bool)
    ensures
        r == precedes(a@, b@, by_component),
{
    let mut i: usize = 0;
    assert(a@.skip(0) =~= a@);
    assert(b@.skip(0) =~= b@);
    loop
        invariant
            i <= a.len(),
            i <= b.len(),
            precedes(a@, b@, by_component) == precedes(a@.skip(i as int), b@.skip(i as int), by_component),
        decreases a.len() - i,
    {
        if i >= b.len() {
            return false;
        }
        if i >= a.len() {
            return true;
        }
        let x: char = a[i];
        let y: char = b[i];
        assert(a@.skip(i as int)[0] == x);
        assert(b@.skip(i as int)[0] == y);
        let rx: i64 = rank_of(x, by_component);
        let ry: i64 = rank_of(y, by_component);
        if rx != ry {
            return rx < ry;
        }
        assert(a@.skip(i as int).drop_first() =~= a@.skip(i + 1));
        assert(b@.skip(i as int).drop_first() =~= b@.skip(i + 1));
        i += 1;
    }
}

/// Whether `name` stands before `wanted`.
fn name_stands_before(name: &String, wanted: &Vec<char>, by_component: bool) -> (r: bool)
    ensures
        r == precedes(name@, wanted@, by_component),
{
    let have = chars_of(name.as_str());
    stands_before(&have, wanted, by_component)
}

/// `names` in order.
pub fn arrange(names: Vec<String>, by_component: bool) -> (r: Vec<String>)
    ensures
        texts_of(r@) == arranged(texts_of(names@), by_component),
{
    let ghost given = texts_of(names@);
    let mut rest = names;
    let mut out: Vec<String> = Vec::new();
    assert(given.skip(given.len() as int) =~= Seq::empty());
    assert(texts_of(out@) =~= Seq::empty());
    while rest.len() > 0
        invariant
            given == texts_of(names@),
            rest@.len() <= given.len(),
            texts_of(rest@) == given.take(rest@.len() as int),
            texts_of(out@) == arranged(given.skip(rest@.len() as int), by_component),
        decreases rest.len(),
    {
        let ghost k = rest@.len() - 1;
        let ghost before_rest = texts_of(rest@);
        let e = rest.pop().unwrap();
        assert(e@ == before_rest[k]);
        assert(texts_of(rest@) =~= given.take(k));
        let ghost tail = given.skip(k + 1);
        assert(given.skip(k).drop_first() =~= tail);
        assert(given.skip(k)[0] == e@);
        let wanted = chars_of(e.as_str());
        let ghost sorted = texts_of(out@);
        let mut p: usize = 0;
        while p < out.len() && name_stands_before(&out[p], &wanted, by_component)
            invariant
                p <= out.len(),
                wanted@ == e@,
                sorted == texts_of(out@),
                slot_of(e@, sorted, 0, by_component) == slot_of(e@, sorted, p as int, by_component),
            decreases out.len() - p,
        {
            assert(sorted[p as int] == out@[p as int]@);
            p += 1;
        }
        proof {
            if p < out.len() {
                assert(sorted[p as int] == out@[p as int]@);
            }
        }
        out.insert(p, e);
        assert(texts_of(out@) =~= sorted.insert(p as int, e@));
    }
    assert(given.skip(0) =~= given);
    out
}

} // verus!
