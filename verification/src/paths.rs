//! File paths as text, with `/` between their components.

use vstd::prelude::*;

use crate::text::{chars_of, matches_at, push_range, same_text, string_of};

verus! {

/// `child` under the directory `base`: `child` itself where it is absolute or
/// `base` is empty, else `base`, a `/` unless `base` ends with one, and
/// `child`.
pub open spec fn joined(base: Seq<char>, child: Seq<char>) -> Seq<char> {
    if child.len() > 0 && child[0] == '/' {
        child
    } else if base.len() == 0 {
        child
    } else if base.last() == '/' {
        base + child
    } else {
        base + seq!['/'] + child
    }
}

/// The components of `path`: the maximal runs of characters other than `/`.
pub open spec fn segments(path: Seq<char>) -> Seq<Seq<char>>
    decreases path.len(),
{
    if path.len() == 0 {
        Seq::empty()
    } else {
        let before = segments(path.drop_last());
        let c = path.last();
        if c == '/' {
            before
        } else if path.len() >= 2 && path[path.len() - 2] != '/' {
            before.update(before.len() - 1, before.last().push(c))
        } else {
            before.push(seq![c])
        }
    }
}

/// Whether `path` is absolute: it begins with `/`.
pub open spec fn is_absolute(path: Seq<char>) -> bool {
    path.len() > 0 && path[0] == '/'
}

/// Whether `a` is the beginning of `b`.
pub open spec fn leads<T>(a: Seq<T>, b: Seq<T>) -> bool {
    a.len() <= b.len() && b.take(a.len() as int) == a
}

/// Whether `path` lies at or under `root`: both are absolute or both are
/// not, and the components of `root` are the first components of `path`.
pub open spec fn lies_within(path: Seq<char>, root: Seq<char>) -> bool {
    is_absolute(path) == is_absolute(root) && leads(segments(root), segments(path))
}

/// The texts of a list of character vectors.
pub open spec fn views(v: Seq<Vec<char>>) -> Seq<Seq<char>> {
    v.map_values(|x: Vec<char>| x@)
}

/// The segments of a path that ends within a component are those before
/// that component, and that component.
proof fn lemma_segments_step(path: Seq<char>, done: Seq<Seq<char>>, cur: Seq<char>, c: char)
    requires
        path.len() > 0 ==> (cur.len() > 0 <==> path.last() != '/'),
        path.len() == 0 ==> cur.len() == 0,
        segments(path) == if cur.len() > 0 {
            done.push(cur)
        } else {
            done
        },
    ensures
        c == '/' ==> segments(path.push(c)) == if cur.len() > 0 {
            done.push(cur)
        } else {
            done
        },
        c != '/' ==> segments(path.push(c)) == done.push(cur.push(c)),
{
    let next = path.push(c);
    assert(next.drop_last() =~= path);
    assert(next.last() == c);
    if c != '/' {
        if cur.len() > 0 {
            assert(next[next.len() - 2] == path.last());
            assert(done.push(cur).update(done.len() as int, cur.push(c)) =~= done.push(
                cur.push(c),
            ));
        } else {
            assert(cur.push(c) =~= seq![c]);
        }
    }
}

/// `child` under the directory `base`.
pub fn join(base: &str, child: &str) -> (r: String)
    ensures
        r@ == joined(base@, child@),
{
    let b = chars_of(base);
    let c = chars_of(child);
    let mut out: Vec<char> = Vec::new();
    if c.len() > 0 && c[0] == '/' {
        push_range(&mut out, &c, 0, c.len());
        assert(out@ =~= c@);
    } else if b.len() == 0 {
        push_range(&mut out, &c, 0, c.len());
        assert(out@ =~= c@);
    } else {
        push_range(&mut out, &b, 0, b.len());
        if b[b.len() - 1] != '/' {
            out.push('/');
        }
        push_range(&mut out, &c, 0, c.len());
        assert(out@ =~= joined(b@, c@));
    }
    string_of(&out)
}

/// The components of `path`.
pub fn split_path(path: &Vec<char>) -> (r: Vec<Vec<char>>)
    ensures
        views(r@) == segments(path@),
{
    let mut done: Vec<Vec<char>> = Vec::new();
    let mut cur: Vec<char> = Vec::new();
    let mut i: usize = 0;
    assert(path@.take(0) =~= Seq::empty());
    assert(views(done@) =~= Seq::empty());
    while i < path.len()
        invariant
            i <= path.len(),
            i > 0 ==> (cur@.len() > 0 <==> path@[i - 1] != '/'),
            i == 0 ==> cur@.len() == 0,
            segments(path@.take(i as int)) == if cur@.len() > 0 {
                views(done@).push(cur@)
            } else {
                views(done@)
            },
        decreases path.len() - i,
    {
        let c: char = path[i];
        proof {
            lemma_segments_step(path@.take(i as int), views(done@), cur@, c);
            assert(path@.take(i as int).push(c) =~= path@.take(i + 1));
        }
        if c == '/' {
            if cur.len() > 0 {
                let ghost before = views(done@);
                let ghost piece = cur@;
                done.push(cur);
                assert(views(done@) =~= before.push(piece));
                cur = Vec::new();
            }
        } else {
            cur.push(c);
        }
        i += 1;
    }
    assert(path@.take(path.len() as int) =~= path@);
    if cur.len() > 0 {
        let ghost before = views(done@);
        let ghost piece = cur@;
        done.push(cur);
        assert(views(done@) =~= before.push(piece));
    }
    done
}

/// Whether the components `prefix` are the first of the first `limit`
/// components of `parts`.
pub fn leads_segments(prefix: &Vec<Vec<char>>, parts: &Vec<Vec<char>>, limit: usize) -> (r: bool)
    requires
        limit <= parts.len(),
    ensures
        r == leads(views(prefix@), views(parts@).take(limit as int)),
{
    if prefix.len() > limit {
        return false;
    }
    let ghost whole = views(parts@).take(limit as int);
    let mut n: usize = 0;
    while n < prefix.len()
        invariant
            n <= prefix.len() <= limit <= parts.len(),
            whole == views(parts@).take(limit as int),
            forall|m: int| 0 <= m < n ==> whole[m] == views(prefix@)[m],
        decreases prefix.len() - n,
    {
        assert(whole[n as int] == parts@[n as int]@);
        assert(views(prefix@)[n as int] == prefix@[n as int]@);
        if !same_text(&parts[n], &prefix[n]) {
            assert(whole.take(prefix.len() as int)[n as int] != views(prefix@)[n as int]);
            return false;
        }
        n += 1;
    }
    assert(whole.take(prefix.len() as int) =~= views(prefix@));
    true
}

/// Whether `path` lies at or under `root`.
pub fn path_within(path: &str, root: &str) -> (r: bool)
    ensures
        r == lies_within(path@, root@),
{
    let p = chars_of(path);
    let q = chars_of(root);
    let p_absolute: bool = p.len() > 0 && p[0] == '/';
    let q_absolute: bool = q.len() > 0 && q[0] == '/';
    if p_absolute != q_absolute {
        return false;
    }
    let ps = split_path(&p);
    let qs = split_path(&q);
    assert(views(ps@).take(ps.len() as int) =~= views(ps@));
    leads_segments(&qs, &ps, ps.len())
}

/// Whether the name of `path` ends with a dot and `ext`, after at least one
/// other character: whether `path` names a file of that extension.
pub open spec fn has_extension(path: Seq<char>, ext: Seq<char>) -> bool {
    let tail = seq!['.'] + ext;
    &&& segments(path).len() > 0
    &&& segments(path).last().len() > tail.len()
    &&& crate::text::has_suffix(segments(path).last(), tail)
}

/// Whether `path` names a file of the extension `ext`.
pub fn extension_is(path: &str, ext: &str) -> (r: bool)
    ensures
        r == has_extension(path@, ext@),
{
    let p = chars_of(path);
    let e = chars_of(ext);
    let parts = split_path(&p);
    if parts.len() == 0 {
        return false;
    }
    let name = &parts[parts.len() - 1];
    assert(views(parts@).last() == name@);
    let mut tail: Vec<char> = Vec::new();
    tail.push('.');
    push_range(&mut tail, &e, 0, e.len());
    assert(tail@ =~= seq!['.'] + e@);
    name.len() > tail.len() && matches_at(name, name.len() - tail.len(), &tail)
}

/// The index of the last dot in `name`, or -1 where it holds none.
pub open spec fn last_dot(name: Seq<char>) -> int
    decreases name.len(),
{
    if name.len() == 0 {
        -1
    } else if name.last() == '.' {
        name.len() - 1
    } else {
        last_dot(name.drop_last())
    }
}

/// The file name `name` without its extension: what stands before its last
/// dot, or all of it where it holds no dot but at its start.
pub open spec fn stem_of_name(name: Seq<char>) -> Seq<char> {
    if last_dot(name) <= 0 {
        name
    } else {
        name.take(last_dot(name))
    }
}

/// The name of the file `path` without its extension. `None` where `path` has
/// no components or ends with `..`.
pub open spec fn stem_of(path: Seq<char>) -> Option<Seq<char>> {
    if segments(path).len() == 0 || segments(path).last() == seq!['.', '.'] {
        None
    } else {
        Some(stem_of_name(segments(path).last()))
    }
}

/// The name of the file `path` without its extension.
pub fn file_stem(path: &str) -> (r: Option<String>)
    ensures
        crate::model::text_of(r) == stem_of(path@),
{
    let p = chars_of(path);
    let parts = split_path(&p);
    if parts.len() == 0 {
        return None;
    }
    let name = &parts[parts.len() - 1];
    assert(views(parts@).last() == name@);
    if name.len() == 2 && name[0] == '.' && name[1] == '.' {
        assert(name@ =~= seq!['.', '.']);
        return None;
    }
    let mut i: usize = name.len();
    assert(name@.take(name.len() as int) =~= name@);
    while i > 0 && name[i - 1] != '.'
        invariant
            i <= name.len(),
            last_dot(name@) == last_dot(name@.take(i as int)),
        decreases i,
    {
        assert(name@.take(i as int).drop_last() =~= name@.take(i - 1));
        i -= 1;
    }
    if i <= 1 {
        Some(string_of(name))
    } else {
        assert(name@.subrange(0, i - 1) =~= name@.take(i - 1));
        Some(crate::text::substring(name, 0, i - 1))
    }
}

} // verus!
