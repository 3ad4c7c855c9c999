//! Paths as sequences of plain name components.
//!
//! A path is modelled as a `Vec<String>` of components, root first, with no
//! `.` or `..` components. Relative paths between two such directories are
//! computed here: strip the common prefix, go up once per remaining
//! component of the start, then descend into the remaining components of
//! the target.

use vstd::prelude::*;

verus! {

/// The component that names the parent directory.
pub open spec fn up_component() -> Seq<char> {
    ".."@
}

/// True when `pre` is a leading run of `full`, component by component.
pub open spec fn is_path_prefix(pre: Seq<Seq<char>>, full: Seq<Seq<char>>) -> bool {
    pre.len() <= full.len() && full.subrange(0, pre.len() as int) == pre
}

/// Number of leading components shared by `a` and `b`.
pub open spec fn common_prefix_len(a: Seq<Seq<char>>, b: Seq<Seq<char>>) -> nat
    decreases a.len(),
{
    if a.len() == 0 || b.len() == 0 || a[0] != b[0] {
        0
    } else {
        1 + common_prefix_len(a.drop_first(), b.drop_first())
    }
}

/// The components of the relative path that leads from directory `from`
/// to directory `to`: one `..` per component of `from` past the common
/// prefix, then the components of `to` past the common prefix.
pub open spec fn spec_relative_parts(from: Seq<Seq<char>>, to: Seq<Seq<char>>) -> Seq<Seq<char>> {
    let c = common_prefix_len(from, to) as int;
    Seq::new((from.len() - c) as nat, |i: int| up_component()) + to.subrange(c, to.len() as int)
}

proof fn lemma_common_prefix_from_props(a: Seq<Seq<char>>, b: Seq<Seq<char>>, i: int)
    requires
        0 <= i <= a.len(),
        i <= b.len(),
        forall|j: int| 0 <= j < i ==> a[j] == b[j],
        i < a.len() && i < b.len() ==> a[i] != b[i],
    ensures
        common_prefix_len(a, b) == i,
    decreases i,
{
    if i == 0 {
    } else {
        assert(a[0] == b[0]);
        lemma_common_prefix_from_props(a.drop_first(), b.drop_first(), i - 1);
    }
}

/// Exec counterpart of `common_prefix_len`.
pub fn common_prefix(from: &Vec<String>, to: &Vec<String>) -> (c: usize)
    ensures
        c == common_prefix_len(from.deep_view(), to.deep_view()),
        c <= from.len(),
        c <= to.len(),
{
    let mut c: usize = 0;
    while c < from.len() && c < to.len() && from[c] == to[c]
        invariant
            c <= from.len(),
            c <= to.len(),
            forall|j: int| 0 <= j < c ==> from.deep_view()[j] == to.deep_view()[j],
        decreases from.len() - c,
    {
        c = c + 1;
    }
    proof {
        lemma_common_prefix_from_props(from.deep_view(), to.deep_view(), c as int);
    }
    c
}

/// Relative path from directory `from` to directory `to`, as components.
pub fn relative_path(from: &Vec<String>, to: &Vec<String>) -> (r: Vec<String>)
    ensures
        r.deep_view() == spec_relative_parts(from.deep_view(), to.deep_view()),
{
    let c = common_prefix(from, to);
    let mut r: Vec<String> = Vec::new();
    let mut i: usize = c;
    while i < from.len()
        invariant
            c <= i <= from.len(),
            r.deep_view().len() == i - c,
            forall|k: int| 0 <= k < i - c ==> r.deep_view()[k] == up_component(),
        decreases from.len() - i,
    {
        let ghost v0 = r@;
        let ghost d0 = r.deep_view();
        r.push("..".to_owned());
        i = i + 1;
        proof {
            assert forall|k: int| 0 <= k < i - c implies r.deep_view()[k] == up_component() by {
                assert(r.deep_view()[k] == r@[k].deep_view());
                if k < i - c - 1 {
                    assert(r@[k] == v0[k]);
                    assert(d0[k] == v0[k].deep_view());
                }
            }
        }
    }
    let ghost ups: int = from.len() - c;
    let mut j: usize = c;
    while j < to.len()
        invariant
            c <= j <= to.len(),
            c <= from.len(),
            ups == from.len() - c,
            r.deep_view().len() == ups + (j - c),
            forall|k: int| 0 <= k < ups ==> r.deep_view()[k] == up_component(),
            forall|k: int| ups <= k < r.deep_view().len()
                ==> r.deep_view()[k] == to.deep_view()[k - ups + c],
        decreases to.len() - j,
    {
        let ghost v0 = r@;
        let ghost d0 = r.deep_view();
        let next = to[j].clone();
        r.push(next);
        j = j + 1;
        proof {
            assert forall|k: int| 0 <= k < r.deep_view().len()
                implies r.deep_view()[k] == (if k < ups { up_component() } else {
                    to.deep_view()[k - ups + c]
                }) by {
                assert(r.deep_view()[k] == r@[k].deep_view());
                if k < r.deep_view().len() - 1 {
                    assert(r@[k] == v0[k]);
                    assert(d0[k] == v0[k].deep_view());
                }
            }
        }
    }
    proof {
        assert(r.deep_view() =~= spec_relative_parts(from.deep_view(), to.deep_view()));
    }
    r
}

/// The textual form of a component path: components joined by `/`.
pub open spec fn spec_join_path(parts: Seq<Seq<char>>) -> Seq<char>
    decreases parts.len(),
{
    if parts.len() == 0 {
        Seq::empty()
    } else if parts.len() == 1 {
        parts[0]
    } else {
        spec_join_path(parts.drop_last()) + "/"@ + parts.last()
    }
}

/// Joins path components with `/` into one string.
pub fn join_path(parts: &Vec<String>) -> (r: String)
    ensures
        r@ == spec_join_path(parts.deep_view()),
{
    let mut r = String::new();
    let mut i: usize = 0;
    while i < parts.len()
        invariant
            i <= parts.len(),
            r@ == spec_join_path(parts.deep_view().subrange(0, i as int)),
        decreases parts.len() - i,
    {
        if i > 0 {
            r.append("/");
        }
        r.append(parts[i].as_str());
        proof {
            let d = parts.deep_view();
            assert(d.subrange(0, i + 1 as int).drop_last() =~= d.subrange(0, i as int));
            assert(d.subrange(0, i + 1 as int).last() == d[i as int]);
        }
        i = i + 1;
    }
    proof {
        assert(parts.deep_view().subrange(0, parts.len() as int) =~= parts.deep_view());
    }
    r
}

/// Tests whether `prefix` is a leading run of `path`, component by component.
pub fn path_starts_with(path: &Vec<String>, prefix: &Vec<String>) -> (r: bool)
    ensures
        r == is_path_prefix(prefix.deep_view(), path.deep_view()),
{
    if prefix.len() > path.len() {
        return false;
    }
    let mut i: usize = 0;
    while i < prefix.len()
        invariant
            i <= prefix.len() <= path.len(),
            forall|j: int| 0 <= j < i ==> path.deep_view()[j] == prefix.deep_view()[j],
        decreases prefix.len() - i,
    {
        if !(path[i] == prefix[i]) {
            proof {
                assert(path.deep_view().subrange(0, prefix.len() as int)[i as int]
                    != prefix.deep_view()[i as int]);
            }
            return false;
        }
        i = i + 1;
    }
    proof {
        assert(path.deep_view().subrange(0, prefix.len() as int) =~= prefix.deep_view());
    }
    true
}

/// Clones a vector of strings, preserving the viewed contents.
pub fn clone_strings(v: &Vec<String>) -> (r: Vec<String>)
    ensures
        r.deep_view() == v.deep_view(),
{
    let mut r: Vec<String> = Vec::new();
    let mut i: usize = 0;
    while i < v.len()
        invariant
            i <= v.len(),
            r.deep_view().len() == i,
            forall|k: int| 0 <= k < i ==> r.deep_view()[k] == v.deep_view()[k],
        decreases v.len() - i,
    {
        let ghost v0 = r@;
        let ghost d0 = r.deep_view();
        let next = v[i].clone();
        r.push(next);
        i = i + 1;
        proof {
            assert forall|k: int| 0 <= k < i implies r.deep_view()[k] == v.deep_view()[k] by {
                assert(r.deep_view()[k] == r@[k].deep_view());
                if k < i - 1 {
                    assert(r@[k] == v0[k]);
                    assert(d0[k] == v0[k].deep_view());
                }
            }
        }
    }
    proof {
        assert(r.deep_view() =~= v.deep_view());
    }
    r
}

/// Lemma counterpart of `common_prefix_len`: it never exceeds either
/// length, and the two paths agree on that many leading components.
proof fn lemma_common_prefix_props(a: Seq<Seq<char>>, b: Seq<Seq<char>>)
    ensures
        common_prefix_len(a, b) <= a.len(),
        common_prefix_len(a, b) <= b.len(),
        forall|i: int| 0 <= i < common_prefix_len(a, b) ==> a[i] == b[i],
    decreases a.len(),
{
    if a.len() != 0 && b.len() != 0 && a[0] == b[0] {
        lemma_common_prefix_props(a.drop_first(), b.drop_first());
        let c = common_prefix_len(a, b) as int;
        assert forall|i: int| 0 <= i < c implies a[i] == b[i] by {
            if i > 0 {
                assert(a.drop_first()[i - 1] == b.drop_first()[i - 1]);
            }
        }
    }
}

/// The directory reached from `base` by following relative components:
/// `..` goes to the parent, any other component descends into it.
pub open spec fn spec_apply_rel(base: Seq<Seq<char>>, rel: Seq<Seq<char>>) -> Seq<Seq<char>>
    decreases rel.len(),
{
    if rel.len() == 0 {
        base
    } else {
        let next = if rel[0] == up_component() {
            base.drop_last()
        } else {
            base.push(rel[0])
        };
        spec_apply_rel(next, rel.drop_first())
    }
}

proof fn lemma_apply_ups(base: Seq<Seq<char>>, n: int, rest: Seq<Seq<char>>)
    requires
        0 <= n <= base.len(),
    ensures
        spec_apply_rel(base, Seq::new(n as nat, |i: int| up_component()) + rest)
            == spec_apply_rel(base.subrange(0, base.len() - n), rest),
    decreases n,
{
    let ups = Seq::new(n as nat, |i: int| up_component());
    if n == 0 {
        assert(ups + rest =~= rest);
        assert(base.subrange(0, base.len() as int) =~= base);
    } else {
        assert((ups + rest)[0] == up_component());
        assert((ups + rest).drop_first() =~= Seq::new((n - 1) as nat, |i: int| up_component())
            + rest);
        assert(base.drop_last() =~= base.subrange(0, base.len() - 1));
        lemma_apply_ups(base.drop_last(), n - 1, rest);
        assert(base.drop_last().subrange(0, base.drop_last().len() - (n - 1)) =~= base.subrange(
            0,
            base.len() - n,
        ));
    }
}

proof fn lemma_apply_downs(base: Seq<Seq<char>>, downs: Seq<Seq<char>>)
    requires
        forall|i: int| 0 <= i < downs.len() ==> downs[i] != up_component(),
    ensures
        spec_apply_rel(base, downs) == base + downs,
    decreases downs.len(),
{
    if downs.len() == 0 {
        assert(base + downs =~= base);
    } else {
        assert(downs[0] != up_component());
        lemma_apply_downs(base.push(downs[0]), downs.drop_first());
        assert(base.push(downs[0]) + downs.drop_first() =~= base + downs);
    }
}

/// The computed relative path is the correct one: followed from the start
/// directory, it reaches exactly the target directory. The target's own
/// components must be plain names, not `..`.
pub proof fn lemma_relative_path_reaches_target(from: Seq<Seq<char>>, to: Seq<Seq<char>>)
    requires
        forall|i: int| 0 <= i < to.len() ==> to[i] != up_component(),
    ensures
        spec_apply_rel(from, spec_relative_parts(from, to)) == to,
{
    lemma_common_prefix_props(from, to);
    let c = common_prefix_len(from, to) as int;
    let downs = to.subrange(c, to.len() as int);
    let n = from.len() - c;
    lemma_apply_ups(from, n, downs);
    lemma_apply_downs(from.subrange(0, c), downs);
    assert forall|i: int| 0 <= i < c implies from.subrange(0, c)[i] == to[i] by {
        assert(from[i] == to[i]);
    }
    assert(from.subrange(0, c) + downs =~= to);
}

} // verus!
