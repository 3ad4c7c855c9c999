//! Finding a dependency's extracted source in the package caches.
//!
//! The caller lists, for each cache root, the candidate directories in the
//! order its traversal yielded them (that order is not guaranteed sorted:
//! first match wins is a documented nondeterminism of the search). The
//! locator returns the first directory across all roots, in root order,
//! whose own name is exactly `{name}-{version}`.

use vstd::prelude::*;
use crate::graph::spec_vendor_key;
use crate::graph::vendor_dir_name;
use crate::paths::clone_strings;
use crate::search::first_where;
use crate::search::lemma_first_where_from_props;

verus! {

/// One candidate directory seen during a cache traversal.
pub struct CacheDir {
    /// The directory's own (final-component) name.
    pub name: String,
    /// The directory's full path, as components.
    pub path: Vec<String>,
}

/// Spec-level image of a `CacheDir`.
pub ghost struct CacheDirView {
    pub name: Seq<char>,
    pub path: Seq<Seq<char>>,
}

impl View for CacheDir {
    type V = CacheDirView;

    open spec fn view(&self) -> CacheDirView {
        CacheDirView { name: self.name@, path: self.path.deep_view() }
    }
}

impl DeepView for CacheDir {
    type V = CacheDirView;

    open spec fn deep_view(&self) -> CacheDirView {
        self.view()
    }
}

/// One cache root: its candidate directories in traversal order.
pub struct CacheRoot {
    pub dirs: Vec<CacheDir>,
}

impl View for CacheRoot {
    type V = Seq<CacheDirView>;

    open spec fn view(&self) -> Seq<CacheDirView> {
        self.dirs.deep_view()
    }
}

impl DeepView for CacheRoot {
    type V = Seq<CacheDirView>;

    open spec fn deep_view(&self) -> Seq<CacheDirView> {
        self.view()
    }
}

/// Predicate picking the directories named exactly `key`.
pub open spec fn dir_named(key: Seq<char>) -> spec_fn(CacheDirView) -> bool {
    |d: CacheDirView| d.name == key
}

/// The path of the first directory named `key`, searching the roots in
/// order and each root in its traversal order.
pub open spec fn spec_locate(roots: Seq<Seq<CacheDirView>>, key: Seq<char>) -> Option<
    Seq<Seq<char>>,
>
    decreases roots.len(),
{
    if roots.len() == 0 {
        None
    } else {
        match first_where(roots[0], dir_named(key)) {
            Some(j) => Some(roots[0][j].path),
            None => spec_locate(roots.drop_first(), key),
        }
    }
}

/// Skipping roots without a match leaves the search result unchanged.
proof fn lemma_locate_skip(roots: Seq<Seq<CacheDirView>>, key: Seq<char>, i: int)
    requires
        0 <= i <= roots.len(),
        forall|k: int| 0 <= k < i ==> first_where(#[trigger] roots[k], dir_named(key)) == None::<
            int,
        >,
    ensures
        spec_locate(roots, key) == spec_locate(roots.subrange(i, roots.len() as int), key),
    decreases i,
{
    if i == 0 {
        assert(roots.subrange(0, roots.len() as int) =~= roots);
    } else {
        lemma_locate_skip(roots, key, i - 1);
        let tail = roots.subrange(i - 1, roots.len() as int);
        assert(tail[0] == roots[i - 1]);
        assert(first_where(tail[0], dir_named(key)) == None::<int>);
        assert(tail.drop_first() =~= roots.subrange(i, roots.len() as int));
        assert(spec_locate(tail, key) == spec_locate(tail.drop_first(), key));
    }
}

/// Searches the cache roots for the extracted source of `{name}-{version}`
/// and returns the path of the first directory with exactly that name, or
/// `None` when no root holds one.
pub fn find_crate_source(roots: &Vec<CacheRoot>, name: &String, version: &String) -> (r: Option<
    Vec<String>,
>)
    ensures
        ({
            let key = spec_vendor_key(name@, version@);
            match r {
                Some(p) => spec_locate(roots.deep_view(), key) == Some(p.deep_view()),
                None => spec_locate(roots.deep_view(), key) == None::<Seq<Seq<char>>>,
            }
        }),
{
    let key = vendor_dir_name(name, version);
    let ghost rr = roots.deep_view();
    let ghost pred = dir_named(key@);
    let mut i: usize = 0;
    while i < roots.len()
        invariant
            i <= roots.len(),
            rr == roots.deep_view(),
            pred == dir_named(key@),
            key@ == spec_vendor_key(name@, version@),
            forall|k: int| 0 <= k < i ==> first_where(#[trigger] rr[k], pred) == None::<int>,
        decreases roots.len() - i,
    {
        let dirs = &roots[i].dirs;
        let ghost root = rr[i as int];
        proof {
            assert(root == dirs.deep_view());
        }
        let mut j: usize = 0;
        while j < dirs.len()
            invariant
                j <= dirs.len(),
                i < roots.len(),
                rr == roots.deep_view(),
                pred == dir_named(key@),
                key@ == spec_vendor_key(name@, version@),
                root == rr[i as int],
                root == dirs.deep_view(),
                forall|k: int| 0 <= k < i ==> first_where(#[trigger] rr[k], pred) == None::<int>,
                forall|k: int| 0 <= k < j ==> root[k].name != key@,
            decreases dirs.len() - j,
        {
            if dirs[j].name.eq(&key) {
                proof {
                    assert(pred(root[j as int]));
                    lemma_first_where_from_props(root, pred, Some(j as int));
                    lemma_locate_skip(rr, key@, i as int);
                    let tail = rr.subrange(i as int, rr.len() as int);
                    assert(tail[0] == rr[i as int]);
                }
                return Some(clone_strings(&dirs[j].path));
            }
            j = j + 1;
        }
        proof {
            lemma_first_where_from_props(root, pred, None);
        }
        i = i + 1;
    }
    proof {
        lemma_locate_skip(rr, key@, i as int);
        assert(rr.subrange(i as int, rr.len() as int) =~= Seq::<Seq<CacheDirView>>::empty());
    }
    None
}

} // verus!
