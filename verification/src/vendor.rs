//! Per-package vendoring decisions.
//!
//! For every resolved package, in the resolver's iteration order, the
//! engine decides: skip it (workspace member), skip the copy (its vendor
//! directory already exists; existence is the only state tracked), copy
//! its located source into the vendor root, or abort the run (its source
//! cannot be located in any cache root). The caller performs the copy.

use vstd::prelude::*;
use crate::errors::LocalizeError;
use crate::graph::ResolvedPackage;
use crate::graph::spec_vendor_key;
use crate::graph::vendor_dir_name;
use crate::graph::is_workspace_package;
use crate::locate::CacheRoot;
use crate::locate::find_crate_source;
use crate::locate::spec_locate;
use crate::paths::is_path_prefix;

verus! {

/// What to do about one resolved package.
#[derive(Debug, PartialEq)]
pub enum VendorDecision {
    /// The package is a workspace member: it is never vendored.
    SkipWorkspace,
    /// `{name}-{version}` already exists under the vendor root: the copy
    /// is skipped, not refreshed.
    AlreadyVendored { dest_name: String },
    /// Copy the source tree at `source` into the vendor root, where it
    /// takes the directory name `dest_name`.
    Copy { source: Vec<String>, dest_name: String },
}

/// Whether the package is a member of the workspace rooted at
/// `workspace_root`.
pub open spec fn spec_member(package: &ResolvedPackage, workspace_root: &Vec<String>) -> bool {
    is_path_prefix(workspace_root.deep_view(), package@.manifest_path)
}

/// Where the package's extracted source sits in the cache, if anywhere.
pub open spec fn spec_located(package: &ResolvedPackage, cache: &Vec<CacheRoot>) -> Option<
    Seq<Seq<char>>,
> {
    spec_locate(cache.deep_view(), spec_vendor_key(package@.name, package@.version))
}

/// Decides how one package is vendored. A workspace member is skipped
/// outright; otherwise the package's source must be locatable in some
/// cache root, or the whole run aborts; a located package whose vendor
/// directory already exists is left as it is.
pub fn vendor_step(
    package: &ResolvedPackage,
    workspace_root: &Vec<String>,
    cache: &Vec<CacheRoot>,
    vendor_exists: bool,
) -> (r: Result<VendorDecision, LocalizeError>)
    ensures
        spec_member(package, workspace_root) ==> (r matches Ok(VendorDecision::SkipWorkspace)),
        !spec_member(package, workspace_root) && spec_located(package, cache) is None ==> (r
            matches Err(LocalizeError::Locate { name, version }) && name@ == package@.name
            && version@ == package@.version),
        !spec_member(package, workspace_root) && spec_located(package, cache) is Some
            && vendor_exists ==> (r matches Ok(VendorDecision::AlreadyVendored { dest_name })
            && dest_name@ == spec_vendor_key(package@.name, package@.version)),
        !spec_member(package, workspace_root) && spec_located(package, cache) is Some
            && !vendor_exists ==> (r matches Ok(VendorDecision::Copy { source, dest_name })
            && Some(source.deep_view()) == spec_located(package, cache)
            && dest_name@ == spec_vendor_key(package@.name, package@.version)),
{
    if is_workspace_package(package, workspace_root) {
        return Ok(VendorDecision::SkipWorkspace);
    }
    match find_crate_source(cache, &package.name, &package.version) {
        None => Err(
            LocalizeError::Locate {
                name: package.name.clone(),
                version: package.version.clone(),
            },
        ),
        Some(source) => {
            let dest_name = vendor_dir_name(&package.name, &package.version);
            if vendor_exists {
                Ok(VendorDecision::AlreadyVendored { dest_name })
            } else {
                Ok(VendorDecision::Copy { source, dest_name })
            }
        },
    }
}

/// The vendor directory names of the non-workspace packages, in package
/// order: the candidates for a vendored manifest's own rewrite pass. A
/// workspace member never appears here, so it is never copied.
pub open spec fn spec_vendor_candidates(
    pkgs: Seq<crate::graph::PackageView>,
    wroot: Seq<Seq<char>>,
) -> Seq<Seq<char>>
    decreases pkgs.len(),
{
    if pkgs.len() == 0 {
        Seq::empty()
    } else {
        let rest = spec_vendor_candidates(pkgs.drop_first(), wroot);
        if !is_path_prefix(wroot, pkgs[0].manifest_path) {
            seq![spec_vendor_key(pkgs[0].name, pkgs[0].version)] + rest
        } else {
            rest
        }
    }
}

proof fn lemma_candidates_push(
    pkgs: Seq<crate::graph::PackageView>,
    p: crate::graph::PackageView,
    wroot: Seq<Seq<char>>,
)
    ensures
        spec_vendor_candidates(pkgs.push(p), wroot) == if !is_path_prefix(
            wroot,
            p.manifest_path,
        ) {
            spec_vendor_candidates(pkgs, wroot).push(spec_vendor_key(p.name, p.version))
        } else {
            spec_vendor_candidates(pkgs, wroot)
        },
    decreases pkgs.len(),
{
    let g = pkgs.push(p);
    if pkgs.len() == 0 {
        assert(g[0] == p);
        assert(g.drop_first() =~= Seq::<crate::graph::PackageView>::empty());
        assert(spec_vendor_candidates(g.drop_first(), wroot) == Seq::<Seq<char>>::empty());
        assert(spec_vendor_candidates(pkgs, wroot) == Seq::<Seq<char>>::empty());
        if !is_path_prefix(wroot, p.manifest_path) {
            assert(spec_vendor_candidates(g, wroot) == seq![spec_vendor_key(p.name, p.version)]
                + Seq::<Seq<char>>::empty());
            assert(spec_vendor_candidates(g, wroot) =~= spec_vendor_candidates(pkgs, wroot).push(
                spec_vendor_key(p.name, p.version),
            ));
        }
    } else {
        assert(g[0] == pkgs[0]);
        assert(g.drop_first() =~= pkgs.drop_first().push(p));
        lemma_candidates_push(pkgs.drop_first(), p, wroot);
        if !is_path_prefix(wroot, pkgs[0].manifest_path) {
            if !is_path_prefix(wroot, p.manifest_path) {
                assert(spec_vendor_candidates(g, wroot) =~= spec_vendor_candidates(
                    pkgs,
                    wroot,
                ).push(spec_vendor_key(p.name, p.version)));
            }
        }
    }
}

/// Every candidate key names some non-workspace package of the graph.
pub proof fn lemma_candidates_from_packages(
    pkgs: Seq<crate::graph::PackageView>,
    wroot: Seq<Seq<char>>,
)
    ensures
        forall|k: Seq<char>| spec_vendor_candidates(pkgs, wroot).contains(k) ==> exists|j: int|
            0 <= j < pkgs.len() && !is_path_prefix(wroot, (#[trigger] pkgs[j]).manifest_path)
                && spec_vendor_key(pkgs[j].name, pkgs[j].version) == k,
    decreases pkgs.len(),
{
    if pkgs.len() != 0 {
        lemma_candidates_from_packages(pkgs.drop_first(), wroot);
        let rest = spec_vendor_candidates(pkgs.drop_first(), wroot);
        assert forall|k: Seq<char>| spec_vendor_candidates(pkgs, wroot).contains(k) implies exists|
            j: int,
        |
            0 <= j < pkgs.len() && !is_path_prefix(wroot, (#[trigger] pkgs[j]).manifest_path)
                && spec_vendor_key(pkgs[j].name, pkgs[j].version) == k by {
            let c = spec_vendor_candidates(pkgs, wroot);
            let idx = choose|idx: int| 0 <= idx < c.len() && c[idx] == k;
            if !is_path_prefix(wroot, pkgs[0].manifest_path) {
                if idx == 0 {
                    assert(!is_path_prefix(wroot, pkgs[0int].manifest_path) && spec_vendor_key(
                        pkgs[0int].name,
                        pkgs[0int].version,
                    ) == k);
                } else {
                    assert(rest[idx - 1] == k);
                    assert(rest.contains(k));
                    let j = choose|j: int|
                        0 <= j < pkgs.drop_first().len() && !is_path_prefix(
                            wroot,
                            (#[trigger] pkgs.drop_first()[j]).manifest_path,
                        ) && spec_vendor_key(
                            pkgs.drop_first()[j].name,
                            pkgs.drop_first()[j].version,
                        ) == k;
                    assert(pkgs.drop_first()[j] == pkgs[j + 1]);
                    assert(!is_path_prefix(wroot, pkgs[j + 1].manifest_path) && spec_vendor_key(
                        pkgs[j + 1].name,
                        pkgs[j + 1].version,
                    ) == k);
                }
            } else {
                assert(rest.contains(k));
                let j = choose|j: int|
                    0 <= j < pkgs.drop_first().len() && !is_path_prefix(
                        wroot,
                        (#[trigger] pkgs.drop_first()[j]).manifest_path,
                    ) && spec_vendor_key(
                        pkgs.drop_first()[j].name,
                        pkgs.drop_first()[j].version,
                    ) == k;
                assert(pkgs.drop_first()[j] == pkgs[j + 1]);
                assert(!is_path_prefix(wroot, pkgs[j + 1].manifest_path) && spec_vendor_key(
                    pkgs[j + 1].name,
                    pkgs[j + 1].version,
                ) == k);
            }
        }
    }
}

/// Lists the vendor directory names of every non-workspace package, in
/// package order: each names a vendored manifest that gets its own
/// rewrite pass, when present on disk.
pub fn vendor_manifest_candidates(graph: &crate::graph::GraphView) -> (r: Vec<String>)
    ensures
        r.deep_view() == spec_vendor_candidates(
            graph.packages.deep_view(),
            graph.workspace_root.deep_view(),
        ),
{
    let ghost pkgs = graph.packages.deep_view();
    let ghost wroot = graph.workspace_root.deep_view();
    let mut r: Vec<String> = Vec::new();
    let mut i: usize = 0;
    while i < graph.packages.len()
        invariant
            i <= graph.packages.len(),
            pkgs == graph.packages.deep_view(),
            wroot == graph.workspace_root.deep_view(),
            r.deep_view() == spec_vendor_candidates(pkgs.subrange(0, i as int), wroot),
        decreases graph.packages.len() - i,
    {
        let p = &graph.packages[i];
        if !is_workspace_package(p, &graph.workspace_root) {
            let key = vendor_dir_name(&p.name, &p.version);
            crate::util::push_deep(&mut r, key);
        }
        i = i + 1;
        proof {
            assert(pkgs.subrange(0, i as int) =~= pkgs.subrange(0, i - 1).push(pkgs[i - 1]));
            lemma_candidates_push(pkgs.subrange(0, i - 1), pkgs[i - 1], wroot);
        }
    }
    proof {
        assert(pkgs.subrange(0, graph.packages.len() as int) =~= pkgs);
    }
    r
}

} // verus!
