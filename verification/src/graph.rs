//! The engine's view of the resolved dependency graph.
//!
//! A `GraphView` is built once per run from the resolver's output and is
//! read-only thereafter: every manifest pass consults the same instance, so
//! names and feature sets are globally consistent across all rewritten
//! files.

use vstd::prelude::*;
use crate::paths::is_path_prefix;
use crate::paths::path_starts_with;
use crate::search::first_where;
use crate::search::lemma_first_where_from_props;

verus! {

/// One package as the resolver reported it: identity, the feature set the
/// resolver assigned to it, and where its manifest lives.
#[derive(Debug)]
pub struct ResolvedPackage {
    /// Package name.
    pub name: String,
    /// Package version, in its textual form.
    pub version: String,
    /// Resolved feature set, in the resolver's order; may be empty.
    pub features: Vec<String>,
    /// Components of the path of the package's own manifest file.
    pub manifest_path: Vec<String>,
}

/// Spec-level image of a `ResolvedPackage`.
pub ghost struct PackageView {
    pub name: Seq<char>,
    pub version: Seq<char>,
    pub features: Seq<Seq<char>>,
    pub manifest_path: Seq<Seq<char>>,
}

impl View for ResolvedPackage {
    type V = PackageView;

    open spec fn view(&self) -> PackageView {
        PackageView {
            name: self.name@,
            version: self.version@,
            features: self.features.deep_view(),
            manifest_path: self.manifest_path.deep_view(),
        }
    }
}

impl DeepView for ResolvedPackage {
    type V = PackageView;

    open spec fn deep_view(&self) -> PackageView {
        self.view()
    }
}

/// The resolved dependency graph plus the workspace root, as handed to the
/// engine by the resolution provider.
pub struct GraphView {
    /// Packages in the resolver's iteration order.
    pub packages: Vec<ResolvedPackage>,
    /// Components of the path of the workspace root directory.
    pub workspace_root: Vec<String>,
}

/// The canonical vendor directory name `{name}-{version}`.
pub open spec fn spec_vendor_key(name: Seq<char>, version: Seq<char>) -> Seq<char> {
    name + "-"@ + version
}

/// Builds the vendor directory name `{name}-{version}`.
pub fn vendor_dir_name(name: &String, version: &String) -> (r: String)
    ensures
        r@ == spec_vendor_key(name@, version@),
{
    let mut r = name.clone();
    r.append("-");
    r.append(version.as_str());
    r
}

/// A package is a workspace member exactly when its manifest path lies
/// under the workspace root.
pub fn is_workspace_package(package: &ResolvedPackage, workspace_root: &Vec<String>) -> (r: bool)
    ensures
        r == is_path_prefix(workspace_root.deep_view(), package@.manifest_path),
{
    path_starts_with(&package.manifest_path, workspace_root)
}

/// Predicate picking the packages with the given name.
pub open spec fn package_named(name: Seq<char>) -> spec_fn(PackageView) -> bool {
    |p: PackageView| p.name == name
}

/// The name a manifest entry resolves against: the explicit rename when
/// present, else the entry's own key.
pub open spec fn spec_lookup_name(dep_name: Seq<char>, rename: Option<Seq<char>>) -> Seq<char> {
    match rename {
        Some(n) => n,
        None => dep_name,
    }
}

/// Finds the first package in the graph's iteration order whose name is
/// the entry's lookup name (the rename when given, else the entry key).
pub fn find_package_for_dependency(
    graph: &GraphView,
    dep_name: &String,
    package_name: Option<&String>,
) -> (r: Option<usize>)
    ensures
        ({
            let pkgs = graph.packages.deep_view();
            let target = spec_lookup_name(
                dep_name@,
                match package_name {
                    Some(n) => Some(n@),
                    None => None,
                },
            );
            match r {
                Some(i) => i < graph.packages.len() && first_where(pkgs, package_named(target))
                    == Some(i as int),
                None => first_where(pkgs, package_named(target)) == None::<int>,
            }
        }),
{
    let actual: &String = match package_name {
        Some(n) => n,
        None => dep_name,
    };
    let ghost pkgs = graph.packages.deep_view();
    let ghost pred = package_named(actual@);
    let mut i: usize = 0;
    while i < graph.packages.len()
        invariant
            i <= graph.packages.len(),
            pkgs == graph.packages.deep_view(),
            pred == package_named(actual@),
            actual@ == spec_lookup_name(
                dep_name@,
                match package_name {
                    Some(n) => Some(n@),
                    None => None,
                },
            ),
            forall|j: int| 0 <= j < i ==> pkgs[j].name != actual@,
        decreases graph.packages.len() - i,
    {
        if graph.packages[i].name.eq(actual) {
            proof {
                assert(pred(pkgs[i as int]));
                lemma_first_where_from_props(pkgs, pred, Some(i as int));
            }
            return Some(i);
        }
        i = i + 1;
    }
    proof {
        lemma_first_where_from_props(pkgs, pred, None);
    }
    None
}

} // verus!
