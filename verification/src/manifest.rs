//! The manifest model and the rewrite of dependency declarations.
//!
//! A manifest is modelled by its dependency sections; each section holds
//! declared entries in document order. An entry is one of the three
//! syntactic shapes a declaration can take — a bare version string, an
//! inline record, or a block record — or some other item shape, which is
//! carried through untouched. Record fields the rewrite does not read are
//! carried as opaque handles that the caller can map back to the concrete
//! document.

use vstd::prelude::*;
use crate::graph::GraphView;
use crate::graph::PackageView;
use crate::graph::package_named;
use crate::graph::spec_lookup_name;
use crate::graph::spec_vendor_key;
use crate::paths::spec_join_path;
use crate::paths::spec_relative_parts;
use crate::search::first_where;
use crate::util::push_deep;
use crate::graph::find_package_for_dependency;
use crate::graph::vendor_dir_name;
use crate::paths::clone_strings;
use crate::paths::join_path;
use crate::paths::relative_path;

verus! {

/// A field value inside a dependency record.
#[derive(Debug, PartialEq)]
pub enum FieldValue {
    /// A string value.
    Text(String),
    /// An array of strings.
    List(Vec<String>),
    /// Any other value shape, identified by a caller-chosen handle and
    /// carried through untouched.
    Opaque(u64),
}

/// Spec-level image of a `FieldValue`.
pub ghost enum ValueView {
    Text(Seq<char>),
    List(Seq<Seq<char>>),
    Opaque(u64),
}

impl View for FieldValue {
    type V = ValueView;

    open spec fn view(&self) -> ValueView {
        match self {
            FieldValue::Text(s) => ValueView::Text(s@),
            FieldValue::List(v) => ValueView::List(v.deep_view()),
            FieldValue::Opaque(n) => ValueView::Opaque(*n),
        }
    }
}

impl DeepView for FieldValue {
    type V = ValueView;

    open spec fn deep_view(&self) -> ValueView {
        self.view()
    }
}

/// One `key = value` pair of a dependency record.
#[derive(Debug, PartialEq)]
pub struct Field {
    pub key: String,
    pub value: FieldValue,
}

/// Spec-level image of a `Field`.
pub ghost struct FieldView {
    pub key: Seq<char>,
    pub value: ValueView,
}

impl View for Field {
    type V = FieldView;

    open spec fn view(&self) -> FieldView {
        FieldView { key: self.key@, value: self.value@ }
    }
}

impl DeepView for Field {
    type V = FieldView;

    open spec fn deep_view(&self) -> FieldView {
        self.view()
    }
}

/// One declared dependency entry.
#[derive(Debug, PartialEq)]
pub enum DependencyEntry {
    /// A bare version string.
    Shorthand(String),
    /// An inline record of fields.
    InlineRecord(Vec<Field>),
    /// A block (table) record of fields.
    BlockRecord(Vec<Field>),
    /// Any other item shape, carried through untouched.
    Other(u64),
}

/// Spec-level image of a `DependencyEntry`.
pub ghost enum EntryView {
    Shorthand(Seq<char>),
    InlineRecord(Seq<FieldView>),
    BlockRecord(Seq<FieldView>),
    Other(u64),
}

impl View for DependencyEntry {
    type V = EntryView;

    open spec fn view(&self) -> EntryView {
        match self {
            DependencyEntry::Shorthand(s) => EntryView::Shorthand(s@),
            DependencyEntry::InlineRecord(fs) => EntryView::InlineRecord(fs.deep_view()),
            DependencyEntry::BlockRecord(fs) => EntryView::BlockRecord(fs.deep_view()),
            DependencyEntry::Other(n) => EntryView::Other(*n),
        }
    }
}

impl DeepView for DependencyEntry {
    type V = EntryView;

    open spec fn deep_view(&self) -> EntryView {
        self.view()
    }
}

/// The remote-source fields that a rewrite removes from a record.
pub open spec fn is_source_key(k: Seq<char>) -> bool {
    ||| k == "version"@
    ||| k == "git"@
    ||| k == "branch"@
    ||| k == "tag"@
    ||| k == "rev"@
    ||| k == "registry"@
}

/// Whether a field survives the rewrite of its record: remote-source
/// fields and the old `path` always go; the old `features` goes only when
/// a non-empty resolved feature set replaces it.
pub open spec fn keeps_field(f: FieldView, replace_features: bool) -> bool {
    &&& !is_source_key(f.key)
    &&& f.key != "path"@
    &&& (replace_features ==> f.key != "features"@)
}

/// The surviving fields of a record, in their original order.
pub open spec fn spec_kept(fs: Seq<FieldView>, replace_features: bool) -> Seq<FieldView>
    decreases fs.len(),
{
    if fs.len() == 0 {
        Seq::empty()
    } else {
        let rest = spec_kept(fs.drop_first(), replace_features);
        if keeps_field(fs[0], replace_features) {
            seq![fs[0]] + rest
        } else {
            rest
        }
    }
}

/// The `path` field a rewrite writes.
pub open spec fn path_field(path: Seq<char>) -> FieldView {
    FieldView { key: "path"@, value: ValueView::Text(path) }
}

/// The `features` field a rewrite writes.
pub open spec fn features_field(feats: Seq<Seq<char>>) -> FieldView {
    FieldView { key: "features"@, value: ValueView::List(feats) }
}

/// A record's fields after localization: the surviving fields, then the
/// local `path`, then — only when non-empty — the resolved `features`.
pub open spec fn spec_localized_fields(
    fs: Seq<FieldView>,
    path: Seq<char>,
    feats: Seq<Seq<char>>,
) -> Seq<FieldView> {
    if feats.len() > 0 {
        spec_kept(fs, true) + seq![path_field(path), features_field(feats)]
    } else {
        spec_kept(fs, false) + seq![path_field(path)]
    }
}

proof fn lemma_kept_push(fs: Seq<FieldView>, f: FieldView, b: bool)
    ensures
        spec_kept(fs.push(f), b) == if keeps_field(f, b) {
            spec_kept(fs, b).push(f)
        } else {
            spec_kept(fs, b)
        },
    decreases fs.len(),
{
    let g = fs.push(f);
    if fs.len() == 0 {
        assert(g[0] == f);
        assert(g.drop_first() =~= Seq::<FieldView>::empty());
        assert(spec_kept(g.drop_first(), b) == Seq::<FieldView>::empty());
        assert(spec_kept(fs, b) == Seq::<FieldView>::empty());
        if keeps_field(f, b) {
            assert(spec_kept(g, b) == seq![f] + Seq::<FieldView>::empty());
            assert(spec_kept(g, b) =~= spec_kept(fs, b).push(f));
        } else {
            assert(spec_kept(g, b) == spec_kept(g.drop_first(), b));
        }
    } else {
        assert(g[0] == fs[0]);
        assert(g.drop_first() =~= fs.drop_first().push(f));
        lemma_kept_push(fs.drop_first(), f, b);
        if keeps_field(fs[0], b) {
            assert(spec_kept(g, b) == seq![fs[0]] + spec_kept(fs.drop_first().push(f), b));
            assert(spec_kept(fs, b) == seq![fs[0]] + spec_kept(fs.drop_first(), b));
            if keeps_field(f, b) {
                assert(spec_kept(g, b) =~= spec_kept(fs, b).push(f));
            }
        } else {
            assert(spec_kept(g, b) == spec_kept(fs.drop_first().push(f), b));
            assert(spec_kept(fs, b) == spec_kept(fs.drop_first(), b));
        }
    }
}

/// Compares a field's key against a literal.
fn field_key_is(f: &Field, lit: &str) -> (r: bool)
    ensures
        r == (f@.key == lit@),
{
    f.key.eq(&lit.to_owned())
}

/// Exec counterpart of `keeps_field`.
fn keeps_field_exec(f: &Field, replace_features: bool) -> (r: bool)
    ensures
        r == keeps_field(f@, replace_features),
{
    if field_key_is(f, "version") || field_key_is(f, "git") || field_key_is(f, "branch")
        || field_key_is(f, "tag") || field_key_is(f, "rev") || field_key_is(f, "registry") {
        return false;
    }
    if field_key_is(f, "path") {
        return false;
    }
    if replace_features && field_key_is(f, "features") {
        return false;
    }
    true
}

/// Clones one field, preserving its viewed contents.
fn clone_field(f: &Field) -> (r: Field)
    ensures
        r@ == f@,
{
    let value = match &f.value {
        FieldValue::Text(s) => FieldValue::Text(s.clone()),
        FieldValue::List(v) => FieldValue::List(crate::paths::clone_strings(v)),
        FieldValue::Opaque(n) => FieldValue::Opaque(*n),
    };
    Field { key: f.key.clone(), value }
}

/// Rewrites a record's fields to local-path form: removes the
/// remote-source fields, then sets `path` and, when the resolved feature
/// set is non-empty, `features`.
pub fn localize_fields(fields: &Vec<Field>, path_text: &String, features: &Vec<String>) -> (r: Vec<
    Field,
>)
    ensures
        r.deep_view() == spec_localized_fields(
            fields.deep_view(),
            path_text@,
            features.deep_view(),
        ),
{
    let replace_features = features.len() > 0;
    let mut out: Vec<Field> = Vec::new();
    let mut i: usize = 0;
    while i < fields.len()
        invariant
            i <= fields.len(),
            out.deep_view() == spec_kept(
                fields.deep_view().subrange(0, i as int),
                replace_features,
            ),
            replace_features == (features.len() > 0),
        decreases fields.len() - i,
    {
        let ghost fsv = fields.deep_view();
        if keeps_field_exec(&fields[i], replace_features) {
            push_deep(&mut out, clone_field(&fields[i]));
        }
        i = i + 1;
        proof {
            assert(fsv.subrange(0, i as int) =~= fsv.subrange(0, i - 1).push(fsv[i - 1]));
            lemma_kept_push(fsv.subrange(0, i - 1), fsv[i - 1], replace_features);
        }
    }
    proof {
        assert(fields.deep_view().subrange(0, fields.len() as int) =~= fields.deep_view());
    }
    push_deep(
        &mut out,
        Field { key: "path".to_owned(), value: FieldValue::Text(path_text.clone()) },
    );
    if replace_features {
        push_deep(
            &mut out,
            Field {
                key: "features".to_owned(),
                value: FieldValue::List(crate::paths::clone_strings(features)),
            },
        );
    }
    proof {
        assert(out.deep_view() =~= spec_localized_fields(
            fields.deep_view(),
            path_text@,
            features.deep_view(),
        ));
    }
    out
}

/// The value of the first field with key `k`, if any.
pub open spec fn spec_lookup_field(fs: Seq<FieldView>, k: Seq<char>) -> Option<ValueView>
    decreases fs.len(),
{
    if fs.len() == 0 {
        None
    } else if fs[0].key == k {
        Some(fs[0].value)
    } else {
        spec_lookup_field(fs.drop_first(), k)
    }
}

/// Fields without the key have no bearing on the lookup.
proof fn lemma_lookup_skip(fs: Seq<FieldView>, k: Seq<char>, i: int)
    requires
        0 <= i <= fs.len(),
        forall|j: int| 0 <= j < i ==> (#[trigger] fs[j]).key != k,
    ensures
        spec_lookup_field(fs, k) == spec_lookup_field(fs.subrange(i, fs.len() as int), k),
    decreases i,
{
    if i == 0 {
        assert(fs.subrange(0, fs.len() as int) =~= fs);
    } else {
        lemma_lookup_skip(fs, k, i - 1);
        let tail = fs.subrange(i - 1, fs.len() as int);
        assert(tail[0] == fs[i - 1]);
        assert(tail.drop_first() =~= fs.subrange(i, fs.len() as int));
    }
}

/// A sequence none of whose fields has the key yields no lookup result.
proof fn lemma_lookup_absent(fs: Seq<FieldView>, k: Seq<char>)
    requires
        forall|j: int| 0 <= j < fs.len() ==> (#[trigger] fs[j]).key != k,
    ensures
        spec_lookup_field(fs, k) == None::<ValueView>,
{
    lemma_lookup_skip(fs, k, fs.len() as int);
    assert(fs.subrange(fs.len() as int, fs.len() as int) =~= Seq::<FieldView>::empty());
}

/// Lookup over a concatenation: the left part wins when it has the key.
proof fn lemma_lookup_append(a: Seq<FieldView>, b: Seq<FieldView>, k: Seq<char>)
    ensures
        spec_lookup_field(a + b, k) == if spec_lookup_field(a, k) is Some {
            spec_lookup_field(a, k)
        } else {
            spec_lookup_field(b, k)
        },
    decreases a.len(),
{
    if a.len() == 0 {
        assert(a + b =~= b);
    } else {
        assert((a + b)[0] == a[0]);
        assert((a + b).drop_first() =~= a.drop_first() + b);
        lemma_lookup_append(a.drop_first(), b, k);
    }
}

/// Every surviving field still satisfies the keep predicate.
proof fn lemma_kept_elements(fs: Seq<FieldView>, b: bool)
    ensures
        forall|t: int| 0 <= t < spec_kept(fs, b).len() ==> keeps_field(
            #[trigger] spec_kept(fs, b)[t],
            b,
        ),
    decreases fs.len(),
{
    if fs.len() != 0 {
        lemma_kept_elements(fs.drop_first(), b);
        let rest = spec_kept(fs.drop_first(), b);
        if keeps_field(fs[0], b) {
            assert forall|t: int| 0 <= t < spec_kept(fs, b).len() implies keeps_field(
                spec_kept(fs, b)[t],
                b,
            ) by {
                if t == 0 {
                    assert(spec_kept(fs, b)[0] == fs[0]);
                } else {
                    assert(spec_kept(fs, b)[t] == rest[t - 1]);
                }
            }
        } else {
            assert(spec_kept(fs, b) == rest);
        }
    }
}

/// Keys that the rewrite never writes or strips are looked up unchanged
/// in the surviving fields.
proof fn lemma_lookup_kept(fs: Seq<FieldView>, b: bool, k: Seq<char>)
    requires
        !is_source_key(k),
        k != "path"@,
        b ==> k != "features"@,
    ensures
        spec_lookup_field(spec_kept(fs, b), k) == spec_lookup_field(fs, k),
    decreases fs.len(),
{
    if fs.len() != 0 {
        lemma_lookup_kept(fs.drop_first(), b, k);
        if keeps_field(fs[0], b) {
            let rest = spec_kept(fs.drop_first(), b);
            assert(spec_kept(fs, b) == seq![fs[0]] + rest);
            if fs[0].key == k {
                assert((seq![fs[0]] + rest)[0] == fs[0]);
            } else {
                assert((seq![fs[0]] + rest)[0] == fs[0]);
                assert((seq![fs[0]] + rest).drop_first() =~= rest);
            }
        } else {
            assert(fs[0].key != k);
        }
    }
}

/// The surviving fields of a concatenation.
proof fn lemma_kept_add(a: Seq<FieldView>, b: Seq<FieldView>, rf: bool)
    ensures
        spec_kept(a + b, rf) == spec_kept(a, rf) + spec_kept(b, rf),
    decreases a.len(),
{
    if a.len() == 0 {
        assert(a + b =~= b);
        assert(spec_kept(a, rf) + spec_kept(b, rf) =~= spec_kept(b, rf));
    } else {
        assert((a + b)[0] == a[0]);
        assert((a + b).drop_first() =~= a.drop_first() + b);
        lemma_kept_add(a.drop_first(), b, rf);
        if keeps_field(a[0], rf) {
            assert(seq![a[0]] + (spec_kept(a.drop_first(), rf) + spec_kept(b, rf)) =~= (seq![
                a[0],
            ] + spec_kept(a.drop_first(), rf)) + spec_kept(b, rf));
        }
    }
}

/// Keeping the surviving fields again changes nothing.
proof fn lemma_kept_idempotent(fs: Seq<FieldView>, b: bool)
    ensures
        spec_kept(spec_kept(fs, b), b) == spec_kept(fs, b),
    decreases fs.len(),
{
    if fs.len() != 0 {
        lemma_kept_idempotent(fs.drop_first(), b);
        if keeps_field(fs[0], b) {
            let rest = spec_kept(fs.drop_first(), b);
            lemma_kept_add(seq![fs[0]], rest, b);
            assert(seq![fs[0]].drop_first() =~= Seq::<FieldView>::empty());
            assert(spec_kept(seq![fs[0]], b) == seq![fs[0]] + spec_kept(
                Seq::<FieldView>::empty(),
                b,
            ));
            assert(seq![fs[0]] + Seq::<FieldView>::empty() =~= seq![fs[0]]);
        }
    }
}

/// The rename field of a record's fields: the string value of `package`,
/// if it has one.
pub open spec fn spec_rename_of_fields(fs: Seq<FieldView>) -> Option<Seq<char>> {
    match spec_lookup_field(fs, "package"@) {
        Some(v) => match v {
            ValueView::Text(s) => Some(s),
            _ => None,
        },
        None => None,
    }
}

/// The rename an entry declares, if any: only a record can carry a
/// `package` field.
pub open spec fn spec_rename(e: EntryView) -> Option<Seq<char>> {
    match e {
        EntryView::InlineRecord(fs) => spec_rename_of_fields(fs),
        EntryView::BlockRecord(fs) => spec_rename_of_fields(fs),
        _ => None,
    }
}

/// Reads the explicit rename (`package` field) of a record, if it has a
/// string-valued one.
pub fn get_package_name_from_table(fields: &Vec<Field>) -> (r: Option<String>)
    ensures
        r.deep_view() == spec_rename_of_fields(fields.deep_view()),
{
    let ghost fs = fields.deep_view();
    let mut i: usize = 0;
    while i < fields.len()
        invariant
            i <= fields.len(),
            fs == fields.deep_view(),
            forall|j: int| 0 <= j < i ==> (#[trigger] fs[j]).key != "package"@,
        decreases fields.len() - i,
    {
        if field_key_is(&fields[i], "package") {
            proof {
                lemma_lookup_skip(fs, "package"@, i as int);
                let tail = fs.subrange(i as int, fs.len() as int);
                assert(tail[0] == fs[i as int]);
            }
            match &fields[i].value {
                FieldValue::Text(s) => {
                    return Some(s.clone());
                },
                _ => {
                    return None;
                },
            }
        }
        i = i + 1;
    }
    proof {
        lemma_lookup_absent(fs, "package"@);
    }
    None
}

/// The vendor directory names that exist under the vendor root, as the
/// caller observed them.
pub struct VendorSet {
    pub names: Vec<String>,
}

impl VendorSet {
    /// Whether a directory with exactly this name exists under the vendor
    /// root.
    pub fn contains_key(&self, key: &String) -> (r: bool)
        ensures
            r == self.names.deep_view().contains(key@),
    {
        let mut i: usize = 0;
        while i < self.names.len()
            invariant
                i <= self.names.len(),
                forall|j: int| 0 <= j < i ==> self.names.deep_view()[j] != key@,
            decreases self.names.len() - i,
        {
            if self.names[i].eq(key) {
                proof {
                    assert(self.names.deep_view()[i as int] == key@);
                }
                return true;
            }
            i = i + 1;
        }
        false
    }
}

/// Why an entry was left unmodified, or that it was updated.
#[derive(Clone, Copy, PartialEq, Eq, Structural, Debug)]
pub enum EntryOutcome {
    /// The entry was rewritten to local-path form.
    Updated,
    /// No package in the graph matches the entry's lookup name; the entry
    /// is left as it is (non-fatal).
    NotInGraph,
    /// The matched package has no vendor directory yet; the entry is left
    /// as it is (non-fatal).
    NotVendored,
    /// The entry has a shape the rewrite does not touch.
    OtherShape,
}

/// The text of the relative path from the manifest's directory to the
/// vendor directory named `key`.
pub open spec fn spec_dep_path_text(
    manifest_dir: Seq<Seq<char>>,
    vendor_root: Seq<Seq<char>>,
    key: Seq<char>,
) -> Seq<char> {
    spec_join_path(spec_relative_parts(manifest_dir, vendor_root.push(key)))
}

/// Resolution of one entry against the graph and the vendor root: the
/// local path text and the index of the matched package, when the entry
/// is to be rewritten.
pub open spec fn spec_resolve(
    key: Seq<char>,
    rename: Option<Seq<char>>,
    pkgs: Seq<PackageView>,
    vendored: Seq<Seq<char>>,
    manifest_dir: Seq<Seq<char>>,
    vendor_root: Seq<Seq<char>>,
) -> Option<(Seq<char>, int)> {
    match first_where(pkgs, package_named(spec_lookup_name(key, rename))) {
        None => None,
        Some(i) => {
            let vkey = spec_vendor_key(pkgs[i].name, pkgs[i].version);
            if vendored.contains(vkey) {
                Some((spec_dep_path_text(manifest_dir, vendor_root, vkey), i))
            } else {
                None
            }
        },
    }
}

/// The outcome when an entry with this lookup name is visited.
pub open spec fn spec_outcome_for_name(
    key: Seq<char>,
    rename: Option<Seq<char>>,
    pkgs: Seq<PackageView>,
    vendored: Seq<Seq<char>>,
) -> EntryOutcome {
    match first_where(pkgs, package_named(spec_lookup_name(key, rename))) {
        None => EntryOutcome::NotInGraph,
        Some(i) => if vendored.contains(spec_vendor_key(pkgs[i].name, pkgs[i].version)) {
            EntryOutcome::Updated
        } else {
            EntryOutcome::NotVendored
        },
    }
}

/// Finds the package an entry refers to and, when its vendor directory
/// exists, the path text to write; otherwise says why the entry is
/// skipped.
fn resolve_dependency_target(
    graph: &GraphView,
    dep_name: &String,
    rename: Option<&String>,
    vendored: &VendorSet,
    manifest_dir: &Vec<String>,
    vendor_root: &Vec<String>,
) -> (r: Result<(String, usize), EntryOutcome>)
    ensures
        ({
            let pkgs = graph.packages.deep_view();
            let renv = match rename {
                Some(s) => Some(s@),
                None => None,
            };
            let res = spec_resolve(
                dep_name@,
                renv,
                pkgs,
                vendored.names.deep_view(),
                manifest_dir.deep_view(),
                vendor_root.deep_view(),
            );
            match r {
                Ok(t) => res == Some((t.0@, t.1 as int)) && t.1 < graph.packages.len(),
                Err(o) => res is None && o == spec_outcome_for_name(
                    dep_name@,
                    renv,
                    pkgs,
                    vendored.names.deep_view(),
                ),
            }
        }),
{
    match find_package_for_dependency(graph, dep_name, rename) {
        None => Err(EntryOutcome::NotInGraph),
        Some(i) => {
            let pkg = &graph.packages[i];
            let vkey = vendor_dir_name(&pkg.name, &pkg.version);
            if vendored.contains_key(&vkey) {
                let mut target = clone_strings(vendor_root);
                push_deep(&mut target, vkey);
                let rel = relative_path(manifest_dir, &target);
                let path_text = join_path(&rel);
                Ok((path_text, i))
            } else {
                Err(EntryOutcome::NotVendored)
            }
        },
    }
}

/// Clones a record's fields, preserving the viewed contents.
fn clone_fields(fields: &Vec<Field>) -> (r: Vec<Field>)
    ensures
        r.deep_view() == fields.deep_view(),
{
    let mut out: Vec<Field> = Vec::new();
    let mut i: usize = 0;
    while i < fields.len()
        invariant
            i <= fields.len(),
            out.deep_view() =~= fields.deep_view().subrange(0, i as int),
        decreases fields.len() - i,
    {
        push_deep(&mut out, clone_field(&fields[i]));
        i = i + 1;
        proof {
            assert(out.deep_view() =~= fields.deep_view().subrange(0, i as int));
        }
    }
    proof {
        assert(fields.deep_view().subrange(0, fields.len() as int) =~= fields.deep_view());
    }
    out
}

/// Clones one entry, preserving the viewed contents.
fn clone_entry(e: &DependencyEntry) -> (r: DependencyEntry)
    ensures
        r@ == e@,
{
    match e {
        DependencyEntry::Shorthand(s) => DependencyEntry::Shorthand(s.clone()),
        DependencyEntry::InlineRecord(fs) => DependencyEntry::InlineRecord(clone_fields(fs)),
        DependencyEntry::BlockRecord(fs) => DependencyEntry::BlockRecord(clone_fields(fs)),
        DependencyEntry::Other(n) => DependencyEntry::Other(*n),
    }
}

/// One visited entry after the rewrite rules are applied: a shorthand
/// becomes an inline record of `path` (and `features` when non-empty); a
/// record keeps its other fields, loses the remote-source ones, and gains
/// the local `path` (and `features`); an entry whose package is not in
/// the graph, or not vendored yet, is unchanged.
pub open spec fn spec_rewrite_entry(
    key: Seq<char>,
    e: EntryView,
    pkgs: Seq<PackageView>,
    vendored: Seq<Seq<char>>,
    manifest_dir: Seq<Seq<char>>,
    vendor_root: Seq<Seq<char>>,
) -> EntryView {
    match e {
        EntryView::Other(_) => e,
        _ => match spec_resolve(key, spec_rename(e), pkgs, vendored, manifest_dir, vendor_root) {
            None => e,
            Some(t) => {
                let feats = pkgs[t.1].features;
                match e {
                    EntryView::Shorthand(_) => EntryView::InlineRecord(
                        spec_localized_fields(Seq::empty(), t.0, feats),
                    ),
                    EntryView::InlineRecord(fs) => EntryView::InlineRecord(
                        spec_localized_fields(fs, t.0, feats),
                    ),
                    EntryView::BlockRecord(fs) => EntryView::BlockRecord(
                        spec_localized_fields(fs, t.0, feats),
                    ),
                    EntryView::Other(_) => e,
                }
            },
        },
    }
}

/// The outcome recorded for one visited entry.
pub open spec fn spec_entry_outcome(
    key: Seq<char>,
    e: EntryView,
    pkgs: Seq<PackageView>,
    vendored: Seq<Seq<char>>,
) -> EntryOutcome {
    match e {
        EntryView::Other(_) => EntryOutcome::OtherShape,
        _ => spec_outcome_for_name(key, spec_rename(e), pkgs, vendored),
    }
}

/// Visits one declared entry: rewrites it to local-path form when its
/// package is matched in the graph and vendored, and leaves it unchanged
/// otherwise, reporting what happened.
pub fn rewrite_entry(
    dep_name: &String,
    entry: &DependencyEntry,
    graph: &GraphView,
    vendored: &VendorSet,
    manifest_dir: &Vec<String>,
    vendor_root: &Vec<String>,
) -> (r: (DependencyEntry, EntryOutcome))
    ensures
        r.0@ == spec_rewrite_entry(
            dep_name@,
            entry@,
            graph.packages.deep_view(),
            vendored.names.deep_view(),
            manifest_dir.deep_view(),
            vendor_root.deep_view(),
        ),
        r.1 == spec_entry_outcome(
            dep_name@,
            entry@,
            graph.packages.deep_view(),
            vendored.names.deep_view(),
        ),
{
    match entry {
        DependencyEntry::Other(n) => (DependencyEntry::Other(*n), EntryOutcome::OtherShape),
        DependencyEntry::Shorthand(_) => {
            match resolve_dependency_target(
                graph,
                dep_name,
                None,
                vendored,
                manifest_dir,
                vendor_root,
            ) {
                Err(o) => (clone_entry(entry), o),
                Ok(t) => {
                    let empty_fields: Vec<Field> = Vec::new();
                    proof {
                        assert(empty_fields.deep_view() =~= Seq::<FieldView>::empty());
                    }
                    let fields = localize_fields(&empty_fields, &t.0, &graph.packages[t.1].features);
                    (DependencyEntry::InlineRecord(fields), EntryOutcome::Updated)
                },
            }
        },
        DependencyEntry::InlineRecord(fs) => {
            let rename = get_package_name_from_table(fs);
            match resolve_dependency_target(
                graph,
                dep_name,
                rename.as_ref(),
                vendored,
                manifest_dir,
                vendor_root,
            ) {
                Err(o) => (clone_entry(entry), o),
                Ok(t) => (
                    DependencyEntry::InlineRecord(
                        localize_fields(fs, &t.0, &graph.packages[t.1].features),
                    ),
                    EntryOutcome::Updated,
                ),
            }
        },
        DependencyEntry::BlockRecord(fs) => {
            let rename = get_package_name_from_table(fs);
            match resolve_dependency_target(
                graph,
                dep_name,
                rename.as_ref(),
                vendored,
                manifest_dir,
                vendor_root,
            ) {
                Err(o) => (clone_entry(entry), o),
                Ok(t) => (
                    DependencyEntry::BlockRecord(
                        localize_fields(fs, &t.0, &graph.packages[t.1].features),
                    ),
                    EntryOutcome::Updated,
                ),
            }
        },
    }
}

/// One declared entry of a dependency section: its key and its shape.
#[derive(Debug, PartialEq)]
pub struct ManifestEntry {
    pub key: String,
    pub entry: DependencyEntry,
}

/// Spec-level image of a `ManifestEntry`.
pub ghost struct ManifestEntryView {
    pub key: Seq<char>,
    pub entry: EntryView,
}

impl View for ManifestEntry {
    type V = ManifestEntryView;

    open spec fn view(&self) -> ManifestEntryView {
        ManifestEntryView { key: self.key@, entry: self.entry@ }
    }
}

impl DeepView for ManifestEntry {
    type V = ManifestEntryView;

    open spec fn deep_view(&self) -> ManifestEntryView {
        self.view()
    }
}

/// One visited entry, key kept, shape rewritten.
pub open spec fn spec_rewrite_manifest_entry(
    me: ManifestEntryView,
    pkgs: Seq<PackageView>,
    vendored: Seq<Seq<char>>,
    manifest_dir: Seq<Seq<char>>,
    vendor_root: Seq<Seq<char>>,
) -> ManifestEntryView {
    ManifestEntryView {
        key: me.key,
        entry: spec_rewrite_entry(me.key, me.entry, pkgs, vendored, manifest_dir, vendor_root),
    }
}

/// A whole section's entries after one rewrite pass, in order.
pub open spec fn spec_rewrite_entries(
    es: Seq<ManifestEntryView>,
    pkgs: Seq<PackageView>,
    vendored: Seq<Seq<char>>,
    manifest_dir: Seq<Seq<char>>,
    vendor_root: Seq<Seq<char>>,
) -> Seq<ManifestEntryView> {
    es.map_values(
        |me: ManifestEntryView|
            spec_rewrite_manifest_entry(me, pkgs, vendored, manifest_dir, vendor_root),
    )
}

/// Clones one declared entry, preserving the viewed contents.
fn clone_manifest_entry(me: &ManifestEntry) -> (r: ManifestEntry)
    ensures
        r@ == me@,
{
    ManifestEntry { key: me.key.clone(), entry: clone_entry(&me.entry) }
}

/// Visits every declared entry of one dependency section, rewriting the
/// matched and vendored ones to local-path form in place.
pub fn update_dependencies(
    entries: &mut Vec<ManifestEntry>,
    graph: &GraphView,
    vendored: &VendorSet,
    manifest_dir: &Vec<String>,
    vendor_root: &Vec<String>,
)
    ensures
        final(entries).deep_view() == spec_rewrite_entries(
            old(entries).deep_view(),
            graph.packages.deep_view(),
            vendored.names.deep_view(),
            manifest_dir.deep_view(),
            vendor_root.deep_view(),
        ),
{
    let ghost olds = entries.deep_view();
    let ghost pkgs = graph.packages.deep_view();
    let ghost vset = vendored.names.deep_view();
    let mut out: Vec<ManifestEntry> = Vec::new();
    let mut i: usize = 0;
    while i < entries.len()
        invariant
            i <= entries.len(),
            olds == entries.deep_view(),
            pkgs == graph.packages.deep_view(),
            vset == vendored.names.deep_view(),
            out.deep_view().len() == i,
            forall|k: int| 0 <= k < i ==> out.deep_view()[k] == spec_rewrite_manifest_entry(
                olds[k],
                pkgs,
                vset,
                manifest_dir.deep_view(),
                vendor_root.deep_view(),
            ),
        decreases entries.len() - i,
    {
        let me = &entries[i];
        let rt = rewrite_entry(&me.key, &me.entry, graph, vendored, manifest_dir, vendor_root);
        push_deep(&mut out, ManifestEntry { key: me.key.clone(), entry: rt.0 });
        i = i + 1;
    }
    proof {
        assert(out.deep_view() =~= spec_rewrite_entries(
            olds,
            pkgs,
            vset,
            manifest_dir.deep_view(),
            vendor_root.deep_view(),
        ));
    }
    *entries = out;
}

/// Which dependency section of a manifest a group of entries came from.
#[derive(Clone, Copy, PartialEq, Eq, Structural, Debug)]
pub enum SectionKind {
    /// `dependencies`.
    Normal,
    /// `dev-dependencies`.
    Dev,
    /// `build-dependencies`.
    Build,
}

/// One dependency section: at the document root when `target` is `None`,
/// inside the named platform-conditional block otherwise.
#[derive(Debug, PartialEq)]
pub struct ManifestSection {
    pub target: Option<String>,
    pub kind: SectionKind,
    pub entries: Vec<ManifestEntry>,
}

/// Spec-level image of a `ManifestSection`.
pub ghost struct SectionView {
    pub target: Option<Seq<char>>,
    pub kind: SectionKind,
    pub entries: Seq<ManifestEntryView>,
}

impl View for ManifestSection {
    type V = SectionView;

    open spec fn view(&self) -> SectionView {
        SectionView {
            target: self.target.deep_view(),
            kind: self.kind,
            entries: self.entries.deep_view(),
        }
    }
}

impl DeepView for ManifestSection {
    type V = SectionView;

    open spec fn deep_view(&self) -> SectionView {
        self.view()
    }
}

/// One manifest, reduced to its dependency sections. Everything else in
/// the document is untouched by a rewrite and stays with the caller.
#[derive(Debug, PartialEq)]
pub struct ManifestModel {
    pub sections: Vec<ManifestSection>,
}

/// One section after a rewrite pass: same place, same kind, entries
/// visited in order.
pub open spec fn spec_rewrite_section(
    s: SectionView,
    pkgs: Seq<PackageView>,
    vendored: Seq<Seq<char>>,
    manifest_dir: Seq<Seq<char>>,
    vendor_root: Seq<Seq<char>>,
) -> SectionView {
    SectionView {
        target: s.target,
        kind: s.kind,
        entries: spec_rewrite_entries(s.entries, pkgs, vendored, manifest_dir, vendor_root),
    }
}

/// A whole manifest's sections after one rewrite pass.
pub open spec fn spec_rewrite_sections(
    ss: Seq<SectionView>,
    pkgs: Seq<PackageView>,
    vendored: Seq<Seq<char>>,
    manifest_dir: Seq<Seq<char>>,
    vendor_root: Seq<Seq<char>>,
) -> Seq<SectionView> {
    ss.map_values(
        |s: SectionView| spec_rewrite_section(s, pkgs, vendored, manifest_dir, vendor_root),
    )
}

fn clone_target(t: &Option<String>) -> (r: Option<String>)
    ensures
        r.deep_view() == t.deep_view(),
{
    match t {
        Some(s) => Some(s.clone()),
        None => None,
    }
}

/// Rewrites one manifest in place: every declared entry of each of the
/// three section kinds, at the document root and inside every
/// platform-conditional block, is visited once against the same graph.
pub fn update_single_manifest(
    doc: &mut ManifestModel,
    graph: &GraphView,
    vendored: &VendorSet,
    manifest_dir: &Vec<String>,
    vendor_root: &Vec<String>,
)
    ensures
        final(doc).sections.deep_view() == spec_rewrite_sections(
            old(doc).sections.deep_view(),
            graph.packages.deep_view(),
            vendored.names.deep_view(),
            manifest_dir.deep_view(),
            vendor_root.deep_view(),
        ),
{
    let ghost olds = doc.sections.deep_view();
    let ghost pkgs = graph.packages.deep_view();
    let ghost vset = vendored.names.deep_view();
    let mut out: Vec<ManifestSection> = Vec::new();
    let mut i: usize = 0;
    while i < doc.sections.len()
        invariant
            i <= doc.sections.len(),
            olds == doc.sections.deep_view(),
            pkgs == graph.packages.deep_view(),
            vset == vendored.names.deep_view(),
            out.deep_view().len() == i,
            forall|k: int| 0 <= k < i ==> out.deep_view()[k] == spec_rewrite_section(
                olds[k],
                pkgs,
                vset,
                manifest_dir.deep_view(),
                vendor_root.deep_view(),
            ),
        decreases doc.sections.len() - i,
    {
        let s = &doc.sections[i];
        let mut new_entries: Vec<ManifestEntry> = Vec::new();
        let mut j: usize = 0;
        while j < s.entries.len()
            invariant
                j <= s.entries.len(),
                new_entries.deep_view() =~= s.entries.deep_view().subrange(0, j as int),
            decreases s.entries.len() - j,
        {
            push_deep(&mut new_entries, clone_manifest_entry(&s.entries[j]));
            j = j + 1;
            proof {
                assert(new_entries.deep_view() =~= s.entries.deep_view().subrange(0, j as int));
            }
        }
        proof {
            assert(s.entries.deep_view().subrange(0, s.entries.len() as int) =~= s.entries.deep_view());
        }
        update_dependencies(&mut new_entries, graph, vendored, manifest_dir, vendor_root);
        push_deep(
            &mut out,
            ManifestSection { target: clone_target(&s.target), kind: s.kind, entries: new_entries },
        );
        i = i + 1;
    }
    proof {
        assert(out.deep_view() =~= spec_rewrite_sections(
            olds,
            pkgs,
            vset,
            manifest_dir.deep_view(),
            vendor_root.deep_view(),
        ));
    }
    doc.sections = out;
}

proof fn lemma_distinct_keys()
    ensures
        !is_source_key("path"@),
        !is_source_key("features"@),
        !is_source_key("package"@),
        "path"@ != "features"@,
        "path"@ != "package"@,
        "features"@ != "package"@,
{
    broadcast use vstd::string::group_string_axioms;

    reveal_strlit("version");
    reveal_strlit("git");
    reveal_strlit("branch");
    reveal_strlit("tag");
    reveal_strlit("rev");
    reveal_strlit("registry");
    reveal_strlit("path");
    reveal_strlit("features");
    reveal_strlit("package");
    assert("version"@.len() == 7);
    assert("git"@.len() == 3);
    assert("branch"@.len() == 6);
    assert("tag"@.len() == 3);
    assert("rev"@.len() == 3);
    assert("registry"@.len() == 8);
    assert("path"@.len() == 4);
    assert("features"@.len() == 8);
    assert("package"@.len() == 7);
    assert("features"@[0] == 'f');
    assert("registry"@[0] == 'r');
    assert("package"@[0] == 'p');
    assert("version"@[0] == 'v');
}

/// The fields a rewrite appends after the surviving ones.
pub open spec fn spec_written_fields(path: Seq<char>, feats: Seq<Seq<char>>) -> Seq<FieldView> {
    if feats.len() > 0 {
        seq![path_field(path), features_field(feats)]
    } else {
        seq![path_field(path)]
    }
}

proof fn lemma_suffix_lookup(path: Seq<char>, feats: Seq<Seq<char>>)
    ensures
        spec_lookup_field(spec_written_fields(path, feats), "path"@) == Some(
            ValueView::Text(path),
        ),
        feats.len() > 0 ==> spec_lookup_field(spec_written_fields(path, feats), "features"@)
            == Some(ValueView::List(feats)),
        spec_lookup_field(spec_written_fields(path, feats), "package"@) == None::<ValueView>,
        forall|k: Seq<char>| is_source_key(k) ==> spec_lookup_field(
            spec_written_fields(path, feats),
            k,
        ) is None,
        spec_kept(spec_written_fields(path, feats), feats.len() > 0) == Seq::<FieldView>::empty(),
{
    lemma_distinct_keys();
    let s = spec_written_fields(path, feats);
    assert(s[0] == path_field(path));
    if feats.len() > 0 {
        assert(s.drop_first() =~= seq![features_field(feats)]);
        assert(s.drop_first()[0] == features_field(feats));
        assert(s.drop_first().drop_first() =~= Seq::<FieldView>::empty());
        assert(spec_lookup_field(s.drop_first(), "features"@) == Some(ValueView::List(feats)));
        assert(spec_lookup_field(Seq::<FieldView>::empty(), "package"@) == None::<ValueView>);
        assert(spec_lookup_field(s.drop_first().drop_first(), "package"@) == None::<ValueView>);
        assert(spec_lookup_field(s.drop_first(), "package"@) == None::<ValueView>);
        assert forall|k: Seq<char>| is_source_key(k) implies spec_lookup_field(s, k) is None by {
            assert(s[0].key != k);
            assert(s.drop_first()[0].key != k);
            assert(spec_lookup_field(Seq::<FieldView>::empty(), k) == None::<ValueView>);
            assert(spec_lookup_field(s.drop_first().drop_first(), k) == None::<ValueView>);
            assert(spec_lookup_field(s.drop_first(), k) == None::<ValueView>);
        }
        assert(!keeps_field(s.drop_first()[0], true));
        assert(spec_kept(s.drop_first(), true) == spec_kept(s.drop_first().drop_first(), true));
        assert(spec_kept(s, true) =~= Seq::<FieldView>::empty());
    } else {
        assert(s.drop_first() =~= Seq::<FieldView>::empty());
        assert(spec_lookup_field(Seq::<FieldView>::empty(), "package"@) == None::<ValueView>);
        assert(spec_lookup_field(s.drop_first(), "package"@) == None::<ValueView>);
        assert forall|k: Seq<char>| is_source_key(k) implies spec_lookup_field(s, k) is None by {
            assert(s[0].key != k);
            assert(spec_lookup_field(Seq::<FieldView>::empty(), k) == None::<ValueView>);
            assert(spec_lookup_field(s.drop_first(), k) == None::<ValueView>);
        }
        assert(spec_kept(Seq::<FieldView>::empty(), false) == Seq::<FieldView>::empty());
        assert(spec_kept(s.drop_first(), false) == Seq::<FieldView>::empty());
        assert(spec_kept(s, false) =~= Seq::<FieldView>::empty());
    }
}

/// After a record rewrite, no remote-source field (`version`, `git`,
/// `branch`, `tag`, `rev`, `registry`) remains; `path` holds the local
/// path text; and a non-empty resolved feature set stands in `features`.
pub proof fn lemma_localized_fields_cleansed(
    fs: Seq<FieldView>,
    path: Seq<char>,
    feats: Seq<Seq<char>>,
)
    ensures
        forall|k: Seq<char>| is_source_key(k) ==> spec_lookup_field(
            spec_localized_fields(fs, path, feats),
            k,
        ) is None,
        spec_lookup_field(spec_localized_fields(fs, path, feats), "path"@) == Some(
            ValueView::Text(path),
        ),
        feats.len() > 0 ==> spec_lookup_field(spec_localized_fields(fs, path, feats), "features"@)
            == Some(ValueView::List(feats)),
{
    lemma_distinct_keys();
    let b = feats.len() > 0;
    let base = spec_kept(fs, b);
    let suffix = spec_written_fields(path, feats);
    assert(spec_localized_fields(fs, path, feats) == base + suffix);
    lemma_kept_elements(fs, b);
    lemma_suffix_lookup(path, feats);
    assert forall|k: Seq<char>| is_source_key(k) implies spec_lookup_field(
        base + suffix,
        k,
    ) is None by {
        assert forall|t: int| 0 <= t < base.len() implies (#[trigger] base[t]).key != k by {
            assert(keeps_field(base[t], b));
        }
        lemma_lookup_absent(base, k);
        lemma_lookup_append(base, suffix, k);
    }
    assert forall|t: int| 0 <= t < base.len() implies (#[trigger] base[t]).key != "path"@ by {
        assert(keeps_field(base[t], b));
    }
    lemma_lookup_absent(base, "path"@);
    lemma_lookup_append(base, suffix, "path"@);
    if b {
        assert forall|t: int| 0 <= t < base.len() implies (#[trigger] base[t]).key
            != "features"@ by {
            assert(keeps_field(base[t], b));
        }
        lemma_lookup_absent(base, "features"@);
        lemma_lookup_append(base, suffix, "features"@);
    }
}

/// The fields of a record-shaped entry, empty for the other shapes.
pub open spec fn spec_entry_fields(e: EntryView) -> Seq<FieldView> {
    match e {
        EntryView::InlineRecord(fs) => fs,
        EntryView::BlockRecord(fs) => fs,
        _ => Seq::empty(),
    }
}

proof fn lemma_localized_rename(fs: Seq<FieldView>, path: Seq<char>, feats: Seq<Seq<char>>)
    ensures
        spec_rename_of_fields(spec_localized_fields(fs, path, feats)) == spec_rename_of_fields(
            spec_kept(fs, feats.len() > 0),
        ),
        spec_rename_of_fields(spec_kept(fs, feats.len() > 0)) == spec_rename_of_fields(fs),
{
    lemma_distinct_keys();
    let b = feats.len() > 0;
    let base = spec_kept(fs, b);
    let suffix = spec_written_fields(path, feats);
    assert(spec_localized_fields(fs, path, feats) == base + suffix);
    lemma_lookup_append(base, suffix, "package"@);
    lemma_suffix_lookup(path, feats);
    lemma_lookup_kept(fs, b, "package"@);
}

proof fn lemma_localized_fields_stable(fs: Seq<FieldView>, path: Seq<char>, feats: Seq<Seq<char>>)
    ensures
        spec_localized_fields(spec_localized_fields(fs, path, feats), path, feats)
            == spec_localized_fields(fs, path, feats),
{
    lemma_distinct_keys();
    let b = feats.len() > 0;
    let base = spec_kept(fs, b);
    let suffix = spec_written_fields(path, feats);
    let f1 = spec_localized_fields(fs, path, feats);
    assert(f1 == base + suffix);
    lemma_kept_add(base, suffix, b);
    lemma_kept_idempotent(fs, b);
    lemma_suffix_lookup(path, feats);
    assert(spec_kept(f1, b) == base + Seq::<FieldView>::empty());
    assert(base + Seq::<FieldView>::empty() =~= base);
    assert(spec_localized_fields(f1, path, feats) == base + suffix);
}

/// Rewriting is idempotent at the entry level: a second pass over an
/// already-rewritten entry, against the same graph and vendor state,
/// changes nothing.
pub proof fn lemma_rewrite_entry_idempotent(
    key: Seq<char>,
    e: EntryView,
    pkgs: Seq<PackageView>,
    vendored: Seq<Seq<char>>,
    manifest_dir: Seq<Seq<char>>,
    vendor_root: Seq<Seq<char>>,
)
    ensures
        spec_rewrite_entry(
            key,
            spec_rewrite_entry(key, e, pkgs, vendored, manifest_dir, vendor_root),
            pkgs,
            vendored,
            manifest_dir,
            vendor_root,
        ) == spec_rewrite_entry(key, e, pkgs, vendored, manifest_dir, vendor_root),
{
    let e1 = spec_rewrite_entry(key, e, pkgs, vendored, manifest_dir, vendor_root);
    match e {
        EntryView::Other(_) => {},
        _ => {
            let ren = spec_rename(e);
            match spec_resolve(key, ren, pkgs, vendored, manifest_dir, vendor_root) {
                None => {},
                Some(t) => {
                    let path = t.0;
                    let feats = pkgs[t.1].features;
                    let fs0 = spec_entry_fields(e);
                    let fs1 = spec_localized_fields(fs0, path, feats);
                    lemma_localized_rename(fs0, path, feats);
                    match e {
                        EntryView::Shorthand(_) => {
                            lemma_suffix_lookup(path, feats);
                            assert(spec_kept(Seq::<FieldView>::empty(), feats.len() > 0)
                                =~= Seq::<FieldView>::empty());
                            assert(spec_rename(e1) == None::<Seq<char>>);
                            assert(spec_rename(e1) == ren);
                        },
                        _ => {
                            assert(spec_rename(e1) == spec_rename_of_fields(fs1));
                            assert(spec_rename(e1) == ren);
                        },
                    }
                    lemma_localized_fields_stable(fs0, path, feats);
                },
            }
        },
    }
}

/// Rewriting is idempotent over a whole section's entries.
pub proof fn lemma_rewrite_entries_idempotent(
    es: Seq<ManifestEntryView>,
    pkgs: Seq<PackageView>,
    vendored: Seq<Seq<char>>,
    manifest_dir: Seq<Seq<char>>,
    vendor_root: Seq<Seq<char>>,
)
    ensures
        spec_rewrite_entries(
            spec_rewrite_entries(es, pkgs, vendored, manifest_dir, vendor_root),
            pkgs,
            vendored,
            manifest_dir,
            vendor_root,
        ) == spec_rewrite_entries(es, pkgs, vendored, manifest_dir, vendor_root),
{
    let once = spec_rewrite_entries(es, pkgs, vendored, manifest_dir, vendor_root);
    let twice = spec_rewrite_entries(once, pkgs, vendored, manifest_dir, vendor_root);
    assert forall|i: int| 0 <= i < es.len() implies twice[i] == once[i] by {
        lemma_rewrite_entry_idempotent(
            es[i].key,
            es[i].entry,
            pkgs,
            vendored,
            manifest_dir,
            vendor_root,
        );
    }
    assert(twice =~= once);
}

/// Rewriting is idempotent over a whole manifest: a second pass over all
/// sections, against the same graph and vendor state, changes nothing.
pub proof fn lemma_rewrite_sections_idempotent(
    ss: Seq<SectionView>,
    pkgs: Seq<PackageView>,
    vendored: Seq<Seq<char>>,
    manifest_dir: Seq<Seq<char>>,
    vendor_root: Seq<Seq<char>>,
)
    ensures
        spec_rewrite_sections(
            spec_rewrite_sections(ss, pkgs, vendored, manifest_dir, vendor_root),
            pkgs,
            vendored,
            manifest_dir,
            vendor_root,
        ) == spec_rewrite_sections(ss, pkgs, vendored, manifest_dir, vendor_root),
{
    let once = spec_rewrite_sections(ss, pkgs, vendored, manifest_dir, vendor_root);
    let twice = spec_rewrite_sections(once, pkgs, vendored, manifest_dir, vendor_root);
    assert forall|i: int| 0 <= i < ss.len() implies twice[i] == once[i] by {
        lemma_rewrite_entries_idempotent(
            ss[i].entries,
            pkgs,
            vendored,
            manifest_dir,
            vendor_root,
        );
    }
    assert(twice =~= once);
}

/// An entry that resolves to a workspace member is never modified, as
/// long as every existing vendor directory was vendored for some
/// non-member package and no non-member shares the member's
/// `{name}-{version}` key.
pub proof fn lemma_workspace_member_entry_unchanged(
    key: Seq<char>,
    e: EntryView,
    pkgs: Seq<PackageView>,
    vendored: Seq<Seq<char>>,
    wroot: Seq<Seq<char>>,
    manifest_dir: Seq<Seq<char>>,
    vendor_root: Seq<Seq<char>>,
    i: int,
)
    requires
        first_where(pkgs, package_named(spec_lookup_name(key, spec_rename(e)))) == Some(i),
        0 <= i < pkgs.len(),
        crate::paths::is_path_prefix(wroot, pkgs[i].manifest_path),
        forall|k: Seq<char>| vendored.contains(k)
            ==> crate::vendor::spec_vendor_candidates(pkgs, wroot).contains(k),
        forall|j: int|
            0 <= j < pkgs.len() && spec_vendor_key((#[trigger] pkgs[j]).name, pkgs[j].version)
                == spec_vendor_key(pkgs[i].name, pkgs[i].version) ==> crate::paths::is_path_prefix(
                wroot,
                pkgs[j].manifest_path,
            ),
    ensures
        spec_rewrite_entry(key, e, pkgs, vendored, manifest_dir, vendor_root) == e,
{
    let vkey = spec_vendor_key(pkgs[i].name, pkgs[i].version);
    if vendored.contains(vkey) {
        crate::vendor::lemma_candidates_from_packages(pkgs, wroot);
        assert(crate::vendor::spec_vendor_candidates(pkgs, wroot).contains(vkey));
        let j = choose|j: int|
            0 <= j < pkgs.len() && !crate::paths::is_path_prefix(
                wroot,
                (#[trigger] pkgs[j]).manifest_path,
            ) && spec_vendor_key(pkgs[j].name, pkgs[j].version) == vkey;
        assert(crate::paths::is_path_prefix(wroot, pkgs[j].manifest_path));
        assert(false);
    }
}

/// One-shot backup policy: a manifest is backed up before its first
/// rewrite only; once a backup sidecar exists it is never refreshed.
pub fn needs_backup(backup_exists: bool) -> (r: bool)
    ensures
        r == !backup_exists,
{
    !backup_exists
}

} // verus!
