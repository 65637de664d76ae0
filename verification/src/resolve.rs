//! Reconciling one package against the resolved graph, and assembling its
//! derivation descriptor.
//!
//! The reconciler locates the package's graph node and the concrete packages
//! its edges point to, sorted ascending by package identifier. The matcher
//! pairs resolved edges with declared dependencies of a requested kind by
//! normalized name. The assembler adds target classification, the
//! root-relative source directory and workspace membership, and emits one
//! immutable descriptor.

use crate::model::{
    clone_dependencies, clone_strings, dep_views, str_views, target_views, Dependency,
    DependencyView, GenerateConfig, GraphInconsistency, IndexedMetadata, KindPredicate, Node,
    Package, PackageView, Target, TargetKind, Version,
};
use crate::names::{names_match, normalize};
use crate::paths::{is_plain_path, join_components, join_path, relative_source_dir, source_dir};
use vstd::prelude::*;

verus! {

/// The views of a sequence of packages.
pub open spec fn pkg_views(s: Seq<Package>) -> Seq<PackageView> {
    s.map_values(|p: Package| p@)
}

/// The packages the given edges point to, in edge order.
pub open spec fn edge_packages(pkgs: Map<u64, Package>, deps: Seq<u64>) -> Seq<PackageView> {
    deps.map_values(|id: u64| pkgs[id]@)
}

/// Insert a package into an id-sorted sequence, after every entry whose
/// identifier is not greater.
pub open spec fn insert_by_id(s: Seq<PackageView>, p: PackageView) -> Seq<PackageView>
    decreases s.len(),
{
    if s.len() == 0 {
        seq![p]
    } else if p.id < s[0].id {
        seq![p] + s
    } else {
        seq![s[0]] + insert_by_id(s.drop_first(), p)
    }
}

/// Sort packages ascending by package identifier, by insertion.
pub open spec fn sort_by_id(s: Seq<PackageView>) -> Seq<PackageView>
    decreases s.len(),
{
    if s.len() == 0 {
        Seq::empty()
    } else {
        insert_by_id(sort_by_id(s.drop_last()), s.last())
    }
}

/// The first edge identifier, in edge order, that the package index has no
/// entry for.
pub open spec fn first_dangling(pkgs: Map<u64, Package>, deps: Seq<u64>) -> Option<u64>
    decreases deps.len(),
{
    if deps.len() == 0 {
        None
    } else if !pkgs.contains_key(deps[0]) {
        Some(deps[0])
    } else {
        first_dangling(pkgs, deps.drop_first())
    }
}

proof fn lemma_first_dangling_none(pkgs: Map<u64, Package>, deps: Seq<u64>)
    requires
        forall|j: int| 0 <= j < deps.len() ==> pkgs.contains_key(#[trigger] deps[j]),
    ensures
        first_dangling(pkgs, deps) is None,
    decreases deps.len(),
{
    if deps.len() > 0 {
        lemma_first_dangling_none(pkgs, deps.drop_first());
    }
}

proof fn lemma_first_dangling_at(pkgs: Map<u64, Package>, deps: Seq<u64>, i: int)
    requires
        0 <= i < deps.len(),
        forall|j: int| 0 <= j < i ==> pkgs.contains_key(#[trigger] deps[j]),
        !pkgs.contains_key(deps[i]),
    ensures
        first_dangling(pkgs, deps) == Some(deps[i]),
    decreases i,
{
    if i == 0 {
    } else {
        assert(pkgs.contains_key(deps[0]));
        lemma_first_dangling_at(pkgs, deps.drop_first(), i - 1);
    }
}

proof fn lemma_insert_by_id_split(s: Seq<PackageView>, p: PackageView, i: int)
    requires
        0 <= i <= s.len(),
        forall|j: int| 0 <= j < i ==> (#[trigger] s[j]).id <= p.id,
        i < s.len() ==> s[i].id > p.id,
    ensures
        insert_by_id(s, p) == s.subrange(0, i) + seq![p] + s.subrange(i, s.len() as int),
    decreases i,
{
    if i == 0 {
        if s.len() == 0 {
            assert(insert_by_id(s, p) =~= s.subrange(0, 0) + seq![p] + s.subrange(0, 0));
        } else {
            assert(insert_by_id(s, p) =~= s.subrange(0, 0) + seq![p] + s.subrange(
                0,
                s.len() as int,
            ));
        }
    } else {
        let rest = s.drop_first();
        assert(forall|j: int| 0 <= j < i - 1 ==> (#[trigger] rest[j]).id == s[j + 1].id);
        lemma_insert_by_id_split(rest, p, i - 1);
        assert(insert_by_id(s, p) =~= s.subrange(0, i) + seq![p] + s.subrange(i, s.len() as int));
    }
}

/// Insert a package into a vector kept sorted ascending by identifier.
fn insert_sorted(v: &mut Vec<Package>, p: Package)
    ensures
        pkg_views(final(v)@) == insert_by_id(pkg_views(old(v)@), p@),
{
    let ghost orig = v@;
    let mut idx: usize = 0;
    while idx < v.len() && v[idx].id <= p.id
        invariant
            v@ == orig,
            idx <= v@.len(),
            forall|j: int| 0 <= j < idx ==> (#[trigger] v@[j]).id <= p.id,
        decreases v.len() - idx,
    {
        idx = idx + 1;
    }
    proof {
        assert(forall|j: int|
            0 <= j < idx ==> (#[trigger] pkg_views(orig)[j]).id <= p@.id);
        lemma_insert_by_id_split(pkg_views(orig), p@, idx as int);
    }
    v.insert(idx, p);
    proof {
        let pv = pkg_views(orig);
        assert(pkg_views(v@) =~= pv.subrange(0, idx as int) + seq![p@] + pv.subrange(
            idx as int,
            pv.len() as int,
        ));
    }
}

/// The resolved dependencies of one package: its graph node, the concrete
/// packages of the node's edges sorted ascending by package identifier, and
/// the package's own declared dependencies.
pub struct ResolvedDependencies {
    /// The node corresponding to the package.
    pub node: Node,
    /// The packages the node's edges point to, ascending by identifier.
    pub packages: Vec<Package>,
    /// The dependencies declared in the package's manifest.
    pub dependencies: Vec<Dependency>,
}

impl ResolvedDependencies {
    /// Locate `package`'s graph node and the package record of every edge.
    ///
    /// Succeeds exactly when the graph has a node for the package and no
    /// edge dangles; the first dangling edge, in edge order, is the one
    /// reported.
    pub fn new(metadata: &IndexedMetadata, package: &Package) -> (r: Result<
        ResolvedDependencies,
        GraphInconsistency,
    >)
        ensures
            match r {
                Ok(rd) => {
                    &&& metadata.nodes_by_id@.contains_key(package.id)
                    &&& first_dangling(
                        metadata.pkgs_by_id@,
                        metadata.nodes_by_id@[package.id]@.deps,
                    ) is None
                    &&& rd.node@ == metadata.nodes_by_id@[package.id]@
                    &&& pkg_views(rd.packages@) == sort_by_id(
                        edge_packages(
                            metadata.pkgs_by_id@,
                            metadata.nodes_by_id@[package.id]@.deps,
                        ),
                    )
                    &&& rd.dependencies@ == package.dependencies@
                },
                Err(GraphInconsistency::MissingNode { package_id }) => {
                    &&& package_id == package.id
                    &&& !metadata.nodes_by_id@.contains_key(package.id)
                },
                Err(GraphInconsistency::DanglingEdge { package_id, dependency_id }) => {
                    &&& package_id == package.id
                    &&& metadata.nodes_by_id@.contains_key(package.id)
                    &&& first_dangling(
                        metadata.pkgs_by_id@,
                        metadata.nodes_by_id@[package.id]@.deps,
                    ) == Some(dependency_id)
                },
            },
    {
        broadcast use vstd::std_specs::hash::group_hash_axioms;

        let node = match metadata.nodes_by_id.get(&package.id) {
            Some(n) => n.duplicate(),
            None => {
                return Err(GraphInconsistency::MissingNode { package_id: package.id });
            },
        };
        let ghost edges = metadata.nodes_by_id@[package.id]@.deps;
        let mut packages: Vec<Package> = Vec::new();
        let mut i: usize = 0;
        while i < node.deps.len()
            invariant
                metadata.nodes_by_id@.contains_key(package.id),
                edges == metadata.nodes_by_id@[package.id]@.deps,
                node@.deps == edges,
                i <= edges.len(),
                forall|j: int|
                    0 <= j < i ==> metadata.pkgs_by_id@.contains_key(#[trigger] edges[j]),
                pkg_views(packages@) == sort_by_id(
                    edge_packages(metadata.pkgs_by_id@, edges.subrange(0, i as int)),
                ),
            decreases node.deps.len() - i,
        {
            broadcast use vstd::std_specs::hash::group_hash_axioms;

            let id = node.deps[i];
            match metadata.pkgs_by_id.get(&id) {
                None => {
                    proof {
                        lemma_first_dangling_at(metadata.pkgs_by_id@, edges, i as int);
                    }
                    return Err(
                        GraphInconsistency::DanglingEdge {
                            package_id: package.id,
                            dependency_id: id,
                        },
                    );
                },
                Some(p) => {
                    let cp = p.duplicate();
                    insert_sorted(&mut packages, cp);
                    proof {
                        let m = metadata.pkgs_by_id@;
                        assert(edge_packages(m, edges.subrange(0, i + 1 as int)).drop_last()
                            =~= edge_packages(m, edges.subrange(0, i as int)));
                        assert(edge_packages(m, edges.subrange(0, i + 1 as int)).last()
                            == m[edges[i as int]]@);
                    }
                },
            }
            i = i + 1;
        }
        proof {
            assert(edges.subrange(0, edges.len() as int) == edges);
            lemma_first_dangling_none(metadata.pkgs_by_id@, edges);
        }
        let dependencies = clone_dependencies(&package.dependencies);
        Ok(ResolvedDependencies { node, packages, dependencies })
    }
}

/// A resolved dependency of one package: the identifier of the concrete
/// dependency package, paired with the platform condition of the declared
/// dependency it was matched against.
#[derive(Clone, Debug, PartialEq, Eq)]
pub struct ResolvedDependency {
    pub package_id: u64,
    /// The configuration predicate or platform-triplet string gating the
    /// dependency, if the declared dependency carried one.
    pub target: Option<String>,
}

/// The mathematical view of a [`ResolvedDependency`].
pub struct ResolvedDependencyView {
    pub package_id: u64,
    pub target: Option<Seq<char>>,
}

impl View for ResolvedDependency {
    type V = ResolvedDependencyView;

    open spec fn view(&self) -> ResolvedDependencyView {
        ResolvedDependencyView {
            package_id: self.package_id,
            target: match self.target {
                Some(t) => Some(t@),
                None => None,
            },
        }
    }
}

/// The views of a sequence of resolved dependencies.
pub open spec fn rd_views(s: Seq<ResolvedDependency>) -> Seq<ResolvedDependencyView> {
    s.map_values(|d: ResolvedDependency| d@)
}

/// The declared dependency a resolved edge of the given name is matched
/// against: the last declared dependency, in manifest order, that satisfies
/// the kind predicate and has the same normalized name. Keeping the last
/// such declaration is this library's deterministic policy for duplicate
/// declared names of one kind.
pub open spec fn find_match(
    deps: Seq<DependencyView>,
    f: KindPredicate,
    name: Seq<char>,
) -> Option<DependencyView>
    decreases deps.len(),
{
    if deps.len() == 0 {
        None
    } else if f.spec_accepts(deps.last().kind) && normalize(deps.last().name) == normalize(name) {
        Some(deps.last())
    } else {
        find_match(deps.drop_last(), f, name)
    }
}

/// The resolved-dependency entry one edge package contributes: its
/// identifier paired with the matched declaration's platform condition, or
/// nothing when no declared dependency of the requested kind matches.
pub open spec fn resolved_entry(
    p: PackageView,
    deps: Seq<DependencyView>,
    f: KindPredicate,
) -> Seq<ResolvedDependencyView> {
    match find_match(deps, f, p.name) {
        Some(d) => seq![ResolvedDependencyView { package_id: p.id, target: d.target }],
        None => Seq::empty(),
    }
}

/// The resolved dependencies of the given kinds: each edge package's entry,
/// in edge-package order.
pub open spec fn resolved_deps(
    pkgs: Seq<PackageView>,
    deps: Seq<DependencyView>,
    f: KindPredicate,
) -> Seq<ResolvedDependencyView>
    decreases pkgs.len(),
{
    if pkgs.len() == 0 {
        Seq::empty()
    } else {
        resolved_deps(pkgs.drop_last(), deps, f) + resolved_entry(pkgs.last(), deps, f)
    }
}

impl ResolvedDependencies {
    /// The index of the declared dependency that edges named `name` are
    /// matched against, under the kind predicate `filter`.
    fn find_declared(&self, filter: KindPredicate, name: &String) -> (r: Option<usize>)
        ensures
            match r {
                Some(j) => {
                    &&& j < self.dependencies@.len()
                    &&& find_match(dep_views(self.dependencies@), filter, name@) == Some(
                        self.dependencies@[j as int]@,
                    )
                },
                None => find_match(dep_views(self.dependencies@), filter, name@) is None,
            },
    {
        let ghost dv = dep_views(self.dependencies@);
        let mut j: usize = self.dependencies.len();
        proof {
            assert(dv.subrange(0, j as int) =~= dv);
        }
        while j > 0
            invariant
                j <= self.dependencies@.len(),
                dv == dep_views(self.dependencies@),
                find_match(dv.subrange(0, j as int), filter, name@) == find_match(
                    dv,
                    filter,
                    name@,
                ),
            decreases j,
        {
            let jj = j - 1;
            let d = &self.dependencies[jj];
            proof {
                assert(dv.subrange(0, jj + 1 as int).last() == d@);
                assert(dv.subrange(0, jj + 1 as int).drop_last() =~= dv.subrange(0, jj as int));
            }
            if filter.accepts(d.kind) && names_match(&d.name, name) {
                return Some(jj);
            }
            j = jj;
        }
        proof {
            assert(dv.subrange(0, 0) =~= Seq::<DependencyView>::empty());
        }
        None
    }

    /// The ordered resolved dependencies whose declared kind satisfies the
    /// given predicate: for each edge package in ascending-identifier order,
    /// the entry its matched declaration yields, if any.
    pub fn filtered_dependencies(&self, filter: KindPredicate) -> (r: Vec<ResolvedDependency>)
        ensures
            rd_views(r@) == resolved_deps(
                pkg_views(self.packages@),
                dep_views(self.dependencies@),
                filter,
            ),
    {
        let ghost pv = pkg_views(self.packages@);
        let ghost dv = dep_views(self.dependencies@);
        let mut r: Vec<ResolvedDependency> = Vec::new();
        let mut i: usize = 0;
        while i < self.packages.len()
            invariant
                i <= self.packages@.len(),
                pv == pkg_views(self.packages@),
                dv == dep_views(self.dependencies@),
                rd_views(r@) == resolved_deps(pv.subrange(0, i as int), dv, filter),
            decreases self.packages.len() - i,
        {
            let p = &self.packages[i];
            match self.find_declared(filter, &p.name) {
                Some(j) => {
                    let d = &self.dependencies[j];
                    let target = match &d.target {
                        Some(t) => Some(t.clone()),
                        None => None,
                    };
                    r.push(ResolvedDependency { package_id: p.id, target });
                },
                None => {},
            }
            proof {
                assert(pv.subrange(0, i + 1 as int).last() == p@);
                assert(pv.subrange(0, i + 1 as int).drop_last() =~= pv.subrange(0, i as int));
                assert(rd_views(r@) =~= resolved_deps(pv.subrange(0, i + 1 as int), dv, filter));
            }
            i = i + 1;
        }
        proof {
            assert(pv.subrange(0, pv.len() as int) =~= pv);
        }
        r
    }
}

/// The first target carrying the given kind tag, in target order.
pub open spec fn first_with_kind(
    ts: Seq<crate::model::TargetView>,
    k: TargetKind,
) -> Option<crate::model::TargetView>
    decreases ts.len(),
{
    if ts.len() == 0 {
        None
    } else if ts[0].kinds.contains(k) {
        Some(ts[0])
    } else {
        first_with_kind(ts.drop_first(), k)
    }
}

proof fn lemma_first_with_kind_none(ts: Seq<crate::model::TargetView>, k: TargetKind)
    requires
        forall|j: int| 0 <= j < ts.len() ==> !(#[trigger] ts[j]).kinds.contains(k),
    ensures
        first_with_kind(ts, k) is None,
    decreases ts.len(),
{
    if ts.len() > 0 {
        lemma_first_with_kind_none(ts.drop_first(), k);
    }
}

proof fn lemma_first_with_kind_at(ts: Seq<crate::model::TargetView>, k: TargetKind, i: int)
    requires
        0 <= i < ts.len(),
        forall|j: int| 0 <= j < i ==> !(#[trigger] ts[j]).kinds.contains(k),
        ts[i].kinds.contains(k),
    ensures
        first_with_kind(ts, k) == Some(ts[i]),
    decreases i,
{
    if i > 0 {
        lemma_first_with_kind_at(ts.drop_first(), k, i - 1);
    }
}

/// The components of `path` below the directory `dir`, or nothing when
/// `path` does not lie below `dir`.
pub open spec fn strip_prefix(path: Seq<Seq<char>>, dir: Seq<Seq<char>>) -> Option<Seq<Seq<char>>> {
    if dir.is_prefix_of(path) {
        Some(path.subrange(dir.len() as int, path.len() as int))
    } else {
        None
    }
}

/// The manifest-relative source entry of the first target of the given
/// kind: nothing when no target carries the kind, and also nothing when
/// that target's source path cannot be expressed below the manifest
/// directory.
pub open spec fn target_rel_path(
    ts: Seq<crate::model::TargetView>,
    k: TargetKind,
    dir: Seq<Seq<char>>,
) -> Option<Seq<char>> {
    match first_with_kind(ts, k) {
        None => None,
        Some(t) => match strip_prefix(t.src_path, dir) {
            None => None,
            Some(rel) => Some(join_path(rel)),
        },
    }
}

/// Whether one target carries the given kind tag.
fn has_kind(t: &Target, k: TargetKind) -> (r: bool)
    ensures
        r == t@.kinds.contains(k),
{
    let mut i: usize = 0;
    while i < t.kinds.len()
        invariant
            i <= t.kinds@.len(),
            forall|j: int| 0 <= j < i ==> t.kinds@[j] != k,
        decreases t.kinds.len() - i,
    {
        if t.kinds[i] == k {
            return true;
        }
        i = i + 1;
    }
    false
}

/// Whether some target of the sequence carries the given kind tag.
pub open spec fn some_target_has_kind(ts: Seq<crate::model::TargetView>, k: TargetKind) -> bool {
    exists|i: int| 0 <= i < ts.len() && (#[trigger] ts[i]).kinds.contains(k)
}

/// Whether any target carries the given kind tag.
fn any_target_with_kind(targets: &Vec<Target>, k: TargetKind) -> (r: bool)
    ensures
        r == some_target_has_kind(target_views(targets@), k),
{
    let ghost tv = target_views(targets@);
    let mut i: usize = 0;
    while i < targets.len()
        invariant
            tv == target_views(targets@),
            i <= tv.len(),
            forall|j: int| 0 <= j < i ==> !(#[trigger] tv[j]).kinds.contains(k),
        decreases targets.len() - i,
    {
        if has_kind(&targets[i], k) {
            proof {
                assert(tv[i as int].kinds.contains(k));
            }
            return true;
        }
        i = i + 1;
    }
    false
}

/// The components of `path` below `dir`, or nothing when `path` does not
/// lie below `dir`.
fn strip_prefix_vec(path: &Vec<String>, dir: &Vec<String>) -> (r: Option<Vec<String>>)
    ensures
        match r {
            Some(rel) => strip_prefix(str_views(path@), str_views(dir@)) == Some(
                str_views(rel@),
            ),
            None => strip_prefix(str_views(path@), str_views(dir@)) is None,
        },
{
    let ghost pv = str_views(path@);
    let ghost dv = str_views(dir@);
    if dir.len() > path.len() {
        return None;
    }
    let mut i: usize = 0;
    while i < dir.len()
        invariant
            pv == str_views(path@),
            dv == str_views(dir@),
            dv.len() <= pv.len(),
            i <= dv.len(),
            forall|j: int| 0 <= j < i ==> pv[j] == dv[j],
        decreases dir.len() - i,
    {
        if !(path[i] == dir[i]) {
            proof {
                assert(pv[i as int] != dv[i as int]);
                assert(pv.subrange(0, dv.len() as int)[i as int] == pv[i as int]);
            }
            return None;
        }
        i = i + 1;
    }
    proof {
        assert(dv =~= pv.subrange(0, dv.len() as int));
    }
    let mut rel: Vec<String> = Vec::new();
    let mut j: usize = dir.len();
    while j < path.len()
        invariant
            pv == str_views(path@),
            dv == str_views(dir@),
            dv.is_prefix_of(pv),
            dv.len() <= j <= pv.len(),
            rel@.len() == j - dv.len(),
            forall|k: int| 0 <= k < rel@.len() ==> (#[trigger] rel@[k])@ == path@[dv.len() + k]@,
        decreases path.len() - j,
    {
        rel.push(path[j].clone());
        j = j + 1;
    }
    proof {
        assert forall|k: int|
            0 <= k < rel@.len() implies str_views(rel@)[k] == pv.subrange(
            dv.len() as int,
            pv.len() as int,
        )[k] by {
            assert(rel@[k]@ == path@[dv.len() + k]@);
            assert(pv[dv.len() + k] == path@[dv.len() + k]@);
        }
        assert(str_views(rel@) =~= pv.subrange(dv.len() as int, pv.len() as int));
    }
    Some(rel)
}

/// The manifest-relative source entry of the first target of the given
/// kind, textually.
fn relative_target_path(targets: &Vec<Target>, k: TargetKind, dir: &Vec<String>) -> (r: Option<
    String,
>)
    ensures
        match r {
            Some(s) => target_rel_path(target_views(targets@), k, str_views(dir@)) == Some(s@),
            None => target_rel_path(target_views(targets@), k, str_views(dir@)) is None,
        },
{
    let ghost tv = target_views(targets@);
    let mut i: usize = 0;
    while i < targets.len()
        invariant
            tv == target_views(targets@),
            i <= tv.len(),
            forall|j: int| 0 <= j < i ==> !(#[trigger] tv[j]).kinds.contains(k),
        decreases targets.len() - i,
    {
        let t = &targets[i];
        if has_kind(t, k) {
            proof {
                lemma_first_with_kind_at(tv, k, i as int);
            }
            return match strip_prefix_vec(&t.src_path, dir) {
                Some(rel) => Some(join_components(&rel)),
                None => None,
            };
        }
        i = i + 1;
    }
    proof {
        lemma_first_with_kind_none(tv, k);
    }
    None
}

/// Whether the package is the declared root or a workspace member.
fn is_member(metadata: &IndexedMetadata, id: u64) -> (r: bool)
    ensures
        r == (metadata.root == Some(id) || metadata.workspace_members@.contains(id)),
{
    let root_hit = match metadata.root {
        Some(rid) => rid == id,
        None => false,
    };
    if root_hit {
        return true;
    }
    let mut i: usize = 0;
    while i < metadata.workspace_members.len()
        invariant
            i <= metadata.workspace_members@.len(),
            forall|j: int| 0 <= j < i ==> metadata.workspace_members@[j] != id,
        decreases metadata.workspace_members.len() - i,
    {
        if metadata.workspace_members[i] == id {
            return true;
        }
        i = i + 1;
    }
    false
}

/// All data necessary for creating a derivation for a crate: one package's
/// identity, root-relative source location, classified targets, features,
/// and its resolved dependency edges split by declared kind.
#[derive(Clone, Debug, PartialEq, Eq)]
pub struct CrateDerivation {
    pub package_id: u64,
    pub crate_name: String,
    pub edition: String,
    pub authors: Vec<String>,
    pub version: Version,
    /// The source directory relative to the configured root.
    pub source_directory: String,
    /// The content hash; absent here, filled by a later external pass.
    pub sha256: Option<String>,
    /// Resolved runtime dependencies, ascending by package identifier.
    pub dependencies: Vec<ResolvedDependency>,
    /// Resolved build-time dependencies, ascending by package identifier.
    pub build_dependencies: Vec<ResolvedDependency>,
    /// The active features, in the order the graph reports them.
    pub features: Vec<String>,
    /// The relative path to the build script.
    pub build: Option<String>,
    /// The relative path to the library entry point.
    pub lib_path: Option<String>,
    pub has_bin: bool,
    pub proc_macro: bool,
    /// This derivation builds the root crate or a workspace member.
    pub is_root_or_workspace_member: bool,
}

/// The view of an optional string.
pub open spec fn opt_view(o: Option<String>) -> Option<Seq<char>> {
    match o {
        Some(s) => Some(s@),
        None => None,
    }
}

/// The mathematical view of a [`CrateDerivation`].
pub struct CrateDerivationView {
    pub package_id: u64,
    pub crate_name: Seq<char>,
    pub edition: Seq<char>,
    pub authors: Seq<Seq<char>>,
    pub version: Version,
    pub source_directory: Seq<char>,
    pub sha256: Option<Seq<char>>,
    pub dependencies: Seq<ResolvedDependencyView>,
    pub build_dependencies: Seq<ResolvedDependencyView>,
    pub features: Seq<Seq<char>>,
    pub build: Option<Seq<char>>,
    pub lib_path: Option<Seq<char>>,
    pub has_bin: bool,
    pub proc_macro: bool,
    pub is_root_or_workspace_member: bool,
}

impl View for CrateDerivation {
    type V = CrateDerivationView;

    open spec fn view(&self) -> CrateDerivationView {
        CrateDerivationView {
            package_id: self.package_id,
            crate_name: self.crate_name@,
            edition: self.edition@,
            authors: str_views(self.authors@),
            version: self.version,
            source_directory: self.source_directory@,
            sha256: opt_view(self.sha256),
            dependencies: rd_views(self.dependencies@),
            build_dependencies: rd_views(self.build_dependencies@),
            features: str_views(self.features@),
            build: opt_view(self.build),
            lib_path: opt_view(self.lib_path),
            has_bin: self.has_bin,
            proc_macro: self.proc_macro,
            is_root_or_workspace_member: self.is_root_or_workspace_member,
        }
    }
}

/// The kind predicate selecting a package's runtime dependency list.
pub open spec fn runtime_kinds() -> KindPredicate {
    KindPredicate { normal: true, development: false, build: false, unknown: true }
}

/// The kind predicate selecting a package's build-time dependency list.
pub open spec fn build_kinds() -> KindPredicate {
    KindPredicate { normal: false, development: false, build: true, unknown: false }
}

/// What every field of a successfully assembled descriptor holds, as a
/// function of the configuration, the indexed graph and the package.
pub open spec fn derivation_matches(
    config: GenerateConfig,
    metadata: IndexedMetadata,
    package: Package,
    d: CrateDerivationView,
) -> bool {
    let node = metadata.nodes_by_id@[package.id]@;
    let pkgs = sort_by_id(edge_packages(metadata.pkgs_by_id@, node.deps));
    let deps = package@.dependencies;
    &&& d.package_id == package.id
    &&& d.crate_name == package@.name
    &&& d.edition == package@.edition
    &&& d.authors == package@.authors
    &&& d.version == package.version
    &&& d.source_directory == source_dir(
        str_views(config.root_directory@),
        package@.manifest_dir,
    )
    &&& d.sha256 is None
    &&& d.dependencies == resolved_deps(pkgs, deps, runtime_kinds())
    &&& d.build_dependencies == resolved_deps(pkgs, deps, build_kinds())
    &&& d.features == node.features
    &&& d.build == target_rel_path(package@.targets, TargetKind::CustomBuild, package@.manifest_dir)
    &&& d.lib_path == target_rel_path(package@.targets, TargetKind::Lib, package@.manifest_dir)
    &&& d.has_bin == some_target_has_kind(package@.targets, TargetKind::Bin)
    &&& d.proc_macro == some_target_has_kind(package@.targets, TargetKind::ProcMacro)
    &&& d.is_root_or_workspace_member == (metadata.root == Some(package.id)
        || metadata.workspace_members@.contains(package.id))
}

/// A sequence of packages is ordered ascending by package identifier.
pub open spec fn pkgs_ascending(s: Seq<PackageView>) -> bool {
    forall|i: int, j: int| 0 <= i < j < s.len() ==> s[i].id <= s[j].id
}

/// A sequence of resolved dependencies is ordered ascending by package
/// identifier.
pub open spec fn ids_ascending(s: Seq<ResolvedDependencyView>) -> bool {
    forall|i: int, j: int| 0 <= i < j < s.len() ==> s[i].package_id <= s[j].package_id
}

proof fn lemma_insert_by_id_elems(s: Seq<PackageView>, p: PackageView)
    ensures
        insert_by_id(s, p).len() == s.len() + 1,
        forall|j: int|
            0 <= j < insert_by_id(s, p).len() ==> (#[trigger] insert_by_id(s, p)[j]) == p
                || s.contains(insert_by_id(s, p)[j]),
        forall|j: int| 0 <= j < s.len() ==> insert_by_id(s, p).contains(#[trigger] s[j]),
        insert_by_id(s, p).contains(p),
    decreases s.len(),
{
    if s.len() == 0 {
        assert(insert_by_id(s, p)[0] == p);
    } else if p.id < s[0].id {
        let r = seq![p] + s;
        assert forall|j: int| 0 <= j < r.len() implies (#[trigger] r[j]) == p || s.contains(
            r[j],
        ) by {
            if j > 0 {
                assert(s[j - 1] == r[j]);
            }
        }
        assert forall|j: int| 0 <= j < s.len() implies r.contains(#[trigger] s[j]) by {
            assert(r[j + 1] == s[j]);
        }
        assert(r[0] == p);
    } else {
        let rest = s.drop_first();
        lemma_insert_by_id_elems(rest, p);
        let ins = insert_by_id(rest, p);
        let r = seq![s[0]] + ins;
        assert forall|j: int| 0 <= j < r.len() implies (#[trigger] r[j]) == p || s.contains(
            r[j],
        ) by {
            if j == 0 {
                assert(s[0] == r[0]);
            } else {
                assert(ins[j - 1] == r[j]);
                if r[j] != p {
                    assert(rest.contains(r[j]));
                    let k = choose|k: int| 0 <= k < rest.len() && rest[k] == r[j];
                    assert(s[k + 1] == r[j]);
                }
            }
        }
        assert forall|j: int| 0 <= j < s.len() implies r.contains(#[trigger] s[j]) by {
            if j == 0 {
                assert(r[0] == s[0]);
            } else {
                assert(rest[j - 1] == s[j]);
                assert(ins.contains(rest[j - 1]));
                let k = choose|k: int| 0 <= k < ins.len() && ins[k] == s[j];
                assert(r[k + 1] == s[j]);
            }
        }
        let kp = choose|kp: int| 0 <= kp < ins.len() && ins[kp] == p;
        assert(r[kp + 1] == p);
        assert(insert_by_id(s, p) == r);
    }
}

proof fn lemma_insert_by_id_sorted(s: Seq<PackageView>, p: PackageView)
    requires
        pkgs_ascending(s),
    ensures
        pkgs_ascending(insert_by_id(s, p)),
    decreases s.len(),
{
    if s.len() == 0 {
    } else if p.id < s[0].id {
    } else {
        let rest = s.drop_first();
        assert(pkgs_ascending(rest));
        lemma_insert_by_id_sorted(rest, p);
        lemma_insert_by_id_elems(rest, p);
        let r = seq![s[0]] + insert_by_id(rest, p);
        assert forall|i: int, j: int| 0 <= i < j < r.len() implies r[i].id <= r[j].id by {
            if i == 0 {
                let x = r[j];
                assert(insert_by_id(rest, p)[j - 1] == x);
                if x == p {
                } else {
                    let k = choose|k: int| 0 <= k < rest.len() && rest[k] == x;
                    assert(s[k + 1] == x);
                }
            } else {
                assert(insert_by_id(rest, p)[i - 1].id <= insert_by_id(rest, p)[j - 1].id);
            }
        }
    }
}

/// Sorting by identifier yields an ascending sequence holding exactly the
/// elements of its input.
pub proof fn lemma_sort_by_id_sorted(s: Seq<PackageView>)
    ensures
        pkgs_ascending(sort_by_id(s)),
        sort_by_id(s).len() == s.len(),
        forall|i: int| 0 <= i < sort_by_id(s).len() ==> s.contains(#[trigger] sort_by_id(s)[i]),
        forall|i: int| 0 <= i < s.len() ==> sort_by_id(s).contains(#[trigger] s[i]),
    decreases s.len(),
{
    if s.len() == 0 {
    } else {
        let prefix = s.drop_last();
        lemma_sort_by_id_sorted(prefix);
        lemma_insert_by_id_sorted(sort_by_id(prefix), s.last());
        lemma_insert_by_id_elems(sort_by_id(prefix), s.last());
        let ins = insert_by_id(sort_by_id(prefix), s.last());
        assert(sort_by_id(s) == ins);
        assert forall|i: int| 0 <= i < sort_by_id(s).len() implies s.contains(
            #[trigger] sort_by_id(s)[i],
        ) by {
            let x = ins[i];
            assert(x == s.last() || sort_by_id(prefix).contains(x));
            if x == s.last() {
                assert(s[s.len() - 1] == x);
            } else {
                let k = choose|k: int|
                    0 <= k < sort_by_id(prefix).len() && sort_by_id(prefix)[k] == x;
                assert(prefix.contains(sort_by_id(prefix)[k]));
                let k2 = choose|k2: int| 0 <= k2 < prefix.len() && prefix[k2] == x;
                assert(s[k2] == x);
            }
        }
        assert forall|i: int| 0 <= i < s.len() implies sort_by_id(s).contains(
            #[trigger] s[i],
        ) by {
            if i < s.len() - 1 {
                assert(prefix[i] == s[i]);
                assert(sort_by_id(prefix).contains(prefix[i]));
                let k = choose|k: int|
                    0 <= k < sort_by_id(prefix).len() && sort_by_id(prefix)[k] == s[i];
                assert(ins.contains(sort_by_id(prefix)[k]));
            } else {
                assert(ins.contains(s.last()));
            }
        }
    }
}

/// Every entry of the resolved dependency list comes from an edge package
/// whose name has a declared match of the requested kinds, and every edge
/// package with such a match contributes its entry: the matched edges,
/// exactly.
pub proof fn lemma_resolved_deps_exact(
    pkgs: Seq<PackageView>,
    deps: Seq<DependencyView>,
    f: KindPredicate,
)
    ensures
        forall|j: int|
            0 <= j < resolved_deps(pkgs, deps, f).len() ==> exists|i: int|
                0 <= i < pkgs.len() && (#[trigger] resolved_deps(pkgs, deps, f)[j]).package_id
                    == pkgs[i].id && find_match(deps, f, pkgs[i].name) is Some,
        forall|i: int|
            0 <= i < pkgs.len() && find_match(deps, f, (#[trigger] pkgs[i]).name) is Some
                ==> exists|j: int|
                0 <= j < resolved_deps(pkgs, deps, f).len() && resolved_deps(
                    pkgs,
                    deps,
                    f,
                )[j].package_id == pkgs[i].id,
    decreases pkgs.len(),
{
    if pkgs.len() == 0 {
    } else {
        let prefix = pkgs.drop_last();
        let prior = resolved_deps(prefix, deps, f);
        let r = resolved_deps(pkgs, deps, f);
        lemma_resolved_deps_exact(prefix, deps, f);
        assert forall|j: int|
            0 <= j < r.len() implies exists|i: int|
            0 <= i < pkgs.len() && (#[trigger] r[j]).package_id == pkgs[i].id && find_match(
                deps,
                f,
                pkgs[i].name,
            ) is Some by {
            if j < prior.len() {
                let i = choose|i: int|
                    0 <= i < prefix.len() && (#[trigger] prior[j]).package_id == prefix[i].id
                        && find_match(deps, f, prefix[i].name) is Some;
                assert(pkgs[i] == prefix[i]);
                assert(r[j] == prior[j]);
            } else {
                let i = pkgs.len() - 1;
                assert(r[j].package_id == pkgs[i].id && find_match(
                    deps,
                    f,
                    pkgs[i].name,
                ) is Some);
            }
        }
        assert forall|i: int|
            0 <= i < pkgs.len() && find_match(deps, f, (#[trigger] pkgs[i]).name) is Some
            implies exists|j: int|
            0 <= j < r.len() && r[j].package_id == pkgs[i].id by {
            if i < pkgs.len() - 1 {
                assert(prefix[i] == pkgs[i]);
                let j = choose|j: int|
                    0 <= j < prior.len() && prior[j].package_id == prefix[i].id;
                assert(r[j] == prior[j]);
            } else {
                let j = prior.len() as int;
                assert(r[j].package_id == pkgs[i].id);
            }
        }
    }
}

proof fn lemma_resolved_deps_sorted(
    pkgs: Seq<PackageView>,
    deps: Seq<DependencyView>,
    f: KindPredicate,
)
    requires
        pkgs_ascending(pkgs),
    ensures
        ids_ascending(resolved_deps(pkgs, deps, f)),
    decreases pkgs.len(),
{
    if pkgs.len() > 0 {
        let prefix = pkgs.drop_last();
        let prior = resolved_deps(prefix, deps, f);
        let r = resolved_deps(pkgs, deps, f);
        assert(pkgs_ascending(prefix));
        lemma_resolved_deps_sorted(prefix, deps, f);
        lemma_resolved_deps_exact(prefix, deps, f);
        assert forall|i: int, j: int| 0 <= i < j < r.len() implies r[i].package_id
            <= r[j].package_id by {
            if j < prior.len() {
                assert(prior[i].package_id <= prior[j].package_id);
            } else {
                let k = choose|k: int|
                    0 <= k < prefix.len() && (#[trigger] prior[i]).package_id == prefix[k].id
                        && find_match(deps, f, prefix[k].name) is Some;
                assert(prefix[k].id <= pkgs.last().id);
            }
        }
    }
}

/// The dependency lists of a descriptor are ordered ascending by package
/// identifier.
pub proof fn lemma_descriptor_lists_sorted(
    config: GenerateConfig,
    metadata: IndexedMetadata,
    package: Package,
    d: CrateDerivationView,
)
    requires
        derivation_matches(config, metadata, package, d),
    ensures
        ids_ascending(d.dependencies),
        ids_ascending(d.build_dependencies),
{
    let node = metadata.nodes_by_id@[package.id]@;
    let edges = edge_packages(metadata.pkgs_by_id@, node.deps);
    lemma_sort_by_id_sorted(edges);
    lemma_resolved_deps_sorted(sort_by_id(edges), package@.dependencies, runtime_kinds());
    lemma_resolved_deps_sorted(sort_by_id(edges), package@.dependencies, build_kinds());
}

/// Resolution is deterministic: any two descriptors assembled from the same
/// configuration, graph and package are equal.
pub proof fn lemma_resolve_deterministic(
    config: GenerateConfig,
    metadata: IndexedMetadata,
    package: Package,
    d1: CrateDerivationView,
    d2: CrateDerivationView,
)
    requires
        derivation_matches(config, metadata, package, d1),
        derivation_matches(config, metadata, package, d2),
    ensures
        d1 == d2,
{
}

/// An index is consistent when every package record sits under its own
/// identifier.
pub open spec fn index_consistent(pkgs: Map<u64, Package>) -> bool {
    forall|id: u64| pkgs.contains_key(id) ==> (#[trigger] pkgs[id])@.id == id
}

/// Under a consistent index, every resolved dependency's package identifier
/// is one of the node's edge identifiers.
pub proof fn lemma_resolved_ids_within_edges(
    pkgs_map: Map<u64, Package>,
    edges: Seq<u64>,
    deps: Seq<DependencyView>,
    f: KindPredicate,
)
    requires
        forall|j: int| 0 <= j < edges.len() ==> pkgs_map.contains_key(#[trigger] edges[j]),
        index_consistent(pkgs_map),
    ensures
        forall|j: int|
            0 <= j < resolved_deps(sort_by_id(edge_packages(pkgs_map, edges)), deps, f).len()
                ==> edges.contains(
                (#[trigger] resolved_deps(
                    sort_by_id(edge_packages(pkgs_map, edges)),
                    deps,
                    f,
                )[j]).package_id,
            ),
{
    let ep = edge_packages(pkgs_map, edges);
    let sorted = sort_by_id(ep);
    let r = resolved_deps(sorted, deps, f);
    lemma_sort_by_id_sorted(ep);
    lemma_resolved_deps_exact(sorted, deps, f);
    assert forall|j: int| 0 <= j < r.len() implies edges.contains(
        (#[trigger] r[j]).package_id,
    ) by {
        let i = choose|i: int|
            0 <= i < sorted.len() && (#[trigger] r[j]).package_id == sorted[i].id && find_match(
                deps,
                f,
                sorted[i].name,
            ) is Some;
        assert(sorted.contains(sorted[i]));
        assert(ep.contains(sorted[i]));
        let k = choose|k: int| 0 <= k < ep.len() && ep[k] == sorted[i];
        assert(ep[k] == pkgs_map[edges[k]]@);
        assert(edges[k] == sorted[i].id);
    }
}

/// Under a consistent index, every edge whose package's normalized name has
/// a declared match of the requested kinds contributes its identifier to
/// the resolved dependency list: together with
/// [`lemma_resolved_ids_within_edges`], the list holds exactly the matched
/// edges.
pub proof fn lemma_matched_edges_resolved(
    pkgs_map: Map<u64, Package>,
    edges: Seq<u64>,
    deps: Seq<DependencyView>,
    f: KindPredicate,
)
    requires
        forall|j: int| 0 <= j < edges.len() ==> pkgs_map.contains_key(#[trigger] edges[j]),
        index_consistent(pkgs_map),
    ensures
        forall|k: int|
            0 <= k < edges.len() && find_match(
                deps,
                f,
                pkgs_map[#[trigger] edges[k]]@.name,
            ) is Some ==> exists|j: int|
                0 <= j < resolved_deps(sort_by_id(edge_packages(pkgs_map, edges)), deps, f).len()
                    && (#[trigger] resolved_deps(
                    sort_by_id(edge_packages(pkgs_map, edges)),
                    deps,
                    f,
                )[j]).package_id == edges[k],
{
    let ep = edge_packages(pkgs_map, edges);
    let sorted = sort_by_id(ep);
    let r = resolved_deps(sorted, deps, f);
    lemma_sort_by_id_sorted(ep);
    lemma_resolved_deps_exact(sorted, deps, f);
    assert forall|k: int|
        0 <= k < edges.len() && find_match(
            deps,
            f,
            pkgs_map[#[trigger] edges[k]]@.name,
        ) is Some implies exists|j: int|
        0 <= j < r.len() && (#[trigger] r[j]).package_id == edges[k] by {
        let x = pkgs_map[edges[k]]@;
        assert(ep[k] == x);
        assert(sorted.contains(ep[k]));
        let i = choose|i: int| 0 <= i < sorted.len() && sorted[i] == x;
        assert(find_match(deps, f, sorted[i].name) is Some);
        let j = choose|j: int|
            0 <= j < r.len() && r[j].package_id == sorted[i].id;
        assert(x.id == edges[k]);
        assert(r[j].package_id == edges[k]);
    }
}

impl CrateDerivation {
    /// Assemble the derivation descriptor for one package: locate its node,
    /// split its resolved edges into runtime and build-time dependency
    /// lists, classify its targets, and relativize its source directory
    /// against the configured root.
    ///
    /// Succeeds exactly when the graph has a node for the package and no
    /// edge of that node dangles.
    pub fn resolve(
        config: &GenerateConfig,
        metadata: &IndexedMetadata,
        package: &Package,
    ) -> (r: Result<CrateDerivation, GraphInconsistency>)
        requires
            is_plain_path(str_views(config.root_directory@)),
            is_plain_path(package@.manifest_dir),
        ensures
            match r {
                Ok(d) => {
                    &&& metadata.nodes_by_id@.contains_key(package.id)
                    &&& first_dangling(
                        metadata.pkgs_by_id@,
                        metadata.nodes_by_id@[package.id]@.deps,
                    ) is None
                    &&& derivation_matches(*config, *metadata, *package, d@)
                },
                Err(GraphInconsistency::MissingNode { package_id }) => {
                    &&& package_id == package.id
                    &&& !metadata.nodes_by_id@.contains_key(package.id)
                },
                Err(GraphInconsistency::DanglingEdge { package_id, dependency_id }) => {
                    &&& package_id == package.id
                    &&& metadata.nodes_by_id@.contains_key(package.id)
                    &&& first_dangling(
                        metadata.pkgs_by_id@,
                        metadata.nodes_by_id@[package.id]@.deps,
                    ) == Some(dependency_id)
                },
            },
    {
        let resolved_dependencies = match ResolvedDependencies::new(metadata, package) {
            Ok(rd) => rd,
            Err(e) => {
                return Err(e);
            },
        };
        let build_dependencies = resolved_dependencies.filtered_dependencies(
            KindPredicate::build_time(),
        );
        let dependencies = resolved_dependencies.filtered_dependencies(KindPredicate::runtime());
        let lib_path = relative_target_path(
            &package.targets,
            TargetKind::Lib,
            &package.manifest_dir,
        );
        let build = relative_target_path(
            &package.targets,
            TargetKind::CustomBuild,
            &package.manifest_dir,
        );
        let proc_macro = any_target_with_kind(&package.targets, TargetKind::ProcMacro);
        let has_bin = any_target_with_kind(&package.targets, TargetKind::Bin);
        let source_directory = relative_source_dir(&config.root_directory, &package.manifest_dir);
        let is_root_or_workspace_member = is_member(metadata, package.id);
        proof {
            assert(target_views(package.targets@) == package@.targets);
        }
        Ok(
            CrateDerivation {
                package_id: package.id,
                crate_name: package.name.clone(),
                edition: package.edition.clone(),
                authors: clone_strings(&package.authors),
                version: package.version,
                source_directory,
                sha256: None,
                dependencies,
                build_dependencies,
                features: clone_strings(&resolved_dependencies.node.features),
                build,
                lib_path,
                has_bin,
                proc_macro,
                is_root_or_workspace_member,
            },
        )
    }
}

} // verus!
