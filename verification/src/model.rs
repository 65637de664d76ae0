//! The data model: resolved manifest facts for one package, the resolved
//! dependency graph node, and the id-indexed graph they live in.
//!
//! A package identifier is an opaque `u64` key: unique per concrete resolved
//! package instance and totally ordered, so that dependency lists can be
//! emitted in a deterministic ascending order. Filesystem paths are held as
//! vectors of plain path components (no `.`, `..`, empty or `/`-bearing
//! component); the caller canonicalizes paths before building the model.

use std::collections::HashMap;
use vstd::prelude::*;

verus! {

/// A semantic version, as far as this library reads it: it is only carried
/// through into the descriptor, never inspected.
#[derive(Clone, Copy, Debug, PartialEq, Eq, Structural)]
pub struct Version {
    pub major: u64,
    pub minor: u64,
    pub patch: u64,
}

/// The kind of a declared dependency, as written in the manifest.
#[derive(Clone, Copy, Debug, PartialEq, Eq, Structural)]
pub enum DependencyKind {
    /// An ordinary (runtime) dependency.
    Normal,
    /// A dependency used only by tests, examples and benchmarks.
    Development,
    /// A dependency of the build script.
    Build,
    /// A kind the manifest left unspecified.
    Unknown,
}

/// A predicate over declared-dependency kinds: one flag per kind. Every
/// predicate over [`DependencyKind`] is expressible as a value of this type.
#[derive(Clone, Copy, Debug, PartialEq, Eq, Structural)]
pub struct KindPredicate {
    pub normal: bool,
    pub development: bool,
    pub build: bool,
    pub unknown: bool,
}

impl KindPredicate {
    /// Which kinds the predicate accepts.
    pub open spec fn spec_accepts(self, k: DependencyKind) -> bool {
        match k {
            DependencyKind::Normal => self.normal,
            DependencyKind::Development => self.development,
            DependencyKind::Build => self.build,
            DependencyKind::Unknown => self.unknown,
        }
    }

    /// Test one kind against the predicate.
    pub fn accepts(&self, k: DependencyKind) -> (r: bool)
        ensures
            r == self.spec_accepts(k),
    {
        match k {
            DependencyKind::Normal => self.normal,
            DependencyKind::Development => self.development,
            DependencyKind::Build => self.build,
            DependencyKind::Unknown => self.unknown,
        }
    }

    /// The kinds that make up a package's runtime dependency list: declared
    /// normal dependencies and those whose kind the manifest left out.
    pub fn runtime() -> (r: KindPredicate)
        ensures
            r == (KindPredicate { normal: true, development: false, build: false, unknown: true }),
    {
        KindPredicate { normal: true, development: false, build: false, unknown: true }
    }

    /// The kinds that make up a package's build-time dependency list.
    pub fn build_time() -> (r: KindPredicate)
        ensures
            r == (KindPredicate { normal: false, development: false, build: true, unknown: false }),
    {
        KindPredicate { normal: false, development: false, build: true, unknown: false }
    }
}

/// A dependency as declared in a package's manifest.
#[derive(Clone, Debug, PartialEq, Eq)]
pub struct Dependency {
    /// The declared name; `-` and `_` are interchangeable in it.
    pub name: String,
    /// The declared kind.
    pub kind: DependencyKind,
    /// The platform condition gating the dependency, if any: a configuration
    /// predicate or a platform-triplet string.
    pub target: Option<String>,
}

/// The mathematical view of a [`Dependency`].
pub struct DependencyView {
    pub name: Seq<char>,
    pub kind: DependencyKind,
    pub target: Option<Seq<char>>,
}

impl View for Dependency {
    type V = DependencyView;

    open spec fn view(&self) -> DependencyView {
        DependencyView {
            name: self.name@,
            kind: self.kind,
            target: match self.target {
                Some(t) => Some(t@),
                None => None,
            },
        }
    }
}

/// A tag classifying one build target.
#[derive(Clone, Copy, Debug, PartialEq, Eq, Structural)]
pub enum TargetKind {
    /// A library.
    Lib,
    /// An executable binary.
    Bin,
    /// A build script.
    CustomBuild,
    /// A procedural macro.
    ProcMacro,
    /// Any other target kind; none of the derived facts depends on it.
    Other,
}

/// One build artifact of a package: its kind tags and the absolute path of
/// its source entry point, as path components.
#[derive(Clone, Debug, PartialEq, Eq)]
pub struct Target {
    pub kinds: Vec<TargetKind>,
    pub src_path: Vec<String>,
}

/// The mathematical view of a [`Target`].
pub struct TargetView {
    pub kinds: Seq<TargetKind>,
    pub src_path: Seq<Seq<char>>,
}

impl View for Target {
    type V = TargetView;

    open spec fn view(&self) -> TargetView {
        TargetView { kinds: self.kinds@, src_path: str_views(self.src_path@) }
    }
}

/// Resolved manifest facts for one package.
#[derive(Clone, Debug, PartialEq, Eq)]
pub struct Package {
    /// The opaque package identifier; the join key between all structures.
    pub id: u64,
    pub name: String,
    pub version: Version,
    pub edition: String,
    pub authors: Vec<String>,
    /// The directory holding the package's manifest, canonicalized, as
    /// plain path components.
    pub manifest_dir: Vec<String>,
    pub targets: Vec<Target>,
    /// The dependencies declared in the manifest.
    pub dependencies: Vec<Dependency>,
}

/// The mathematical view of a [`Package`].
pub struct PackageView {
    pub id: u64,
    pub name: Seq<char>,
    pub version: Version,
    pub edition: Seq<char>,
    pub authors: Seq<Seq<char>>,
    pub manifest_dir: Seq<Seq<char>>,
    pub targets: Seq<TargetView>,
    pub dependencies: Seq<DependencyView>,
}

impl View for Package {
    type V = PackageView;

    open spec fn view(&self) -> PackageView {
        PackageView {
            id: self.id,
            name: self.name@,
            version: self.version,
            edition: self.edition@,
            authors: str_views(self.authors@),
            manifest_dir: str_views(self.manifest_dir@),
            targets: target_views(self.targets@),
            dependencies: dep_views(self.dependencies@),
        }
    }
}

/// The resolved-graph adjacency record for one package: its resolved
/// dependency edges (as package identifiers) and its final active features.
#[derive(Clone, Debug, PartialEq, Eq)]
pub struct Node {
    pub deps: Vec<u64>,
    pub features: Vec<String>,
}

/// The mathematical view of a [`Node`].
pub struct NodeView {
    pub deps: Seq<u64>,
    pub features: Seq<Seq<char>>,
}

impl View for Node {
    type V = NodeView;

    open spec fn view(&self) -> NodeView {
        NodeView { deps: self.deps@, features: str_views(self.features@) }
    }
}

/// The id-indexed resolved dependency graph, built once per generation run
/// and read-only thereafter.
#[derive(Debug)]
pub struct IndexedMetadata {
    /// Graph node by package identifier.
    pub nodes_by_id: HashMap<u64, Node>,
    /// Package manifest facts by package identifier.
    pub pkgs_by_id: HashMap<u64, Package>,
    /// The declared root package, if the workspace has one.
    pub root: Option<u64>,
    /// The workspace members.
    pub workspace_members: Vec<u64>,
}

/// Configuration for one generation run.
#[derive(Clone, Debug, PartialEq, Eq)]
pub struct GenerateConfig {
    /// The configured root directory, canonicalized, as plain path
    /// components; all source directories are expressed relative to it.
    pub root_directory: Vec<String>,
}

/// An inconsistency between the package index and the resolved graph. Both
/// variants carry the identifier of the package whose resolution failed, so
/// that the inconsistent graph can be diagnosed.
#[derive(Clone, Copy, Debug, PartialEq, Eq, Structural)]
pub enum GraphInconsistency {
    /// The graph has no node for the requested package identifier.
    MissingNode { package_id: u64 },
    /// A node edge references a package identifier absent from the package
    /// index.
    DanglingEdge { package_id: u64, dependency_id: u64 },
}

/// The views of a sequence of strings.
pub open spec fn str_views(s: Seq<String>) -> Seq<Seq<char>> {
    s.map_values(|x: String| x@)
}

/// The views of a sequence of declared dependencies.
pub open spec fn dep_views(s: Seq<Dependency>) -> Seq<DependencyView> {
    s.map_values(|d: Dependency| d@)
}

/// The views of a sequence of targets.
pub open spec fn target_views(s: Seq<Target>) -> Seq<TargetView> {
    s.map_values(|t: Target| t@)
}

/// Copy a vector of identifiers.
pub fn copy_ids(v: &Vec<u64>) -> (r: Vec<u64>)
    ensures
        r@ == v@,
{
    let mut r: Vec<u64> = Vec::new();
    let mut i: usize = 0;
    while i < v.len()
        invariant
            i <= v.len(),
            r@ == v@.subrange(0, i as int),
        decreases v.len() - i,
    {
        r.push(v[i]);
        proof {
            assert(r@ =~= v@.subrange(0, i + 1 as int));
        }
        i = i + 1;
    }
    proof {
        assert(v@.subrange(0, v@.len() as int) == v@);
    }
    r
}

/// Clone a vector of strings.
pub fn clone_strings(v: &Vec<String>) -> (r: Vec<String>)
    ensures
        r@ == v@,
{
    let mut r: Vec<String> = Vec::new();
    let mut i: usize = 0;
    while i < v.len()
        invariant
            i <= v.len(),
            r@ == v@.subrange(0, i as int),
        decreases v.len() - i,
    {
        r.push(v[i].clone());
        proof {
            assert(r@ =~= v@.subrange(0, i + 1 as int));
        }
        i = i + 1;
    }
    proof {
        assert(v@.subrange(0, v@.len() as int) == v@);
    }
    r
}

/// Copy a vector of target kinds.
pub fn copy_kinds(v: &Vec<TargetKind>) -> (r: Vec<TargetKind>)
    ensures
        r@ == v@,
{
    let mut r: Vec<TargetKind> = Vec::new();
    let mut i: usize = 0;
    while i < v.len()
        invariant
            i <= v.len(),
            r@ == v@.subrange(0, i as int),
        decreases v.len() - i,
    {
        r.push(v[i]);
        proof {
            assert(r@ =~= v@.subrange(0, i + 1 as int));
        }
        i = i + 1;
    }
    proof {
        assert(v@.subrange(0, v@.len() as int) == v@);
    }
    r
}

impl Dependency {
    /// Duplicate the declared dependency.
    pub fn duplicate(&self) -> (r: Dependency)
        ensures
            r == *self,
    {
        Dependency {
            name: self.name.clone(),
            kind: self.kind,
            target: match &self.target {
                Some(t) => Some(t.clone()),
                None => None,
            },
        }
    }
}

/// Clone a vector of declared dependencies.
pub fn clone_dependencies(v: &Vec<Dependency>) -> (r: Vec<Dependency>)
    ensures
        r@ == v@,
{
    let mut r: Vec<Dependency> = Vec::new();
    let mut i: usize = 0;
    while i < v.len()
        invariant
            i <= v.len(),
            r@ == v@.subrange(0, i as int),
        decreases v.len() - i,
    {
        r.push(v[i].duplicate());
        proof {
            assert(r@ =~= v@.subrange(0, i + 1 as int));
        }
        i = i + 1;
    }
    proof {
        assert(v@.subrange(0, v@.len() as int) == v@);
    }
    r
}

impl Target {
    /// Duplicate the target record; the duplicate has the same view.
    pub fn duplicate(&self) -> (r: Target)
        ensures
            r@ == self@,
    {
        Target { kinds: copy_kinds(&self.kinds), src_path: clone_strings(&self.src_path) }
    }
}

/// Clone a vector of targets, element view by element view.
pub fn clone_targets(v: &Vec<Target>) -> (r: Vec<Target>)
    ensures
        r@.map_values(|t: Target| t@) == v@.map_values(|t: Target| t@),
{
    let mut r: Vec<Target> = Vec::new();
    let mut i: usize = 0;
    while i < v.len()
        invariant
            i <= v.len(),
            r@.len() == i,
            forall|j: int| 0 <= j < i ==> #[trigger] r@[j]@ == v@[j]@,
        decreases v.len() - i,
    {
        r.push(v[i].duplicate());
        i = i + 1;
    }
    proof {
        assert(r@.map_values(|t: Target| t@) =~= v@.map_values(|t: Target| t@));
    }
    r
}

impl Package {
    /// Duplicate the package record; the duplicate has the same view.
    pub fn duplicate(&self) -> (r: Package)
        ensures
            r@ == self@,
    {
        let r = Package {
            id: self.id,
            name: self.name.clone(),
            version: self.version,
            edition: self.edition.clone(),
            authors: clone_strings(&self.authors),
            manifest_dir: clone_strings(&self.manifest_dir),
            targets: clone_targets(&self.targets),
            dependencies: clone_dependencies(&self.dependencies),
        };
        proof {
            assert(r@.targets == self@.targets);
        }
        r
    }
}

impl Node {
    /// Duplicate the node record; the duplicate has the same view.
    pub fn duplicate(&self) -> (r: Node)
        ensures
            r@ == self@,
    {
        Node { deps: copy_ids(&self.deps), features: clone_strings(&self.features) }
    }
}

} // verus!
