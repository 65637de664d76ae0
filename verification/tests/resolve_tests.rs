use std::collections::HashMap;

use crate_derivations::model::{
    Dependency, DependencyKind, GenerateConfig, GraphInconsistency, IndexedMetadata,
    KindPredicate, Node, Package, Target, TargetKind, Version,
};
use crate_derivations::resolve::{CrateDerivation, ResolvedDependencies, ResolvedDependency};

fn comps(parts: &[&str]) -> Vec<String> {
    parts.iter().map(|p| p.to_string()).collect()
}

fn version(major: u64, minor: u64, patch: u64) -> Version {
    Version { major, minor, patch }
}

fn package(id: u64, name: &str, dir: &[&str], deps: Vec<Dependency>) -> Package {
    Package {
        id,
        name: name.to_string(),
        version: version(1, 0, 0),
        edition: "2018".to_string(),
        authors: vec!["someone".to_string()],
        manifest_dir: comps(dir),
        targets: Vec::new(),
        dependencies: deps,
    }
}

fn declared(name: &str, kind: DependencyKind, target: Option<&str>) -> Dependency {
    Dependency {
        name: name.to_string(),
        kind,
        target: target.map(|t| t.to_string()),
    }
}

fn metadata(
    nodes: Vec<(u64, Node)>,
    pkgs: Vec<Package>,
    root: Option<u64>,
    members: Vec<u64>,
) -> IndexedMetadata {
    let mut nodes_by_id = HashMap::new();
    for (id, n) in nodes {
        nodes_by_id.insert(id, n);
    }
    let mut pkgs_by_id = HashMap::new();
    for p in pkgs {
        pkgs_by_id.insert(p.id, p);
    }
    IndexedMetadata {
        nodes_by_id,
        pkgs_by_id,
        root,
        workspace_members: members,
    }
}

fn config(dir: &[&str]) -> GenerateConfig {
    GenerateConfig { root_directory: comps(dir) }
}

#[test]
fn end_to_end_left_pad() {
    let root_dir = ["home", "user", "left-pad"];
    let mut pkg = package(
        1,
        "left-pad",
        &root_dir,
        vec![declared("once-cell", DependencyKind::Normal, None)],
    );
    pkg.version = version(1, 2, 3);
    let dep_pkg = package(7, "once_cell", &["home", "user", "deps", "once_cell"], vec![]);
    let node = Node { deps: vec![7], features: vec!["default".to_string()] };
    let md = metadata(vec![(1, node)], vec![pkg.clone(), dep_pkg], Some(1), vec![]);

    let d = CrateDerivation::resolve(&config(&root_dir), &md, &pkg).unwrap();
    assert_eq!(d.package_id, 1);
    assert_eq!(d.crate_name, "left-pad");
    assert_eq!(d.edition, "2018");
    assert_eq!(d.version, version(1, 2, 3));
    assert_eq!(
        d.dependencies,
        vec![ResolvedDependency { package_id: 7, target: None }]
    );
    assert_eq!(d.build_dependencies, Vec::new());
    assert_eq!(d.source_directory, "./.");
    assert_eq!(d.sha256, None);
    assert_eq!(d.features, vec!["default".to_string()]);
    assert!(d.is_root_or_workspace_member);
}

#[test]
fn missing_node_is_reported() {
    let pkg = package(1, "lonely", &["a", "b"], vec![]);
    let md = metadata(vec![], vec![pkg.clone()], None, vec![]);
    let r = CrateDerivation::resolve(&config(&["a", "b"]), &md, &pkg);
    assert_eq!(r.unwrap_err(), GraphInconsistency::MissingNode { package_id: 1 });
}

#[test]
fn dangling_edge_is_reported() {
    let pkg = package(1, "holey", &["a", "b"], vec![]);
    let node = Node { deps: vec![99], features: vec![] };
    let md = metadata(vec![(1, node)], vec![pkg.clone()], None, vec![]);
    let r = CrateDerivation::resolve(&config(&["a", "b"]), &md, &pkg);
    assert_eq!(
        r.unwrap_err(),
        GraphInconsistency::DanglingEdge { package_id: 1, dependency_id: 99 }
    );
}

#[test]
fn kinds_split_dependency_lists() {
    let dir = ["w", "app"];
    let pkg = package(
        1,
        "app",
        &dir,
        vec![
            declared("alpha", DependencyKind::Normal, None),
            declared("bravo", DependencyKind::Build, Some("cfg(unix)")),
            declared("charlie", DependencyKind::Development, None),
            declared("delta", DependencyKind::Unknown, None),
        ],
    );
    let alpha = package(10, "alpha", &["w", "alpha"], vec![]);
    let bravo = package(20, "bravo", &["w", "bravo"], vec![]);
    let charlie = package(30, "charlie", &["w", "charlie"], vec![]);
    let delta = package(40, "delta", &["w", "delta"], vec![]);
    let stray = package(50, "stray", &["w", "stray"], vec![]);
    let node = Node { deps: vec![50, 40, 30, 20, 10], features: vec![] };
    let md = metadata(
        vec![(1, node)],
        vec![pkg.clone(), alpha, bravo, charlie, delta, stray],
        None,
        vec![],
    );
    let d = CrateDerivation::resolve(&config(&dir), &md, &pkg).unwrap();
    // Normal and unspecified kinds, ascending by identifier; the stray edge
    // and the development dependency are excluded.
    assert_eq!(
        d.dependencies,
        vec![
            ResolvedDependency { package_id: 10, target: None },
            ResolvedDependency { package_id: 40, target: None },
        ]
    );
    assert_eq!(
        d.build_dependencies,
        vec![ResolvedDependency { package_id: 20, target: Some("cfg(unix)".to_string()) }]
    );
}

#[test]
fn matching_normalizes_names() {
    let dir = ["w", "app"];
    let pkg = package(
        1,
        "app",
        &dir,
        vec![declared("once-cell", DependencyKind::Normal, None)],
    );
    let dep = package(7, "once_cell", &["w", "oc"], vec![]);
    let node = Node { deps: vec![7], features: vec![] };
    let md = metadata(vec![(1, node)], vec![pkg.clone(), dep], None, vec![]);
    let d = CrateDerivation::resolve(&config(&dir), &md, &pkg).unwrap();
    assert_eq!(
        d.dependencies,
        vec![ResolvedDependency { package_id: 7, target: None }]
    );
}

#[test]
fn duplicate_declared_names_keep_last_declaration() {
    let dir = ["w", "app"];
    let pkg = package(
        1,
        "app",
        &dir,
        vec![
            declared("libc", DependencyKind::Normal, Some("cfg(unix)")),
            declared("libc", DependencyKind::Normal, Some("cfg(windows)")),
        ],
    );
    let dep = package(3, "libc", &["w", "libc"], vec![]);
    let node = Node { deps: vec![3], features: vec![] };
    let md = metadata(vec![(1, node)], vec![pkg.clone(), dep], None, vec![]);
    let d = CrateDerivation::resolve(&config(&dir), &md, &pkg).unwrap();
    assert_eq!(
        d.dependencies,
        vec![ResolvedDependency { package_id: 3, target: Some("cfg(windows)".to_string()) }]
    );
}

#[test]
fn resolution_is_deterministic_and_sorted() {
    let dir = ["w", "app"];
    let pkg = package(
        1,
        "app",
        &dir,
        vec![
            declared("xray", DependencyKind::Normal, None),
            declared("yankee", DependencyKind::Normal, None),
            declared("zulu", DependencyKind::Normal, None),
        ],
    );
    let x = package(30, "xray", &["w", "x"], vec![]);
    let y = package(10, "yankee", &["w", "y"], vec![]);
    let z = package(20, "zulu", &["w", "z"], vec![]);
    let node = Node { deps: vec![30, 10, 20], features: vec![] };
    let md = metadata(vec![(1, node)], vec![pkg.clone(), x, y, z], None, vec![]);
    let d1 = CrateDerivation::resolve(&config(&dir), &md, &pkg).unwrap();
    let d2 = CrateDerivation::resolve(&config(&dir), &md, &pkg).unwrap();
    assert_eq!(d1, d2);
    let ids: Vec<u64> = d1.dependencies.iter().map(|r| r.package_id).collect();
    assert_eq!(ids, vec![10, 20, 30]);
}

#[test]
fn membership_flag_follows_root_and_members() {
    let dir = ["w", "app"];
    let pkg = package(1, "app", &dir, vec![]);
    let node = Node { deps: vec![], features: vec![] };

    let md_root = metadata(vec![(1, node.clone())], vec![pkg.clone()], Some(1), vec![]);
    assert!(CrateDerivation::resolve(&config(&dir), &md_root, &pkg).unwrap().is_root_or_workspace_member);

    let md_member = metadata(vec![(1, node.clone())], vec![pkg.clone()], None, vec![5, 1]);
    assert!(CrateDerivation::resolve(&config(&dir), &md_member, &pkg).unwrap().is_root_or_workspace_member);

    let md_outside = metadata(vec![(1, node)], vec![pkg.clone()], Some(9), vec![5]);
    assert!(!CrateDerivation::resolve(&config(&dir), &md_outside, &pkg).unwrap().is_root_or_workspace_member);
}

#[test]
fn targets_classify_paths_and_flags() {
    let dir = ["w", "app"];
    let mut pkg = package(1, "app", &dir, vec![]);
    pkg.targets = vec![
        Target {
            kinds: vec![TargetKind::Lib],
            src_path: comps(&["w", "app", "src", "lib.rs"]),
        },
        Target {
            kinds: vec![TargetKind::CustomBuild],
            src_path: comps(&["w", "app", "build.rs"]),
        },
        Target {
            kinds: vec![TargetKind::Bin],
            src_path: comps(&["w", "app", "src", "main.rs"]),
        },
    ];
    let node = Node { deps: vec![], features: vec![] };
    let md = metadata(vec![(1, node)], vec![pkg.clone()], None, vec![]);
    let d = CrateDerivation::resolve(&config(&dir), &md, &pkg).unwrap();
    assert_eq!(d.lib_path, Some("src/lib.rs".to_string()));
    assert_eq!(d.build, Some("build.rs".to_string()));
    assert!(d.has_bin);
    assert!(!d.proc_macro);
}

#[test]
fn target_outside_manifest_dir_is_absent() {
    let dir = ["w", "app"];
    let mut pkg = package(1, "app", &dir, vec![]);
    pkg.targets = vec![Target {
        kinds: vec![TargetKind::Lib, TargetKind::ProcMacro],
        src_path: comps(&["elsewhere", "lib.rs"]),
    }];
    let node = Node { deps: vec![], features: vec![] };
    let md = metadata(vec![(1, node)], vec![pkg.clone()], None, vec![]);
    let d = CrateDerivation::resolve(&config(&dir), &md, &pkg).unwrap();
    assert_eq!(d.lib_path, None);
    assert_eq!(d.build, None);
    assert!(d.proc_macro);
    assert!(!d.has_bin);
}

#[test]
fn source_dir_of_outside_package_ascends() {
    let root = ["w", "app"];
    let pkg = package(1, "vendored", &["w", "vendor", "dep"], vec![]);
    let node = Node { deps: vec![], features: vec![] };
    let md = metadata(vec![(1, node)], vec![pkg.clone()], None, vec![]);
    let d = CrateDerivation::resolve(&config(&root), &md, &pkg).unwrap();
    assert_eq!(d.source_directory, "../vendor/dep");
}

#[test]
fn any_kind_predicate_selects_its_kinds() {
    let pkg = package(
        1,
        "app",
        &["w", "app"],
        vec![
            declared("alpha", DependencyKind::Normal, None),
            declared("charlie", DependencyKind::Development, None),
        ],
    );
    let alpha = package(10, "alpha", &["w", "alpha"], vec![]);
    let charlie = package(30, "charlie", &["w", "charlie"], vec![]);
    let node = Node { deps: vec![10, 30], features: vec![] };
    let md = metadata(vec![(1, node)], vec![pkg.clone(), alpha, charlie], None, vec![]);
    let rd = ResolvedDependencies::new(&md, &pkg).unwrap();
    let dev_only = KindPredicate { normal: false, development: true, build: false, unknown: false };
    assert_eq!(
        rd.filtered_dependencies(dev_only),
        vec![ResolvedDependency { package_id: 30, target: None }]
    );
    let none = KindPredicate { normal: false, development: false, build: false, unknown: false };
    assert_eq!(rd.filtered_dependencies(none), Vec::new());
}

#[test]
fn features_keep_graph_order() {
    let dir = ["w", "app"];
    let pkg = package(1, "app", &dir, vec![]);
    let node = Node {
        deps: vec![],
        features: vec!["zeta".to_string(), "alpha".to_string(), "midway".to_string()],
    };
    let md = metadata(vec![(1, node)], vec![pkg.clone()], None, vec![]);
    let d = CrateDerivation::resolve(&config(&dir), &md, &pkg).unwrap();
    assert_eq!(
        d.features,
        vec!["zeta".to_string(), "alpha".to_string(), "midway".to_string()]
    );
}

#[test]
fn reconciler_sorts_edge_packages() {
    let pkg = package(
        1,
        "app",
        &["w", "app"],
        vec![declared("beta", DependencyKind::Normal, None)],
    );
    let a = package(12, "alpha", &["w", "a"], vec![]);
    let b = package(4, "beta", &["w", "b"], vec![]);
    let node = Node { deps: vec![12, 4], features: vec![] };
    let md = metadata(vec![(1, node)], vec![pkg.clone(), a, b], None, vec![]);
    let rd = ResolvedDependencies::new(&md, &pkg).unwrap();
    let ids: Vec<u64> = rd.packages.iter().map(|p| p.id).collect();
    assert_eq!(ids, vec![4, 12]);
    assert_eq!(rd.dependencies.len(), 1);

    let runtime = rd.filtered_dependencies(KindPredicate::runtime());
    assert_eq!(
        runtime,
        vec![ResolvedDependency { package_id: 4, target: None }]
    );
    let build = rd.filtered_dependencies(KindPredicate::build_time());
    assert_eq!(build, Vec::new());
}
