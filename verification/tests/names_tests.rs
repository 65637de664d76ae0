use crate_derivations::names::{names_match, normalize_package_name};
use crate_derivations::paths::{join_components, relative_source_dir};

fn comps(parts: &[&str]) -> Vec<String> {
    parts.iter().map(|p| p.to_string()).collect()
}

#[test]
fn normalize_replaces_dashes() {
    assert_eq!(normalize_package_name("foo-bar"), "foo_bar");
    assert_eq!(normalize_package_name("foo_bar"), "foo_bar");
    assert_eq!(normalize_package_name("a-b-c"), "a_b_c");
    assert_eq!(normalize_package_name(""), "");
}

#[test]
fn normalize_is_idempotent_on_values() {
    let once = normalize_package_name("left-pad_x-y");
    let twice = normalize_package_name(&once);
    assert_eq!(once, twice);
}

#[test]
fn names_match_ignores_dash_underscore() {
    assert!(names_match(
        &"once-cell".to_string(),
        &"once_cell".to_string()
    ));
    assert!(names_match(&"serde".to_string(), &"serde".to_string()));
    assert!(!names_match(&"serde".to_string(), &"serde_json".to_string()));
}

#[test]
fn join_components_uses_slashes() {
    assert_eq!(join_components(&comps(&["src", "lib.rs"])), "src/lib.rs");
    assert_eq!(join_components(&comps(&["main.rs"])), "main.rs");
    assert_eq!(join_components(&comps(&[])), "");
}

#[test]
fn source_dir_of_root_is_self_reference() {
    let root = comps(&["home", "user", "proj"]);
    assert_eq!(relative_source_dir(&root, &root), "./.");
}

#[test]
fn source_dir_below_root_gets_same_root_marker() {
    let root = comps(&["home", "user", "proj"]);
    let dir = comps(&["home", "user", "proj", "sub"]);
    assert_eq!(relative_source_dir(&root, &dir), "./sub");
    let deeper = comps(&["home", "user", "proj", "crates", "core"]);
    assert_eq!(relative_source_dir(&root, &deeper), "./crates/core");
}

#[test]
fn source_dir_outside_root_ascends() {
    let root = comps(&["home", "user", "proj"]);
    let sibling = comps(&["home", "user", "vendored", "dep"]);
    assert_eq!(relative_source_dir(&root, &sibling), "../vendored/dep");
    let far = comps(&["srv", "cache"]);
    assert_eq!(relative_source_dir(&root, &far), "../../../srv/cache");
    let above = comps(&["home", "user"]);
    assert_eq!(relative_source_dir(&root, &above), "..");
}
