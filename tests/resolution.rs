use tauri_ts_generator::resolver::{ModuleResolver, ResolutionResult};
use tauri_ts_generator::scope::{ItemFact, UseTree};

fn segs(parts: &[&str]) -> Vec<String> {
    parts.iter().map(|p| p.to_string()).collect()
}

fn use_of(parts: &[&str], leaf: UseTree) -> UseTree {
    let mut tree = leaf;
    for p in parts.iter().rev() {
        tree = UseTree::Path(p.to_string(), Box::new(tree));
    }
    tree
}

fn add(r: &mut ModuleResolver, file: &str, module: &[&str], items: Vec<ItemFact>) {
    r.add_file(file.to_string(), segs(module), &items);
}

fn found(r: &ResolutionResult) -> Option<String> {
    match r {
        ResolutionResult::Found(f) => Some(f.clone()),
        _ => None,
    }
}

#[test]
fn local_type_resolves_to_its_file() {
    let mut r = ModuleResolver::new();
    add(&mut r, "src/models.rs", &["crate", "models"], vec![ItemFact::Struct("User".into())]);
    let res = r.resolve_type("User", "src/models.rs");
    assert_eq!(found(&res), Some("src/models.rs".to_string()));
}

#[test]
fn renamed_import_reports_original_name() {
    let mut r = ModuleResolver::new();
    add(&mut r, "src/models.rs", &["crate", "models"], vec![ItemFact::Struct("User".into())]);
    add(
        &mut r,
        "src/commands.rs",
        &["crate", "commands"],
        vec![ItemFact::Use(use_of(&["crate", "models"], UseTree::Rename("User".into(), "Person".into())))],
    );
    match r.resolve_type("Person", "src/commands.rs") {
        ResolutionResult::FoundWithAlias(f, original) => {
            assert_eq!(f, "src/models.rs");
            assert_eq!(original, "User");
        },
        other => panic!("expected an aliased hit, got {:?}", other),
    }
}

#[test]
fn wildcard_chain_of_three_hops() {
    let mut r = ModuleResolver::new();
    add(&mut r, "src/lib.rs", &["crate"], vec![ItemFact::Use(use_of(&["a"], UseTree::Glob))]);
    add(&mut r, "src/a/mod.rs", &["crate", "a"], vec![ItemFact::Use(use_of(&["b"], UseTree::Glob))]);
    add(&mut r, "src/a/b/mod.rs", &["crate", "a", "b"], vec![ItemFact::Use(use_of(&["c"], UseTree::Glob))]);
    add(&mut r, "src/a/b/c.rs", &["crate", "a", "b", "c"], vec![ItemFact::Struct("DeepType".into())]);
    let res = r.resolve_type("DeepType", "src/lib.rs");
    assert_eq!(found(&res), Some("src/a/b/c.rs".to_string()));
}

#[test]
fn cyclic_wildcards_terminate() {
    let mut r = ModuleResolver::new();
    add(&mut r, "src/a.rs", &["crate", "a"], vec![ItemFact::Use(use_of(&["super", "b"], UseTree::Glob))]);
    add(&mut r, "src/b.rs", &["crate", "b"], vec![ItemFact::Use(use_of(&["super", "a"], UseTree::Glob))]);
    let res = r.resolve_type("Missing", "src/a.rs");
    assert!(matches!(res, ResolutionResult::NotFound));
}

#[test]
fn two_unrelated_definitions_are_ambiguous_in_first_seen_order() {
    let mut r = ModuleResolver::new();
    add(&mut r, "src/x/types.rs", &["crate", "x", "types"], vec![ItemFact::Struct("User".into())]);
    add(&mut r, "src/y/types.rs", &["crate", "y", "types"], vec![ItemFact::Struct("User".into())]);
    add(&mut r, "src/commands.rs", &["crate", "commands"], vec![]);
    match r.resolve_type("User", "src/commands.rs") {
        ResolutionResult::Ambiguous(files) => {
            assert_eq!(files, vec!["src/x/types.rs".to_string(), "src/y/types.rs".to_string()])
        },
        other => panic!("expected ambiguity, got {:?}", other),
    }
}

#[test]
fn sibling_definition_wins_the_tie() {
    let mut r = ModuleResolver::new();
    add(&mut r, "src/x/types.rs", &["crate", "x", "types"], vec![ItemFact::Struct("User".into())]);
    add(&mut r, "src/y/types.rs", &["crate", "y", "types"], vec![ItemFact::Struct("User".into())]);
    add(&mut r, "src/y/commands.rs", &["crate", "y", "commands"], vec![]);
    let res = r.resolve_type("User", "src/y/commands.rs");
    assert_eq!(found(&res), Some("src/y/types.rs".to_string()));
}

#[test]
fn file_without_scope_uses_the_index() {
    let mut r = ModuleResolver::new();
    add(&mut r, "src/models.rs", &["crate", "models"], vec![ItemFact::Struct("User".into())]);
    let res = r.resolve_type("User", "<generated>");
    assert_eq!(found(&res), Some("src/models.rs".to_string()));
    assert!(matches!(r.resolve_type("Nobody", "<generated>"), ResolutionResult::NotFound));
}

#[test]
fn qualified_path_through_super() {
    let mut r = ModuleResolver::new();
    add(&mut r, "src/shared.rs", &["crate", "shared"], vec![ItemFact::Struct("Config".into())]);
    add(&mut r, "src/other/config.rs", &["crate", "other", "config"], vec![ItemFact::Struct("Config".into())]);
    add(&mut r, "src/b.rs", &["crate", "b"], vec![]);
    let res = r.resolve_type("super::shared::Config", "src/b.rs");
    assert_eq!(found(&res), Some("src/shared.rs".to_string()));
    let res = r.resolve_type("crate::other::config::Config", "src/b.rs");
    assert_eq!(found(&res), Some("src/other/config.rs".to_string()));
}

#[test]
fn super_above_the_root_is_not_found() {
    let mut r = ModuleResolver::new();
    add(&mut r, "src/lib.rs", &["crate"], vec![ItemFact::Struct("Config".into())]);
    assert!(matches!(r.resolve_type("super::Config", "src/lib.rs"), ResolutionResult::NotFound));
}

#[test]
fn explicit_import_shadows_wildcard() {
    let mut r = ModuleResolver::new();
    add(&mut r, "src/v1.rs", &["crate", "v1"], vec![ItemFact::Struct("User".into())]);
    add(&mut r, "src/v2.rs", &["crate", "v2"], vec![ItemFact::Struct("User".into())]);
    add(
        &mut r,
        "src/commands.rs",
        &["crate", "commands"],
        vec![
            ItemFact::Use(use_of(&["crate", "v2"], UseTree::Glob)),
            ItemFact::Use(use_of(&["crate", "v1"], UseTree::Name("User".into()))),
        ],
    );
    let res = r.resolve_type("User", "src/commands.rs");
    assert_eq!(found(&res), Some("src/v1.rs".to_string()));
}

#[test]
fn synthetic_facts_do_not_shadow_source_declarations() {
    let mut r = ModuleResolver::new();
    add(
        &mut r,
        "src/resources/types.rs",
        &["crate", "resources", "types"],
        vec![ItemFact::Struct("DeploymentContainerInfo".into())],
    );
    add(
        &mut r,
        "src/resources/workloads.rs",
        &["crate", "resources", "workloads"],
        vec![
            ItemFact::Use(use_of(&["super", "types"], UseTree::Name("DeploymentContainerInfo".into()))),
            ItemFact::Struct("StatefulSetDetailInfo".into()),
        ],
    );
    r.register_synthetic_type(&"DeploymentContainerInfo".to_string(), &"<cargo-expand>".to_string());
    r.register_synthetic_type(&"OnlyExpanded".to_string(), &"<cargo-expand>".to_string());
    let locs: Vec<&Vec<String>> =
        r.type_definitions.iter().filter(|e| e.0 == "DeploymentContainerInfo").map(|e| &e.1).collect();
    assert_eq!(locs, vec![&vec!["src/resources/types.rs".to_string()]]);
    let res = r.resolve_type("DeploymentContainerInfo", "src/resources/workloads.rs");
    assert_eq!(found(&res), Some("src/resources/types.rs".to_string()));
    let res = r.resolve_type("OnlyExpanded", "src/resources/workloads.rs");
    assert_eq!(found(&res), Some("<cargo-expand>".to_string()));
}

#[test]
fn grouped_use_tree_records_each_import() {
    let mut r = ModuleResolver::new();
    let tree = use_of(
        &["crate", "resources"],
        UseTree::Group(vec![
            UseTree::Name("A".into()),
            UseTree::Rename("B".into(), "C".into()),
            use_of(&["inner"], UseTree::Glob),
        ]),
    );
    add(&mut r, "src/commands.rs", &["crate", "commands"], vec![ItemFact::Use(tree)]);
    let scope = &r.files[0];
    assert_eq!(scope.imports.len(), 2);
    assert_eq!(scope.imports[0].0, "A");
    assert_eq!(scope.imports[0].1.path, segs(&["crate", "resources", "A"]));
    assert_eq!(scope.imports[1].0, "C");
    assert_eq!(scope.imports[1].1.original_name, "B");
    assert_eq!(scope.wildcard_imports, vec![segs(&["crate", "resources", "inner"])]);
}

#[test]
fn module_paths_of_files() {
    assert_eq!(ModuleResolver::path_to_module(&segs(&["commands.rs"])), segs(&["crate", "commands"]));
    assert_eq!(ModuleResolver::path_to_module(&segs(&["lib.rs"])), segs(&["crate"]));
    assert_eq!(
        ModuleResolver::path_to_module(&segs(&["resources", "mod.rs"])),
        segs(&["crate", "resources"])
    );
    assert_eq!(ModuleResolver::path_to_module(&segs(&["a", "b.rs.rs"])), segs(&["crate", "a", "b"]));
}

#[test]
fn re_adding_a_file_replaces_its_scope() {
    let mut r = ModuleResolver::new();
    add(&mut r, "src/models.rs", &["crate", "models"], vec![ItemFact::Struct("Old".into())]);
    add(&mut r, "src/models.rs", &["crate", "models"], vec![ItemFact::Struct("New".into())]);
    assert_eq!(r.files.len(), 1);
    assert_eq!(found(&r.resolve_type("New", "src/models.rs")), Some("src/models.rs".to_string()));
}

#[test]
fn alias_chain_of_two_hops() {
    let mut r = ModuleResolver::new();
    add(
        &mut r,
        "src/models.rs",
        &["crate", "models"],
        vec![
            ItemFact::Struct("Base".into()),
            ItemFact::TypeAlias("Alias1".into(), "Base".into()),
            ItemFact::TypeAlias("Alias2".into(), "Alias1".into()),
        ],
    );
    assert_eq!(r.resolve_alias_target("Alias2", "src/models.rs"), Some("Base".to_string()));
    assert_eq!(r.resolve_alias_target("Base", "src/models.rs"), None);
}

#[test]
fn alias_found_in_another_file() {
    let mut r = ModuleResolver::new();
    add(&mut r, "src/a.rs", &["crate", "a"], vec![ItemFact::TypeAlias("Id".into(), "Uuid".into())]);
    add(&mut r, "src/b.rs", &["crate", "b"], vec![]);
    assert_eq!(r.resolve_alias_target("Id", "src/b.rs"), Some("Uuid".to_string()));
}

#[test]
fn cyclic_aliases_stop_at_the_cap() {
    let mut r = ModuleResolver::new();
    add(
        &mut r,
        "src/a.rs",
        &["crate", "a"],
        vec![ItemFact::TypeAlias("A".into(), "B".into()), ItemFact::TypeAlias("B".into(), "A".into())],
    );
    // Ten hops from A: B, A, B, ... ends on A.
    assert_eq!(r.resolve_alias_target("A", "src/a.rs"), Some("A".to_string()));
}
