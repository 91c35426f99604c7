use tauri_ts_generator::collector::{collect_custom_types_from_rust_type, collect_used_types, used_enums, used_structs};
use tauri_ts_generator::parser::{
    CommandArg, EnumVariant, ParseResult, RustEnum, RustStruct, RustType, StructField, TauriCommand,
    VariantData,
};
use tauri_ts_generator::resolver::ModuleResolver;
use tauri_ts_generator::scope::{ItemFact, UseTree};

fn segs(parts: &[&str]) -> Vec<String> {
    parts.iter().map(|p| p.to_string()).collect()
}

fn use_of(parts: &[&str], leaf: UseTree) -> UseTree {
    let mut tree = leaf;
    for p in parts.iter().rev() {
        tree = UseTree::Path(p.to_string(), Box::new(tree));
    }
    tree
}

fn custom(name: &str) -> RustType {
    RustType::Custom(name.to_string())
}

fn prim(name: &str) -> RustType {
    RustType::Primitive(name.to_string())
}

fn field(name: &str, ty: RustType) -> StructField {
    StructField { name: name.to_string(), ty }
}

fn rstruct(name: &str, file: &str, fields: Vec<StructField>) -> RustStruct {
    RustStruct { name: name.to_string(), generics: vec![], fields, source_file: file.to_string() }
}

fn command(name: &str, args: Vec<(&str, RustType)>, ret: Option<RustType>, file: &str) -> TauriCommand {
    TauriCommand {
        name: name.to_string(),
        args: args.into_iter().map(|(n, ty)| CommandArg { name: n.to_string(), ty }).collect(),
        return_type: ret,
        source_file: file.to_string(),
        rename_all: None,
    }
}

fn resolved_of(r: &tauri_ts_generator::collector::TypeCollectionResult, name: &str) -> Option<String> {
    r.resolved.iter().find(|e| e.0 == name).map(|e| e.1.clone())
}

fn scenario_a() -> (ModuleResolver, ParseResult) {
    let mut r = ModuleResolver::new();
    r.add_file("src/models.rs".into(), segs(&["crate", "models"]), &vec![ItemFact::Struct("User".into())]);
    r.add_file(
        "src/commands.rs".into(),
        segs(&["crate", "commands"]),
        &vec![ItemFact::Use(use_of(&["crate", "models"], UseTree::Name("User".into())))],
    );
    let mut pr = ParseResult::new();
    pr.structs.push(rstruct(
        "User",
        "src/models.rs",
        vec![field("id", prim("i32")), field("name", prim("String"))],
    ));
    pr.commands.push(command("get_user", vec![("id", prim("i32"))], Some(custom("User")), "src/commands.rs"));
    (r, pr)
}

#[test]
fn imported_type_is_resolved_to_its_file() {
    let (r, pr) = scenario_a();
    let out = collect_used_types(&pr, &r);
    assert_eq!(out.resolved, vec![("User".to_string(), "src/models.rs".to_string())]);
    assert!(out.conflicts.is_empty());
}

#[test]
fn ambiguous_reference_is_dropped_without_conflict() {
    let mut r = ModuleResolver::new();
    r.add_file("src/x/types.rs".into(), segs(&["crate", "x", "types"]), &vec![ItemFact::Struct("User".into())]);
    r.add_file("src/y/types.rs".into(), segs(&["crate", "y", "types"]), &vec![ItemFact::Struct("User".into())]);
    r.add_file("src/commands.rs".into(), segs(&["crate", "commands"]), &vec![]);
    let mut pr = ParseResult::new();
    pr.structs.push(rstruct("User", "src/x/types.rs", vec![]));
    pr.structs.push(rstruct("User", "src/y/types.rs", vec![]));
    pr.commands.push(command("get_user", vec![], Some(custom("User")), "src/commands.rs"));
    let out = collect_used_types(&pr, &r);
    assert_eq!(resolved_of(&out, "User"), None);
    assert!(out.conflicts.is_empty());
}

#[test]
fn closure_follows_fields_in_the_declaring_file() {
    let mut r = ModuleResolver::new();
    r.add_file(
        "src/models.rs".into(),
        segs(&["crate", "models"]),
        &vec![ItemFact::Struct("Item".into()), ItemFact::Struct("Tag".into())],
    );
    r.add_file(
        "src/commands.rs".into(),
        segs(&["crate", "commands"]),
        &vec![ItemFact::Use(use_of(&["crate", "models"], UseTree::Name("Item".into())))],
    );
    let mut pr = ParseResult::new();
    pr.structs.push(rstruct("Item", "src/models.rs", vec![field("tag", custom("Tag"))]));
    pr.structs.push(rstruct("Tag", "src/models.rs", vec![field("label", prim("String"))]));
    pr.commands.push(command("get_item", vec![], Some(custom("Item")), "src/commands.rs"));
    let out = collect_used_types(&pr, &r);
    assert_eq!(resolved_of(&out, "Item"), Some("src/models.rs".to_string()));
    assert_eq!(resolved_of(&out, "Tag"), Some("src/models.rs".to_string()));
    assert!(out.conflicts.is_empty());
}

#[test]
fn two_definitions_reached_are_a_conflict() {
    let mut r = ModuleResolver::new();
    r.add_file("src/shared.rs".into(), segs(&["crate", "shared"]), &vec![ItemFact::Struct("Config".into())]);
    r.add_file(
        "src/other/config.rs".into(),
        segs(&["crate", "other", "config"]),
        &vec![ItemFact::Struct("Config".into())],
    );
    r.add_file(
        "src/b.rs".into(),
        segs(&["crate", "b"]),
        &vec![ItemFact::Use(use_of(&["crate"], UseTree::Name("shared".into())))],
    );
    r.add_file(
        "src/c.rs".into(),
        segs(&["crate", "c"]),
        &vec![ItemFact::Use(use_of(&["crate", "other", "config"], UseTree::Name("Config".into())))],
    );
    let mut pr = ParseResult::new();
    pr.commands.push(command("get_b", vec![], Some(custom("shared::Config")), "src/b.rs"));
    pr.commands.push(command("get_c", vec![], Some(custom("Config")), "src/c.rs"));
    let out = collect_used_types(&pr, &r);
    assert_eq!(
        out.conflicts,
        vec![("Config".to_string(), vec!["src/shared.rs".to_string(), "src/other/config.rs".to_string()])]
    );
    assert_eq!(resolved_of(&out, "Config"), Some("src/shared.rs".to_string()));
}

#[test]
fn collecting_twice_gives_the_same_result() {
    let (r, pr) = scenario_a();
    let first = collect_used_types(&pr, &r);
    let second = collect_used_types(&pr, &r);
    assert_eq!(first.resolved, second.resolved);
    assert_eq!(first.conflicts, second.conflicts);
}

#[test]
fn nothing_is_collected_without_commands() {
    let (r, mut pr) = scenario_a();
    pr.commands.clear();
    let out = collect_used_types(&pr, &r);
    assert!(out.resolved.is_empty());
    assert!(out.conflicts.is_empty());
}

#[test]
fn enum_payloads_and_wrappers_are_followed() {
    let mut r = ModuleResolver::new();
    r.add_file(
        "src/models.rs".into(),
        segs(&["crate", "models"]),
        &vec![
            ItemFact::Enum("Event".into()),
            ItemFact::Struct("Payload".into()),
            ItemFact::Struct("Meta".into()),
            ItemFact::Struct("Unused".into()),
        ],
    );
    let mut pr = ParseResult::new();
    pr.enums.push(RustEnum {
        name: "Event".into(),
        variants: vec![
            EnumVariant { name: "Empty".into(), data: VariantData::Unit },
            EnumVariant {
                name: "Data".into(),
                data: VariantData::Tuple(vec![RustType::Vec(Box::new(custom("Payload")))]),
            },
            EnumVariant {
                name: "Info".into(),
                data: VariantData::Struct(vec![field("meta", RustType::Option(Box::new(custom("Meta"))))]),
            },
        ],
        source_file: "src/models.rs".into(),
    });
    pr.structs.push(rstruct("Payload", "src/models.rs", vec![]));
    pr.structs.push(rstruct("Meta", "src/models.rs", vec![]));
    pr.structs.push(rstruct("Unused", "src/models.rs", vec![]));
    pr.commands.push(command(
        "events",
        vec![],
        Some(RustType::Result(Box::new(RustType::HashMap {
            key: Box::new(prim("String")),
            value: Box::new(custom("Event")),
        }))),
        "src/models.rs",
    ));
    let out = collect_used_types(&pr, &r);
    assert_eq!(resolved_of(&out, "Event"), Some("src/models.rs".to_string()));
    assert_eq!(resolved_of(&out, "Payload"), Some("src/models.rs".to_string()));
    assert_eq!(resolved_of(&out, "Meta"), Some("src/models.rs".to_string()));
    assert_eq!(resolved_of(&out, "Unused"), None);
    assert_eq!(used_structs(&pr.structs, &out), vec![0, 1]);
    assert_eq!(used_enums(&pr.enums, &out), vec![0]);
}

#[test]
fn aliased_import_is_recorded_under_the_declared_name() {
    let mut r = ModuleResolver::new();
    r.add_file("src/models.rs".into(), segs(&["crate", "models"]), &vec![ItemFact::Struct("User".into())]);
    r.add_file(
        "src/commands.rs".into(),
        segs(&["crate", "commands"]),
        &vec![ItemFact::Use(use_of(&["crate", "models"], UseTree::Rename("User".into(), "Person".into())))],
    );
    let mut pr = ParseResult::new();
    pr.commands.push(command("who", vec![("p", custom("Person"))], None, "src/commands.rs"));
    let out = collect_used_types(&pr, &r);
    assert_eq!(out.resolved, vec![("User".to_string(), "src/models.rs".to_string())]);
}

#[test]
fn custom_names_without_repeats() {
    let ty = RustType::Tuple(vec![custom("A"), RustType::Vec(Box::new(custom("B"))), custom("A")]);
    assert_eq!(collect_custom_types_from_rust_type(&ty), vec!["A".to_string(), "B".to_string()]);
    assert!(collect_custom_types_from_rust_type(&RustType::Unit).is_empty());
}

#[test]
fn only_the_first_resolved_declaration_is_used() {
    let (r, mut pr) = scenario_a();
    pr.structs.push(rstruct("User", "src/models.rs", vec![]));
    pr.structs.push(rstruct("User", "src/elsewhere.rs", vec![]));
    let out = collect_used_types(&pr, &r);
    assert_eq!(used_structs(&pr.structs, &out), vec![0]);
}
