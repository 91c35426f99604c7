use tauri_ts_generator::parser::command::{
    is_tauri_command_attr, is_tauri_special_type, parse_return_type, parse_type, parse_type_with_context,
    WrittenType,
};
use tauri_ts_generator::parser::types::{get_serde_rename, is_serializable_derive};
use tauri_ts_generator::parser::RustType;

fn path(segs: &[&str], args: Vec<WrittenType>) -> WrittenType {
    WrittenType::Path { segments: segs.iter().map(|s| s.to_string()).collect(), args }
}

#[test]
fn primitives_and_wrappers() {
    assert!(matches!(parse_type(&path(&["str"], vec![])), RustType::Primitive(ref p) if p == "String"));
    assert!(matches!(parse_type(&path(&["u64"], vec![])), RustType::Primitive(ref p) if p == "u64"));
    match parse_type(&path(&["Vec"], vec![path(&["crate", "models", "User"], vec![])])) {
        RustType::Vec(inner) => assert!(matches!(*inner, RustType::Custom(ref c) if c == "crate::models::User")),
        other => panic!("expected a list, got {:?}", other),
    }
    assert!(matches!(parse_type(&path(&["Vec"], vec![])), RustType::Unknown(ref d) if d == "Vec<?>"));
    match parse_type(&path(&["HashMap"], vec![path(&["String"], vec![]), path(&["i32"], vec![])])) {
        RustType::HashMap { key, value } => {
            assert!(matches!(*key, RustType::Primitive(ref p) if p == "String"));
            assert!(matches!(*value, RustType::Primitive(ref p) if p == "i32"));
        },
        other => panic!("expected a map, got {:?}", other),
    }
}

#[test]
fn references_slices_and_tuples() {
    let r = parse_type(&WrittenType::Reference(Box::new(path(&["User"], vec![]))));
    assert!(matches!(r, RustType::Custom(ref c) if c == "User"));
    let s = parse_type(&WrittenType::Slice(Box::new(path(&["u8"], vec![]))));
    assert!(matches!(s, RustType::Vec(_)));
    assert!(matches!(parse_type(&WrittenType::Tuple(vec![])), RustType::Unit));
    match parse_type(&WrittenType::Tuple(vec![path(&["i32"], vec![]), path(&["User"], vec![])])) {
        RustType::Tuple(ts) => assert_eq!(ts.len(), 2),
        other => panic!("expected a tuple, got {:?}", other),
    }
}

#[test]
fn generic_parameters_in_context() {
    let gp = vec!["T".to_string()];
    assert!(matches!(parse_type_with_context(&path(&["T"], vec![]), &gp), RustType::Generic(ref g) if g == "T"));
    assert!(matches!(parse_type(&path(&["T"], vec![])), RustType::Custom(ref c) if c == "T"));
}

#[test]
fn unit_return_is_none() {
    assert!(parse_return_type(Some(RustType::Unit)).is_none());
    assert!(parse_return_type(None).is_none());
    assert!(parse_return_type(Some(RustType::Custom("User".into()))).is_some());
}

#[test]
fn command_attributes() {
    assert!(is_tauri_command_attr(&vec!["tauri".to_string(), "command".to_string()]));
    assert!(is_tauri_command_attr(&vec!["command".to_string()]));
    assert!(!is_tauri_command_attr(&vec!["test".to_string()]));
    assert!(!is_tauri_command_attr(&vec!["other".to_string(), "command".to_string()]));
}

#[test]
fn injected_argument_types() {
    assert!(is_tauri_special_type("State"));
    assert!(is_tauri_special_type("AppHandle"));
    assert!(!is_tauri_special_type("String"));
}

#[test]
fn serializable_derives() {
    assert!(is_serializable_derive("Debug , Clone , Serialize"));
    assert!(is_serializable_derive("Deserialize"));
    assert!(!is_serializable_derive("Debug , Clone"));
}

#[test]
fn serde_rename_values() {
    assert_eq!(get_serde_rename("rename = \"accessToken\""), Some("accessToken".to_string()));
    assert_eq!(get_serde_rename("rename_all = \"camelCase\""), Some("camelCase".to_string()));
    assert_eq!(get_serde_rename("default"), None);
    assert_eq!(get_serde_rename("rename = unquoted"), None);
}
