use tauri_ts_generator::generator::type_mapper::{primitive_to_typescript, to_camel_case as mapper_camel_case};
use tauri_ts_generator::utils::{
    to_camel_case, to_kebab_case, to_screaming_kebab_case, to_screaming_snake_case, to_snake_case,
};

#[test]
fn test_to_camel_case_basic() {
    assert_eq!(to_camel_case("get_user"), "getUser");
    assert_eq!(to_camel_case("get_user_by_id"), "getUserById");
    assert_eq!(to_camel_case("hello"), "hello");
    assert_eq!(to_camel_case("HELLO"), "hELLO");
}

#[test]
fn test_to_camel_case_edge_cases() {
    assert_eq!(to_camel_case("get__user"), "getUser");
    assert_eq!(to_camel_case("_private"), "private");
    assert_eq!(to_camel_case("__private_field"), "privateField");
    assert_eq!(to_camel_case("trailing_"), "trailing");
    assert_eq!(to_camel_case("a"), "a");
    assert_eq!(to_camel_case("get_user_1"), "getUser1");
}

#[test]
fn test_to_camel_case_already_camel() {
    assert_eq!(to_camel_case("getUser"), "getUser");
    assert_eq!(to_camel_case("getUserById"), "getUserById");
}

#[test]
fn test_to_camel_case() {
    assert_eq!(mapper_camel_case("get_user"), "getUser");
    assert_eq!(mapper_camel_case("get_user_by_id"), "getUserById");
    assert_eq!(mapper_camel_case("hello"), "hello");
    assert_eq!(mapper_camel_case("HELLO"), "hELLO");
}

#[test]
fn mapper_camel_case_capitalises_after_leading_underscore() {
    assert_eq!(mapper_camel_case("_private"), "Private");
    assert_eq!(mapper_camel_case(""), "");
}

#[test]
fn camel_case_of_empty_and_underscores_only() {
    assert_eq!(to_camel_case(""), "");
    assert_eq!(to_camel_case("___"), "");
}

#[test]
fn test_primitive_to_typescript() {
    assert_eq!(primitive_to_typescript("String"), "string");
    assert_eq!(primitive_to_typescript("i32"), "number");
    assert_eq!(primitive_to_typescript("u64"), "number");
    assert_eq!(primitive_to_typescript("f32"), "number");
    assert_eq!(primitive_to_typescript("bool"), "boolean");
}

#[test]
fn primitive_to_typescript_other_groups() {
    assert_eq!(primitive_to_typescript("Uuid"), "string");
    assert_eq!(primitive_to_typescript("Duration"), "number");
    assert_eq!(primitive_to_typescript("Bytes"), "number[]");
    assert_eq!(primitive_to_typescript("Value"), "unknown");
    assert_eq!(primitive_to_typescript("Whatever"), "unknown");
}

#[test]
fn snake_case_of_pascal_case() {
    assert_eq!(to_snake_case("UserProfile"), "user_profile");
    assert_eq!(to_snake_case("ID"), "i_d");
    assert_eq!(to_snake_case(""), "");
}

#[test]
fn screaming_and_kebab_cases() {
    assert_eq!(to_screaming_snake_case("UserProfile"), "USER_PROFILE");
    assert_eq!(to_kebab_case("UserProfile"), "user-profile");
    assert_eq!(to_screaming_kebab_case("UserProfile"), "USER-PROFILE");
}
