use tauri_ts_generator::config::Config;
use tauri_ts_generator::scanner::Scanner;

#[test]
fn test_is_rust_file() {
    let scanner = Scanner::new(".".to_string(), vec![]);

    assert!(scanner.is_rust_file("main.rs"));
    assert!(scanner.is_rust_file("src/lib.rs"));
    assert!(!scanner.is_rust_file("file.txt"));
    assert!(!scanner.is_rust_file("file.ts"));
}

#[test]
fn test_is_excluded() {
    let scanner = Scanner::new(".".to_string(), vec!["target".to_string(), "tests".to_string()]);

    assert!(scanner.is_excluded("target/debug/main.rs"));
    assert!(scanner.is_excluded("src/tests/test.rs"));
    assert!(!scanner.is_excluded("src/main.rs"));
}

#[test]
fn rust_file_needs_a_stem() {
    let scanner = Scanner::new(".".to_string(), vec![]);
    assert!(!scanner.is_rust_file(".rs"));
    assert!(!scanner.is_rust_file("src/.rs"));
    assert!(!scanner.is_rust_file("src.rs/readme"));
}

#[test]
fn nothing_excluded_without_patterns() {
    let scanner = Scanner::new(".".to_string(), vec![]);
    assert!(!scanner.is_excluded("target/debug/main.rs"));
}

#[test]
fn default_config_values() {
    let c = Config::default_config();
    assert_eq!(c.input.source_dir, "src-tauri/src");
    assert_eq!(c.input.exclude, vec!["tests".to_string(), "target".to_string()]);
    assert_eq!(c.output.types_file, "src/generated/types.ts");
    assert_eq!(c.output.commands_file, "src/generated/commands.ts");
    assert!(c.naming.type_prefix.is_empty());
    assert!(c.naming.function_suffix.is_empty());
}
