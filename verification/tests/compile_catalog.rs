use play_rinja::catalog::{build_catalog, find_name, resolve_theme_index, ThemeEntry};
use play_rinja::compiler::compile;

fn entry(name: &str) -> ThemeEntry {
    ThemeEntry { name: name.to_string(), foreground: None, background: None, caret: None }
}

fn names(list: &[&str]) -> Vec<String> {
    list.iter().map(|s| s.to_string()).collect()
}

#[test]
fn compile_is_deterministic() {
    let rust = "struct HelloWorld<'a> { user: &'a str }";
    let tmpl = "Hello, {{user}}!";
    let first = compile(rust, tmpl);
    let second = compile(rust, tmpl);
    assert_eq!(first, second);
}

#[test]
fn compile_embeds_both_sources() {
    let generated = compile("struct HelloWorld;", "Hello!");
    assert!(generated.contains("struct HelloWorld;"), "generated: {generated}");
    assert!(generated.contains("Hello!"), "generated: {generated}");
}

#[test]
fn compile_never_throws_on_malformed_input() {
    let generated = compile("struct {{{", "tmpl");
    assert!(!generated.is_empty());
    let generated = compile("", "");
    assert!(!generated.is_empty());
}

#[test]
fn find_name_reports_first_match() {
    let list = names(&["A", "B", "A"]);
    assert_eq!(find_name(&list, "A"), Some(0));
    assert_eq!(find_name(&list, "B"), Some(1));
    assert_eq!(find_name(&list, "C"), None);
}

#[test]
fn resolve_prefers_requested_then_default_then_first() {
    let with_default = names(&["A", "Monokai Extended Origin", "Z"]);
    assert_eq!(resolve_theme_index(&with_default, "Z"), 2);
    assert_eq!(resolve_theme_index(&with_default, "missing"), 1);
    let without_default = names(&["A", "B"]);
    assert_eq!(resolve_theme_index(&without_default, "missing"), 0);
}

#[test]
fn catalog_drops_terminal_themes_and_sorts_case_insensitively() {
    let raw = vec![
        entry("zeta"),
        entry("ansi"),
        entry("Alpha"),
        entry("base16"),
        entry("beta"),
        entry("base16-256"),
        entry("Beta2"),
    ];
    let catalog = build_catalog(raw);
    let got: Vec<&str> = catalog.iter().map(|e| e.name.as_str()).collect();
    assert_eq!(got, vec!["Alpha", "beta", "Beta2", "zeta"]);
}

#[test]
fn catalog_keeps_duplicate_names() {
    let raw = vec![entry("b"), entry("B"), entry("a")];
    let catalog = build_catalog(raw);
    assert_eq!(catalog.len(), 3);
    assert_eq!(catalog[0].name, "a");
}
