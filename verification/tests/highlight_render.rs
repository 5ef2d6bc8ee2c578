use play_rinja::catalog::build_catalog;
use play_rinja::highlight::{
    assets_syntax_set, assets_theme, assets_theme_names, find_syntax, load_assets, render_text,
    split_lines, theme_entry_of,
};
use play_rinja::merge::RenderNode;
use play_rinja::session::default_struct_source;
use play_rinja::style::theme_defaults;

#[test]
fn split_lines_keeps_endings() {
    let lines = split_lines("a\nbb\n");
    assert_eq!(lines, vec!["a\n".to_string(), "bb\n".to_string()]);
    let lines = split_lines("a\nbb");
    assert_eq!(lines, vec!["a\n".to_string(), "bb".to_string()]);
    let lines = split_lines("");
    assert!(lines.is_empty());
    let lines = split_lines("\n\n");
    assert_eq!(lines, vec!["\n".to_string(), "\n".to_string()]);
}

#[test]
fn rendering_reconstitutes_the_text_with_styling() {
    let assets = load_assets();
    let set = assets_syntax_set(&assets).expect("embedded syntax set must load");
    let syntax = find_syntax(set, "Rust").expect("the Rust syntax must exist");
    let theme_names = assets_theme_names(&assets);
    assert!(!theme_names.is_empty());
    let theme = assets_theme(&assets, "Monokai Extended Origin");
    let entry = theme_entry_of("Monokai Extended Origin", &theme);
    let d = theme_defaults(entry.foreground, entry.background);
    let text = default_struct_source();
    let nodes = render_text(text, syntax, &theme, set, &d).expect("highlighting must succeed");
    let rebuilt: String = nodes
        .iter()
        .map(|n| match n {
            RenderNode::PlainText(t) => t.as_str(),
            RenderNode::StyledSpan(_, t) => t.as_str(),
        })
        .collect();
    assert_eq!(rebuilt, text, "nodes must reconstitute the input exactly");
    assert!(
        nodes.iter().any(|n| matches!(n, RenderNode::StyledSpan(..))),
        "a Rust source under a real theme must produce at least one styled span"
    );
    let classes: Vec<Option<_>> = nodes
        .iter()
        .map(|n| match n {
            RenderNode::PlainText(_) => None,
            RenderNode::StyledSpan(desc, _) => Some(*desc),
        })
        .collect();
    for pair in classes.windows(2) {
        assert_ne!(pair[0], pair[1], "adjacent nodes must differ in classification");
    }
}

#[test]
fn embedded_catalog_lists_the_default_theme() {
    let assets = load_assets();
    let theme_names = assets_theme_names(&assets);
    let mut entries = Vec::new();
    for name in &theme_names {
        let theme = assets_theme(&assets, name);
        entries.push(theme_entry_of(name, &theme));
    }
    let catalog = build_catalog(entries);
    assert!(!catalog.is_empty());
    assert!(catalog.iter().any(|e| e.name == "Monokai Extended Origin"));
    assert!(catalog.iter().all(|e| e.name != "ansi" && e.name != "base16" && e.name != "base16-256"));
    let lowered: Vec<String> = catalog.iter().map(|e| e.name.to_lowercase()).collect();
    let mut sorted = lowered.clone();
    sorted.sort();
    assert_eq!(lowered, sorted, "catalog must be sorted case-insensitively");
}
