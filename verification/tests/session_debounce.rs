use play_rinja::compiler::compile;
use play_rinja::session::{
    default_struct_source, default_template_source, initial_session, CompileSession, SourceKind,
    DEBOUNCE_DELAY_MS,
};

fn names(list: &[&str]) -> Vec<String> {
    list.iter().map(|s| s.to_string()).collect()
}

fn fresh_session() -> CompileSession {
    CompileSession::init(
        "A".to_string(),
        "struct HelloWorld;".to_string(),
        "hi".to_string(),
    )
}

#[test]
fn init_compiles_synchronously_and_arms_nothing() {
    let s = fresh_session();
    assert!(s.snapshot.pending_timer.is_none());
    assert_eq!(s.compile_count, 1);
    assert_eq!(s.snapshot.generated_code, compile("struct HelloWorld;", "hi"));
    assert!(s.snapshot.compile_duration.is_some());
}

#[test]
fn burst_of_edits_compiles_once_with_final_sources() {
    let mut s = fresh_session();
    let count_before = s.compile_count;
    let generated_before = s.snapshot.generated_code.clone();
    let texts = ["a", "ab", "abc", "abcd"];
    let mut handles = Vec::new();
    for (k, text) in texts.iter().enumerate() {
        let now = 100 * k as u64;
        handles.push(s.on_source_edit(SourceKind::StructSource, text.to_string(), now));
    }
    // during the burst nothing compiled and the stale result stays displayed
    assert_eq!(s.compile_count, count_before);
    assert_eq!(s.snapshot.generated_code, generated_before);
    // every cancelled handle fires without effect
    for stale in &handles[..3] {
        assert!(!s.on_timer_fire(*stale));
        assert_eq!(s.compile_count, count_before);
    }
    // the surviving handle's deadline is one quiet period after the last
    // edit: 300 + 500 ms
    assert_eq!(DEBOUNCE_DELAY_MS, 500);
    assert_eq!(s.scheduler.pending.unwrap().deadline, 800);
    // its firing compiles exactly once, against the final pair
    assert!(s.on_timer_fire(handles[3]));
    assert_eq!(s.compile_count, count_before + 1);
    assert_eq!(s.snapshot.generated_code, compile("abcd", "hi"));
    assert!(s.snapshot.pending_timer.is_none());
    // a late duplicate firing changes nothing
    assert!(!s.on_timer_fire(handles[3]));
    assert_eq!(s.compile_count, count_before + 1);
}

#[test]
fn spaced_edits_compile_independently() {
    let mut s = fresh_session();
    let count_before = s.compile_count;
    let h1 = s.on_source_edit(SourceKind::TemplateSource, "first".to_string(), 0);
    assert!(s.on_timer_fire(h1));
    assert_eq!(s.snapshot.generated_code, compile("struct HelloWorld;", "first"));
    let h2 = s.on_source_edit(SourceKind::TemplateSource, "second".to_string(), 10_000);
    assert!(s.on_timer_fire(h2));
    assert_eq!(s.snapshot.generated_code, compile("struct HelloWorld;", "second"));
    assert_eq!(s.compile_count, count_before + 2);
}

#[test]
fn edit_keeps_other_buffer_and_stale_output() {
    let mut s = fresh_session();
    let shown = s.snapshot.generated_code.clone();
    s.on_source_edit(SourceKind::TemplateSource, "tmpl2".to_string(), 0);
    assert_eq!(s.snapshot.struct_source, "struct HelloWorld;");
    assert_eq!(s.snapshot.template_source, "tmpl2");
    assert_eq!(s.snapshot.generated_code, shown);
    assert!(s.snapshot.pending_timer.is_some());
}

#[test]
fn theme_change_validates_against_catalog() {
    let mut s = fresh_session();
    let catalog = names(&["A", "B"]);
    assert!(!s.on_theme_change(&catalog, "Missing".to_string()));
    assert_eq!(s.snapshot.theme, "A");
    assert!(s.on_theme_change(&catalog, "B".to_string()));
    assert_eq!(s.snapshot.theme, "B");
    // a theme change arms no timer
    assert!(s.snapshot.pending_timer.is_none());
}

#[test]
fn unknown_persisted_theme_falls_back_to_first() {
    let catalog = names(&["A", "B"]);
    let s = initial_session(&catalog, Some("X".to_string()), None, None);
    assert_eq!(s.snapshot.theme, "A");
}

#[test]
fn known_persisted_theme_is_kept() {
    let catalog = names(&["A", "B"]);
    let s = initial_session(&catalog, Some("B".to_string()), None, None);
    assert_eq!(s.snapshot.theme, "B");
}

#[test]
fn absent_persisted_state_uses_defaults() {
    let catalog = names(&["A", "Monokai Extended Origin"]);
    let s = initial_session(&catalog, None, None, None);
    assert_eq!(s.snapshot.theme, "Monokai Extended Origin");
    assert_eq!(s.snapshot.struct_source, default_struct_source());
    assert_eq!(s.snapshot.template_source, default_template_source());
    assert_eq!(s.compile_count, 1);
}

#[test]
fn persisted_sources_are_taken_over() {
    let catalog = names(&["A"]);
    let s = initial_session(
        &catalog,
        None,
        Some("struct S;".to_string()),
        Some("tmpl".to_string()),
    );
    assert_eq!(s.snapshot.struct_source, "struct S;");
    assert_eq!(s.snapshot.template_source, "tmpl");
    assert_eq!(s.snapshot.generated_code, compile("struct S;", "tmpl"));
}
