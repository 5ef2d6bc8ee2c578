use play_rinja::color::{css_color, Color};
use play_rinja::merge::{merge, HighlightFragment, RenderNode};
use play_rinja::style::{
    caret_css, descriptor_css, pane_css, resolve, theme_defaults, RawStyle, ThemeDefaults,
};

fn rgb(red: u8, green: u8, blue: u8) -> Color {
    Color { red, green, blue, alpha: 0xFF }
}

fn plain_style(d: &ThemeDefaults) -> RawStyle {
    RawStyle {
        foreground: d.foreground,
        background: d.background,
        bold: false,
        underline: false,
        italic: false,
    }
}

fn defaults() -> ThemeDefaults {
    ThemeDefaults { foreground: rgb(0, 0, 0), background: rgb(0xFF, 0xFF, 0xFF) }
}

fn frag(style: RawStyle, text: &str) -> HighlightFragment {
    HighlightFragment { style, text: text.to_string() }
}

#[test]
fn opaque_color_serializes_as_triplet() {
    assert_eq!(css_color(Color { red: 0x12, green: 0xAB, blue: 0x03, alpha: 0xFF }), "#12ab03");
}

#[test]
fn translucent_color_serializes_with_alpha() {
    assert_eq!(css_color(Color { red: 0x12, green: 0xAB, blue: 0x03, alpha: 0x80 }), "#12ab0380");
    assert_eq!(css_color(Color { red: 0, green: 0, blue: 0, alpha: 0 }), "#00000000");
}

#[test]
fn default_fragment_resolves_to_none() {
    let d = defaults();
    assert_eq!(resolve(&plain_style(&d), &d), None);
}

#[test]
fn differing_axes_are_kept_minimal() {
    let d = defaults();
    let mut s = plain_style(&d);
    s.foreground = rgb(0xFF, 0, 0);
    s.bold = true;
    let desc = resolve(&s, &d).expect("styled fragment must resolve");
    assert_eq!(desc.foreground, Some(rgb(0xFF, 0, 0)));
    assert_eq!(desc.background, None);
    assert!(desc.bold);
    assert!(!desc.underline);
    assert!(!desc.italic);
    assert_eq!(descriptor_css(&desc), "color:#ff0000;font-weight:bold;");
}

#[test]
fn descriptor_css_orders_all_axes() {
    let d = defaults();
    let s = RawStyle {
        foreground: rgb(1, 2, 3),
        background: rgb(4, 5, 6),
        bold: true,
        underline: true,
        italic: true,
    };
    let desc = resolve(&s, &d).expect("fully styled fragment must resolve");
    assert_eq!(
        descriptor_css(&desc),
        "color:#010203;background-color:#040506;font-weight:bold;text-decoration:underline;font-style:italic;"
    );
}

#[test]
fn theme_defaults_fall_back_to_black_on_white() {
    let d = theme_defaults(None, None);
    assert_eq!(d.foreground, rgb(0, 0, 0));
    assert_eq!(d.background, rgb(0xFF, 0xFF, 0xFF));
    let e = theme_defaults(Some(rgb(1, 1, 1)), None);
    assert_eq!(e.foreground, rgb(1, 1, 1));
    assert_eq!(e.background, rgb(0xFF, 0xFF, 0xFF));
}

#[test]
fn pane_css_uses_both_defaults() {
    let d = ThemeDefaults { foreground: rgb(0x10, 0x20, 0x30), background: rgb(0xAA, 0xBB, 0xCC) };
    assert_eq!(pane_css(&d), "color:#102030;background-color:#aabbcc;");
}

#[test]
fn caret_css_prefers_caret_then_foreground_then_black() {
    assert_eq!(caret_css(Some(rgb(1, 2, 3)), Some(rgb(9, 9, 9))), "caret-color:#010203;");
    assert_eq!(caret_css(None, Some(rgb(9, 9, 9))), "caret-color:#090909;");
    assert_eq!(caret_css(None, None), "caret-color:#000000;");
}

#[test]
fn merge_fuses_equal_styles_and_splits_boundaries() {
    let d = defaults();
    let mut bold = plain_style(&d);
    bold.bold = true;
    let frags = vec![frag(bold, "ab"), frag(bold, "cd"), frag(plain_style(&d), "ef")];
    let nodes = merge(&frags, &d);
    assert_eq!(nodes.len(), 2);
    match &nodes[0] {
        RenderNode::StyledSpan(desc, text) => {
            assert!(desc.bold);
            assert_eq!(text, "abcd");
        },
        RenderNode::PlainText(_) => panic!("first run must be styled"),
    }
    match &nodes[1] {
        RenderNode::PlainText(text) => assert_eq!(text, "ef"),
        RenderNode::StyledSpan(..) => panic!("second run must be plain"),
    }
}

#[test]
fn merge_round_trip_and_minimality() {
    let d = defaults();
    let mut red = plain_style(&d);
    red.foreground = rgb(0xFF, 0, 0);
    let mut blue = plain_style(&d);
    blue.foreground = rgb(0, 0, 0xFF);
    let frags = vec![
        frag(plain_style(&d), "one "),
        frag(red, "two"),
        frag(red, ""),
        frag(red, " three"),
        frag(plain_style(&d), ""),
        frag(blue, "\nfour"),
        frag(blue, ""),
    ];
    let nodes = merge(&frags, &d);
    let rebuilt: String = nodes
        .iter()
        .map(|n| match n {
            RenderNode::PlainText(t) => t.as_str(),
            RenderNode::StyledSpan(_, t) => t.as_str(),
        })
        .collect();
    let original: String = frags.iter().map(|f| f.text.as_str()).collect();
    assert_eq!(rebuilt, original);
    let classes: Vec<Option<_>> = nodes
        .iter()
        .map(|n| match n {
            RenderNode::PlainText(_) => None,
            RenderNode::StyledSpan(desc, _) => Some(*desc),
        })
        .collect();
    for pair in classes.windows(2) {
        assert_ne!(pair[0], pair[1], "adjacent nodes must differ in classification");
    }
    for n in &nodes {
        let text = match n {
            RenderNode::PlainText(t) => t,
            RenderNode::StyledSpan(_, t) => t,
        };
        assert!(!text.is_empty(), "no empty node may be emitted");
    }
}

#[test]
fn merge_of_nothing_is_nothing() {
    let d = defaults();
    assert_eq!(merge(&Vec::new(), &d).len(), 0);
    let frags = vec![frag(plain_style(&d), "")];
    assert_eq!(merge(&frags, &d).len(), 0);
}
