//! The style resolver: a fragment's raw attributes against a theme's
//! defaults, reduced to a minimal descriptor.

use crate::color::{push_css_color, spec_css_color, Color, OPAQUE};
use vstd::prelude::*;
use vstd::string::StringExecFns;

verus! {

/// The raw attributes of one highlighted fragment, exactly as the
/// highlighter reports them.
#[derive(Clone, Copy, PartialEq, Eq, Structural, Debug)]
pub struct RawStyle {
    pub foreground: Color,
    pub background: Color,
    pub bold: bool,
    pub underline: bool,
    pub italic: bool,
}

/// A theme's default foreground and background, after the fixed
/// black-on-white fallback has been applied.
#[derive(Clone, Copy, PartialEq, Eq, Structural, Debug)]
pub struct ThemeDefaults {
    pub foreground: Color,
    pub background: Color,
}

/// A minimal style descriptor: each attribute is present only where it
/// differs from the theme's default for that axis.
#[derive(Clone, Copy, PartialEq, Eq, Structural, Debug)]
pub struct StyleDescriptor {
    pub foreground: Option<Color>,
    pub background: Option<Color>,
    pub bold: bool,
    pub underline: bool,
    pub italic: bool,
}

/// A theme that sets no default foreground or background falls back to
/// black text on a white background.
pub open spec fn spec_defaults(foreground: Option<Color>, background: Option<Color>) -> ThemeDefaults {
    ThemeDefaults {
        foreground: match foreground {
            Some(c) => c,
            None => Color { red: 0, green: 0, blue: 0, alpha: OPAQUE },
        },
        background: match background {
            Some(c) => c,
            None => Color { red: 0xFF, green: 0xFF, blue: 0xFF, alpha: OPAQUE },
        },
    }
}

/// Applies the black-on-white fallback to a theme's optional defaults.
pub fn theme_defaults(foreground: Option<Color>, background: Option<Color>) -> (d: ThemeDefaults)
    ensures
        d == spec_defaults(foreground, background),
{
    ThemeDefaults {
        foreground: match foreground {
            Some(c) => c,
            None => Color::black(),
        },
        background: match background {
            Some(c) => c,
            None => Color::white(),
        },
    }
}

/// What a raw style resolves to against a theme's defaults: `None` when the
/// fragment is indistinguishable from unstyled text, otherwise the minimal
/// descriptor of the differing axes.
pub open spec fn spec_resolve(s: RawStyle, d: ThemeDefaults) -> Option<StyleDescriptor> {
    if s.foreground == d.foreground && s.background == d.background && !s.bold && !s.underline
        && !s.italic {
        None
    } else {
        Some(
            StyleDescriptor {
                foreground: if s.foreground == d.foreground {
                    None
                } else {
                    Some(s.foreground)
                },
                background: if s.background == d.background {
                    None
                } else {
                    Some(s.background)
                },
                bold: s.bold,
                underline: s.underline,
                italic: s.italic,
            },
        )
    }
}

/// Resolves a fragment's raw attributes to a minimal style descriptor.
///
/// The result is `None` exactly when every axis equals the theme's default:
/// such a fragment renders as plain text.
pub fn resolve(s: &RawStyle, d: &ThemeDefaults) -> (r: Option<StyleDescriptor>)
    ensures
        r == spec_resolve(*s, *d),
        r is None <==> (s.foreground == d.foreground && s.background == d.background && !s.bold
            && !s.underline && !s.italic),
{
    if s.foreground == d.foreground && s.background == d.background && !s.bold && !s.underline
        && !s.italic {
        None
    } else {
        Some(
            StyleDescriptor {
                foreground: if s.foreground == d.foreground {
                    None
                } else {
                    Some(s.foreground)
                },
                background: if s.background == d.background {
                    None
                } else {
                    Some(s.background)
                },
                bold: s.bold,
                underline: s.underline,
                italic: s.italic,
            },
        )
    }
}

/// The style attribute text of a descriptor, one clause per present axis, in
/// a fixed order.
pub open spec fn spec_descriptor_css(desc: StyleDescriptor) -> Seq<char> {
    (match desc.foreground {
        Some(c) => "color:"@ + spec_css_color(c) + ";"@,
        None => Seq::<char>::empty(),
    }) + (match desc.background {
        Some(c) => "background-color:"@ + spec_css_color(c) + ";"@,
        None => Seq::<char>::empty(),
    }) + (if desc.bold {
        "font-weight:bold;"@
    } else {
        Seq::<char>::empty()
    }) + (if desc.underline {
        "text-decoration:underline;"@
    } else {
        Seq::<char>::empty()
    }) + (if desc.italic {
        "font-style:italic;"@
    } else {
        Seq::<char>::empty()
    })
}

/// Serializes a descriptor to its style attribute text.
pub fn descriptor_css(desc: &StyleDescriptor) -> (r: String)
    ensures
        r@ == spec_descriptor_css(*desc),
{
    let mut s = String::new();
    if let Some(c) = desc.foreground {
        s.append("color:");
        push_css_color(&mut s, c);
        s.append(";");
    }
    if let Some(c) = desc.background {
        s.append("background-color:");
        push_css_color(&mut s, c);
        s.append(";");
    }
    if desc.bold {
        s.append("font-weight:bold;");
    }
    if desc.underline {
        s.append("text-decoration:underline;");
    }
    if desc.italic {
        s.append("font-style:italic;");
    }
    assert(s@ =~= spec_descriptor_css(*desc));
    s
}

/// The style text of the preview pane itself: the theme's default
/// foreground and background.
pub open spec fn spec_pane_css(d: ThemeDefaults) -> Seq<char> {
    "color:"@ + spec_css_color(d.foreground) + ";background-color:"@ + spec_css_color(d.background)
        + ";"@
}

/// Serializes the preview pane's own style from the theme's defaults.
pub fn pane_css(d: &ThemeDefaults) -> (r: String)
    ensures
        r@ == spec_pane_css(*d),
{
    let mut s = String::new();
    s.append("color:");
    push_css_color(&mut s, d.foreground);
    s.append(";background-color:");
    push_css_color(&mut s, d.background);
    s.append(";");
    assert(s@ =~= spec_pane_css(*d));
    s
}

/// The caret color of the edit pane: the theme's caret color, else its
/// default foreground, else black.
pub open spec fn spec_caret_color(caret: Option<Color>, foreground: Option<Color>) -> Color {
    match caret {
        Some(c) => c,
        None => match foreground {
            Some(c) => c,
            None => Color { red: 0, green: 0, blue: 0, alpha: OPAQUE },
        },
    }
}

/// The style text that sets the edit pane's caret color.
pub open spec fn spec_caret_css(caret: Option<Color>, foreground: Option<Color>) -> Seq<char> {
    "caret-color:"@ + spec_css_color(spec_caret_color(caret, foreground)) + ";"@
}

/// Serializes the caret style of the edit pane.
pub fn caret_css(caret: Option<Color>, foreground: Option<Color>) -> (r: String)
    ensures
        r@ == spec_caret_css(caret, foreground),
{
    let c = match caret {
        Some(c) => c,
        None => match foreground {
            Some(c) => c,
            None => Color::black(),
        },
    };
    let mut s = String::new();
    s.append("caret-color:");
    push_css_color(&mut s, c);
    s.append(";");
    assert(s@ =~= spec_caret_css(caret, foreground));
    s
}

} // verus!
