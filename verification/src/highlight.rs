//! The highlighter collaborator's boundary, and the verified rendering
//! path from a text to its styled nodes.

use crate::catalog::ThemeEntry;
use crate::merge::{
    merge, spec_concat_frags, spec_concat_nodes, HighlightFragment, RenderNode,
};
use crate::strutil::push_char;
use crate::style::{RawStyle, ThemeDefaults};
use vstd::prelude::*;
use vstd::string::StrSliceExecFns;

verus! {

#[verifier::external_type_specification]
#[verifier::external_body]
pub struct ExSyntaxSet(syntect::parsing::SyntaxSet);

#[verifier::external_type_specification]
#[verifier::external_body]
pub struct ExSyntaxReference(syntect::parsing::SyntaxReference);

#[verifier::external_type_specification]
#[verifier::external_body]
pub struct ExTheme(syntect::highlighting::Theme);

#[verifier::external_type_specification]
#[verifier::external_body]
pub struct ExHighlightLines<'a>(syntect::easy::HighlightLines<'a>);

#[verifier::external_type_specification]
#[verifier::external_body]
pub struct ExHighlightingAssets(syntect_assets::assets::HighlightingAssets);

#[verifier::external_type_specification]
#[verifier::external_body]
pub struct ExStyle(syntect::highlighting::Style);

/// Relies on `HighlightingAssets::from_binary`: unpacks the embedded
/// syntax and theme collections.
#[verifier::external_body]
pub fn load_assets() -> syntect_assets::assets::HighlightingAssets {
    syntect_assets::assets::HighlightingAssets::from_binary()
}

/// Relies on `HighlightingAssets::get_syntax_set`: the collection of
/// syntax definitions, or nothing where deserialization fails.
#[verifier::external_body]
pub fn assets_syntax_set(
    assets: &syntect_assets::assets::HighlightingAssets,
) -> Option<&syntect::parsing::SyntaxSet> {
    match assets.get_syntax_set() {
        Ok(set) => Some(set),
        Err(_) => None,
    }
}

/// Relies on `HighlightingAssets::themes`: the names of the embedded
/// themes, in the collection's own order.
#[verifier::external_body]
pub fn assets_theme_names(assets: &syntect_assets::assets::HighlightingAssets) -> Vec<String> {
    assets.themes().map(|name| name.to_owned()).collect()
}

/// Relies on `HighlightingAssets::get_theme`: the theme of that name, or
/// the collection's own fallback where the name is unknown.
#[verifier::external_body]
pub fn assets_theme(
    assets: &syntect_assets::assets::HighlightingAssets,
    name: &str,
) -> syntect::highlighting::Theme {
    assets.get_theme(name).clone()
}

/// Reads the plain values the library's logic needs out of a theme: its
/// default foreground, background and caret colors.
#[verifier::external_body]
pub fn theme_entry_of(name: &str, theme: &syntect::highlighting::Theme) -> (r: ThemeEntry)
    ensures
        r.name@ == name@,
{
    let conv = |c: syntect::highlighting::Color| crate::color::Color { red: c.r, green: c.g, blue: c.b, alpha: c.a };
    ThemeEntry {
        name: name.to_owned(),
        foreground: theme.settings.foreground.map(conv),
        background: theme.settings.background.map(conv),
        caret: theme.settings.caret.map(conv),
    }
}

/// Relies on `SyntaxSet::find_syntax_by_name`: the syntax of that exact
/// name, where the set has one.
#[verifier::external_body]
pub fn find_syntax<'a>(
    set: &'a syntect::parsing::SyntaxSet,
    name: &str,
) -> Option<&'a syntect::parsing::SyntaxReference> {
    set.find_syntax_by_name(name)
}

/// Relies on `HighlightLines::new`: a fresh line highlighter for one
/// syntax and theme.
#[verifier::external_body]
pub fn new_highlighter<'a>(
    syntax: &syntect::parsing::SyntaxReference,
    theme: &'a syntect::highlighting::Theme,
) -> syntect::easy::HighlightLines<'a> {
    syntect::easy::HighlightLines::new(syntax, theme)
}

/// Reads one highlighted region into a fragment of the library: the raw
/// attributes become plain values, the slice becomes the fragment's text.
#[verifier::external_body]
fn fragment_of(s: &syntect::highlighting::Style, text: &str) -> (r: HighlightFragment)
    ensures
        r.text@ == text@,
{
    let conv = |c: syntect::highlighting::Color| crate::color::Color { red: c.r, green: c.g, blue: c.b, alpha: c.a };
    HighlightFragment {
        style: RawStyle {
            foreground: conv(s.foreground),
            background: conv(s.background),
            bold: s.font_style.contains(syntect::highlighting::FontStyle::BOLD),
            underline: s.font_style.contains(syntect::highlighting::FontStyle::UNDERLINE),
            italic: s.font_style.contains(syntect::highlighting::FontStyle::ITALIC),
        },
        text: text.to_owned(),
    }
}

/// Relies on `HighlightLines::highlight_line`, whose documentation states
/// that the concatenation of the returned slices makes the original line;
/// a highlighting error becomes `None`.
#[verifier::external_body]
pub fn highlight_line_fragments(
    h: &mut syntect::easy::HighlightLines,
    line: &str,
    set: &syntect::parsing::SyntaxSet,
) -> (r: Option<Vec<HighlightFragment>>)
    ensures
        match r {
            Some(frags) => spec_concat_frags(frags@) == line@,
            None => true,
        },
{
    match h.highlight_line(line, set) {
        Ok(regions) => Some(regions.iter().map(|(s, text)| fragment_of(s, text)).collect()),
        Err(_) => None,
    }
}

/// The concatenated text of a sequence of lines.
pub open spec fn spec_concat_strs(lines: Seq<String>) -> Seq<char>
    decreases lines.len(),
{
    if lines.len() == 0 {
        Seq::empty()
    } else {
        lines[0]@ + spec_concat_strs(lines.drop_first())
    }
}

/// Concatenation distributes over appending one line at the end.
proof fn lemma_concat_strs_snoc(lines: Seq<String>, x: String)
    ensures
        spec_concat_strs(lines.push(x)) == spec_concat_strs(lines) + x@,
    decreases lines.len(),
{
    if lines.len() == 0 {
        assert(lines.push(x)[0] == x);
        assert(lines.push(x).drop_first() =~= Seq::<String>::empty());
        assert(spec_concat_strs(Seq::<String>::empty()) == Seq::<char>::empty());
        assert(spec_concat_strs(lines.push(x)) =~= x@);
        assert(spec_concat_strs(lines) + x@ =~= x@);
    } else {
        lemma_concat_strs_snoc(lines.drop_first(), x);
        assert(lines.push(x)[0] == lines[0]);
        assert(lines.push(x).drop_first() =~= lines.drop_first().push(x));
        assert(lines[0]@ + (spec_concat_strs(lines.drop_first()) + x@) =~= (lines[0]@
            + spec_concat_strs(lines.drop_first())) + x@);
    }
}

/// Splits a text into its lines, each line keeping its trailing newline.
/// Only the last line may lack one; no line is empty; the lines
/// concatenate to exactly the input.
pub fn split_lines(text: &str) -> (r: Vec<String>)
    ensures
        spec_concat_strs(r@) == text@,
        forall|i: int| 0 <= i < r@.len() ==> (#[trigger] r@[i])@.len() > 0,
        forall|i: int|
            0 <= i < r@.len() - 1 ==> (#[trigger] r@[i])@[r@[i]@.len() - 1] == '\n',
        forall|i: int, k: int|
            0 <= i < r@.len() && 0 <= k < r@[i]@.len() - 1 ==> (#[trigger] r@[i]@[k]) != '\n',
{
    let n = text.unicode_len();
    let mut lines: Vec<String> = Vec::new();
    let mut cur = String::new();
    let mut i: usize = 0;
    while i < n
        invariant
            i <= n,
            n == text@.len(),
            spec_concat_strs(lines@) + cur@ =~= text@.take(i as int),
            forall|j: int| 0 <= j < lines@.len() ==> (#[trigger] lines@[j])@.len() > 0,
            forall|j: int|
                0 <= j < lines@.len() ==> (#[trigger] lines@[j])@[lines@[j]@.len() - 1] == '\n',
            forall|j: int, k: int|
                0 <= j < lines@.len() && 0 <= k < lines@[j]@.len() - 1 ==> (
                #[trigger] lines@[j]@[k]) != '\n',
            forall|k: int| 0 <= k < cur@.len() ==> cur@[k] != '\n',
        decreases n - i,
    {
        let c = text.get_char(i);
        push_char(&mut cur, c);
        proof {
            assert(text@.take(i as int + 1) =~= text@.take(i as int).push(c));
            assert(spec_concat_strs(lines@) + cur@ =~= text@.take(i as int + 1));
        }
        if c == '\n' {
            let ghost old_lines = lines@;
            let ghost done = cur@;
            lines.push(cur);
            cur = String::new();
            proof {
                lemma_concat_strs_snoc(old_lines, lines@[lines@.len() - 1]);
                assert(spec_concat_strs(lines@) + cur@ =~= text@.take(i as int + 1));
            }
        }
        i = i + 1;
    }
    proof {
        assert(text@.take(n as int) =~= text@);
    }
    if !cur.as_str().is_empty() {
        let ghost old_lines = lines@;
        lines.push(cur);
        proof {
            lemma_concat_strs_snoc(old_lines, lines@[lines@.len() - 1]);
            assert(spec_concat_strs(lines@) =~= text@);
        }
    } else {
        proof {
            assert(cur@ =~= Seq::<char>::empty());
            assert(spec_concat_strs(lines@) =~= text@);
        }
    }
    lines
}

/// Concatenation of fragments distributes over appending fragment lists.
proof fn lemma_concat_frags_add(a: Seq<HighlightFragment>, b: Seq<HighlightFragment>)
    ensures
        spec_concat_frags(a + b) == spec_concat_frags(a) + spec_concat_frags(b),
    decreases a.len(),
{
    if a.len() == 0 {
        assert(a + b =~= b);
        assert(spec_concat_frags(a) =~= Seq::<char>::empty());
        assert(spec_concat_frags(a) + spec_concat_frags(b) =~= spec_concat_frags(b));
    } else {
        lemma_concat_frags_add(a.drop_first(), b);
        assert((a + b)[0] == a[0]);
        assert((a + b).drop_first() =~= a.drop_first() + b);
        assert(a[0].text@ + (spec_concat_frags(a.drop_first()) + spec_concat_frags(b)) =~= (
        a[0].text@ + spec_concat_frags(a.drop_first())) + spec_concat_frags(b));
    }
}

/// Highlights one text and merges the fragment stream into the minimal
/// node sequence. `None` where the highlighter fails on some line: a
/// collaborator contract violation, surfaced rather than rendered.
///
/// On success the nodes reconstitute the input text exactly, every node is
/// non-empty, and no two adjacent nodes carry one and the same style
/// classification.
pub fn render_text(
    text: &str,
    syntax: &syntect::parsing::SyntaxReference,
    theme: &syntect::highlighting::Theme,
    set: &syntect::parsing::SyntaxSet,
    d: &ThemeDefaults,
) -> (r: Option<Vec<RenderNode>>)
    ensures
        match r {
            Some(nodes) => {
                &&& spec_concat_nodes(nodes@) == text@
                &&& forall|i: int|
                    0 <= i < nodes@.len() ==> (#[trigger] nodes@[i]).content().len() > 0
                &&& forall|i: int|
                    0 <= i && i + 1 < nodes@.len() ==> (#[trigger] nodes@[i]).classification()
                        != nodes@[i + 1].classification()
            },
            None => true,
        },
{
    let lines = split_lines(text);
    let mut hl = new_highlighter(syntax, theme);
    let mut frags: Vec<HighlightFragment> = Vec::new();
    let mut j: usize = 0;
    while j < lines.len()
        invariant
            j <= lines@.len(),
            spec_concat_frags(frags@) == spec_concat_strs(lines@.take(j as int)),
            spec_concat_strs(lines@) == text@,
        decreases lines@.len() - j,
    {
        match highlight_line_fragments(&mut hl, lines[j].as_str(), set) {
            Some(mut v) => {
                let ghost before = frags@;
                let ghost piece = v@;
                frags.append(&mut v);
                proof {
                    lemma_concat_frags_add(before, piece);
                    assert(lines@.take(j as int + 1) =~= lines@.take(j as int).push(
                        lines@[j as int],
                    ));
                    lemma_concat_strs_snoc(lines@.take(j as int), lines@[j as int]);
                    assert(spec_concat_frags(frags@) == spec_concat_strs(
                        lines@.take(j as int + 1),
                    ));
                }
            },
            None => {
                return None;
            },
        }
        j = j + 1;
    }
    proof {
        assert(lines@.take(lines@.len() as int) =~= lines@);
    }
    let nodes = merge(&frags, d);
    Some(nodes)
}

} // verus!
