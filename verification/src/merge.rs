//! The highlight-run merger: from a flat fragment stream to the minimal
//! ordered sequence of styled runs.

use crate::style::{resolve, spec_resolve, RawStyle, StyleDescriptor, ThemeDefaults};
use vstd::prelude::*;
use vstd::string::StringExecFns;

verus! {

/// One contiguous span of text with uniform raw attributes, as the
/// highlighter emits it.
#[derive(Clone, Debug)]
pub struct HighlightFragment {
    pub style: RawStyle,
    pub text: String,
}

/// One node of the rendered output: an unstyled run of text, or a run
/// under one minimal style descriptor.
#[derive(Clone, Debug)]
pub enum RenderNode {
    PlainText(String),
    StyledSpan(StyleDescriptor, String),
}

impl RenderNode {
    /// The style classification of a node: `None` for plain text.
    pub open spec fn classification(self) -> Option<StyleDescriptor> {
        match self {
            RenderNode::PlainText(_) => None,
            RenderNode::StyledSpan(d, _) => Some(d),
        }
    }

    /// The text content of a node.
    pub open spec fn content(self) -> Seq<char> {
        match self {
            RenderNode::PlainText(t) => t@,
            RenderNode::StyledSpan(_, t) => t@,
        }
    }
}

/// What one fragment resolves to against the theme's defaults.
pub open spec fn spec_class_of(f: HighlightFragment, d: ThemeDefaults) -> Option<StyleDescriptor> {
    spec_resolve(f.style, d)
}

/// A run: the text accumulated for one style classification.
pub type Run = (Option<StyleDescriptor>, Seq<char>);

/// The minimal run sequence of a fragment stream: fragments with empty text
/// vanish, and consecutive fragments of equal classification fuse into one
/// run.
pub open spec fn spec_runs(frags: Seq<HighlightFragment>, d: ThemeDefaults) -> Seq<Run>
    decreases frags.len(),
{
    if frags.len() == 0 {
        Seq::empty()
    } else {
        let head = frags[0];
        let rest = spec_runs(frags.drop_first(), d);
        if head.text@.len() == 0 {
            rest
        } else if rest.len() > 0 && rest[0].0 == spec_class_of(head, d) {
            seq![(rest[0].0, head.text@ + rest[0].1)] + rest.drop_first()
        } else {
            seq![(spec_class_of(head, d), head.text@)] + rest
        }
    }
}

/// The concatenated text of a fragment stream.
pub open spec fn spec_concat_frags(frags: Seq<HighlightFragment>) -> Seq<char>
    decreases frags.len(),
{
    if frags.len() == 0 {
        Seq::empty()
    } else {
        frags[0].text@ + spec_concat_frags(frags.drop_first())
    }
}

/// The concatenated text of a run sequence.
pub open spec fn spec_concat_runs(runs: Seq<Run>) -> Seq<char>
    decreases runs.len(),
{
    if runs.len() == 0 {
        Seq::empty()
    } else {
        runs[0].1 + spec_concat_runs(runs.drop_first())
    }
}

/// The concatenated text of a node sequence.
pub open spec fn spec_concat_nodes(nodes: Seq<RenderNode>) -> Seq<char>
    decreases nodes.len(),
{
    if nodes.len() == 0 {
        Seq::empty()
    } else {
        nodes[0].content() + spec_concat_nodes(nodes.drop_first())
    }
}

/// Merging loses no text: the runs concatenate to exactly the input.
pub proof fn lemma_runs_concat(frags: Seq<HighlightFragment>, d: ThemeDefaults)
    ensures
        spec_concat_runs(spec_runs(frags, d)) == spec_concat_frags(frags),
    decreases frags.len(),
{
    if frags.len() == 0 {
    } else {
        let head = frags[0];
        let tail = frags.drop_first();
        lemma_runs_concat(tail, d);
        let rest = spec_runs(tail, d);
        if head.text@.len() == 0 {
            assert(head.text@ + spec_concat_frags(tail) =~= spec_concat_frags(tail));
        } else if rest.len() > 0 && rest[0].0 == spec_class_of(head, d) {
            let merged = seq![(rest[0].0, head.text@ + rest[0].1)] + rest.drop_first();
            assert(merged.drop_first() =~= rest.drop_first());
            assert(spec_concat_runs(merged) == (head.text@ + rest[0].1) + spec_concat_runs(
                rest.drop_first(),
            ));
            assert(spec_concat_runs(rest) == rest[0].1 + spec_concat_runs(rest.drop_first()));
            assert((head.text@ + rest[0].1) + spec_concat_runs(rest.drop_first())
                =~= head.text@ + (rest[0].1 + spec_concat_runs(rest.drop_first())));
        } else {
            let out = seq![(spec_class_of(head, d), head.text@)] + rest;
            assert(out.drop_first() =~= rest);
            assert(spec_concat_runs(out) == head.text@ + spec_concat_runs(rest));
        }
    }
}

/// Merging is minimal: every run is non-empty, and no two adjacent runs
/// share one classification.
pub proof fn lemma_runs_minimal(frags: Seq<HighlightFragment>, d: ThemeDefaults)
    ensures
        forall|i: int|
            0 <= i < spec_runs(frags, d).len() ==> (#[trigger] spec_runs(frags, d)[i]).1.len() > 0,
        forall|i: int|
            0 <= i && i + 1 < spec_runs(frags, d).len() ==> (#[trigger] spec_runs(frags, d)[i]).0
                != spec_runs(frags, d)[i + 1].0,
    decreases frags.len(),
{
    if frags.len() == 0 {
    } else {
        let head = frags[0];
        let tail = frags.drop_first();
        lemma_runs_minimal(tail, d);
        let rest = spec_runs(tail, d);
        let runs = spec_runs(frags, d);
        if head.text@.len() == 0 {
        } else if rest.len() > 0 && rest[0].0 == spec_class_of(head, d) {
            let m = seq![(rest[0].0, head.text@ + rest[0].1)] + rest.drop_first();
            assert(runs =~= m);
            assert forall|i: int| 0 <= i < runs.len() implies (#[trigger] runs[i]).1.len()
                > 0 by {
                assert(runs[i] == m[i]);
                if i > 0 {
                    assert(m[i] == rest.drop_first()[i - 1]);
                    assert(rest.drop_first()[i - 1] == rest[i]);
                    assert(rest[i].1.len() > 0);
                }
            }
            assert forall|i: int| 0 <= i && i + 1 < runs.len() implies (#[trigger] runs[i]).0 != runs[i
                + 1].0 by {
                assert(rest[i].0 != rest[i + 1].0);
                assert(runs[i + 1] == m[i + 1]);
                assert(m[i + 1] == rest.drop_first()[i]);
                assert(rest.drop_first()[i] == rest[i + 1]);
                if i == 0 {
                    assert(runs[0] == m[0]);
                } else {
                    assert(runs[i] == m[i]);
                    assert(m[i] == rest.drop_first()[i - 1]);
                    assert(rest.drop_first()[i - 1] == rest[i]);
                }
            }
        } else {
            let m = seq![(spec_class_of(head, d), head.text@)] + rest;
            assert(runs =~= m);
            assert forall|i: int| 0 <= i < runs.len() implies (#[trigger] runs[i]).1.len()
                > 0 by {
                assert(runs[i] == m[i]);
                if i > 0 {
                    assert(m[i] == rest[i - 1]);
                }
            }
            assert forall|i: int| 0 <= i && i + 1 < runs.len() implies (#[trigger] runs[i]).0 != runs[i
                + 1].0 by {
                assert(runs[i] == m[i]);
                assert(runs[i + 1] == m[i + 1]);
                assert(m[i + 1] == rest[i]);
                if i > 0 {
                    assert(m[i] == rest[i - 1]);
                    assert(rest[i - 1].0 != rest[i].0);
                }
            }
        }
    }
}

/// If nodes and runs agree pointwise, their concatenated texts agree.
proof fn lemma_concat_nodes_runs(nodes: Seq<RenderNode>, runs: Seq<Run>)
    requires
        nodes.len() == runs.len(),
        forall|i: int| 0 <= i < nodes.len() ==> (#[trigger] nodes[i]).content() == runs[i].1,
    ensures
        spec_concat_nodes(nodes) == spec_concat_runs(runs),
    decreases nodes.len(),
{
    if nodes.len() == 0 {
    } else {
        lemma_concat_nodes_runs(nodes.drop_first(), runs.drop_first());
        assert(nodes[0].content() == runs[0].1);
    }
}

/// Compares two style classifications.
fn class_eq(a: &Option<StyleDescriptor>, b: &Option<StyleDescriptor>) -> (r: bool)
    ensures
        r == (a == b),
{
    match (a, b) {
        (Option::None, Option::None) => true,
        (Option::Some(x), Option::Some(y)) => *x == *y,
        _ => false,
    }
}

/// Wraps accumulated text as a node of the given classification.
fn make_node(class: Option<StyleDescriptor>, text: String) -> (n: RenderNode)
    ensures
        n.classification() == class,
        n.content() == text@,
{
    match class {
        Option::None => RenderNode::PlainText(text),
        Option::Some(d) => RenderNode::StyledSpan(d, text),
    }
}

/// Reads a node's classification.
fn classification_of(n: &RenderNode) -> (c: Option<StyleDescriptor>)
    ensures
        c == n.classification(),
{
    match n {
        RenderNode::PlainText(_) => Option::None,
        RenderNode::StyledSpan(d, _) => Option::Some(*d),
    }
}

/// Takes a node's text back out.
fn take_content(n: RenderNode) -> (t: String)
    ensures
        t@ == n.content(),
{
    match n {
        RenderNode::PlainText(t) => t,
        RenderNode::StyledSpan(_, t) => t,
    }
}

/// Merges an ordered fragment stream into the minimal sequence of render
/// nodes, resolving each fragment against the theme's defaults.
///
/// The contract carries the two core guarantees of the rendering path:
/// concatenating the nodes' text reconstitutes the input text exactly, and
/// no two adjacent nodes carry one and the same style classification.
pub fn merge(frags: &Vec<HighlightFragment>, d: &ThemeDefaults) -> (r: Vec<RenderNode>)
    ensures
        r@.len() == spec_runs(frags@, *d).len(),
        forall|i: int|
            0 <= i < r@.len() ==> (#[trigger] r@[i]).classification() == spec_runs(frags@, *d)[i].0
                && r@[i].content() == spec_runs(frags@, *d)[i].1,
        spec_concat_nodes(r@) == spec_concat_frags(frags@),
        forall|i: int| 0 <= i < r@.len() ==> (#[trigger] r@[i]).content().len() > 0,
        forall|i: int|
            0 <= i && i + 1 < r@.len() ==> (#[trigger] r@[i]).classification() != r@[i
                + 1].classification(),
{
    let mut nodes: Vec<RenderNode> = Vec::new();
    let mut idx: usize = frags.len();
    while idx > 0
        invariant
            idx <= frags@.len(),
            nodes@.len() == spec_runs(frags@.skip(idx as int), *d).len(),
            forall|j: int|
                0 <= j < nodes@.len() ==> (#[trigger] nodes@[j]).classification() == spec_runs(
                    frags@.skip(idx as int),
                    *d,
                )[j].0 && nodes@[j].content() == spec_runs(frags@.skip(idx as int), *d)[j].1,
        decreases idx,
    {
        idx = idx - 1;
        let ghost prev = frags@.skip(idx as int + 1);
        let ghost cur = frags@.skip(idx as int);
        proof {
            assert(cur.len() > 0);
            assert(cur[0] == frags@[idx as int]);
            assert(cur.drop_first() =~= prev);
        }
        let f = &frags[idx];
        if !f.text.as_str().is_empty() {
            let class = resolve(&f.style, d);
            let mergeable = if nodes.len() > 0 {
                let c0 = classification_of(&nodes[0]);
                class_eq(&c0, &class)
            } else {
                false
            };
            if mergeable {
                let first = nodes.remove(0);
                let first_text = take_content(first);
                let new_text = f.text.clone().concat(first_text.as_str());
                nodes.insert(0, make_node(class, new_text));
            } else {
                nodes.insert(0, make_node(class, f.text.clone()));
            }
            proof {
                let rest = spec_runs(prev, *d);
                let runs = spec_runs(cur, *d);
                if rest.len() > 0 && rest[0].0 == spec_class_of(cur[0], *d) {
                    assert(runs =~= seq![(rest[0].0, cur[0].text@ + rest[0].1)]
                        + rest.drop_first());
                } else {
                    assert(runs =~= seq![(spec_class_of(cur[0], *d), cur[0].text@)] + rest);
                }
            }
        }
    }
    proof {
        assert(frags@.skip(0) =~= frags@);
        lemma_runs_concat(frags@, *d);
        lemma_runs_minimal(frags@, *d);
        lemma_concat_nodes_runs(nodes@, spec_runs(frags@, *d));
    }
    nodes
}

} // verus!

