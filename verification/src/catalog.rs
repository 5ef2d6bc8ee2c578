//! The theme catalog: which themes the picker lists, in what order, and
//! how a requested theme name resolves against it.

use crate::color::Color;
use crate::strutil::str_eq;
use vstd::prelude::*;
use vstd::multiset::Multiset;
use vstd::seq_lib::lemma_multiset_commutative;
use vstd::string::StrSliceExecFns;

verus! {

/// One theme of the catalog: its display name and the plain values the
/// rendering logic reads from it.
#[derive(Clone, Debug)]
pub struct ThemeEntry {
    pub name: String,
    pub foreground: Option<Color>,
    pub background: Option<Color>,
    pub caret: Option<Color>,
}

/// Whether a name occurs in a list of names.
pub open spec fn spec_has_name(names: Seq<String>, t: Seq<char>) -> bool {
    exists|j: int| 0 <= j < names.len() && names[j]@ == t
}

/// The first index of a name in a list, if the name is present.
pub fn find_name(names: &Vec<String>, t: &str) -> (r: Option<usize>)
    ensures
        match r {
            Some(i) => i < names@.len() && names@[i as int]@ == t@ && (forall|j: int|
                0 <= j < i ==> names@[j]@ != t@),
            None => !spec_has_name(names@, t@),
        },
{
    let mut i: usize = 0;
    while i < names.len()
        invariant
            i <= names@.len(),
            forall|j: int| 0 <= j < i ==> names@[j]@ != t@,
        decreases names@.len() - i,
    {
        if str_eq(names[i].as_str(), t) {
            return Some(i);
        }
        i = i + 1;
    }
    None
}

/// The designated default theme name.
pub open spec fn spec_default_theme() -> Seq<char> {
    "Monokai Extended Origin"@
}

/// The designated default theme name, as a value.
pub fn default_theme_name() -> (r: &'static str)
    ensures
        r@ == spec_default_theme(),
{
    "Monokai Extended Origin"
}

/// Resolves a requested theme name against the catalog: the requested name
/// where the catalog has it; else the designated default where the catalog
/// has that; else the catalog's first theme. The catalog being non-empty,
/// resolution never fails: an unknown persisted theme falls back quietly.
pub fn resolve_theme_index(names: &Vec<String>, requested: &str) -> (i: usize)
    requires
        names@.len() > 0,
    ensures
        i < names@.len(),
        spec_has_name(names@, requested@) ==> names@[i as int]@ == requested@,
        !spec_has_name(names@, requested@) && spec_has_name(names@, spec_default_theme())
            ==> names@[i as int]@ == spec_default_theme(),
        !spec_has_name(names@, requested@) && !spec_has_name(names@, spec_default_theme()) ==> i
            == 0,
{
    match find_name(names, requested) {
        Some(i) => i,
        None => match find_name(names, default_theme_name()) {
            Some(i) => i,
            None => 0,
        },
    }
}

/// The lower-case form of an ASCII letter; any other character stands as
/// itself.
pub open spec fn spec_lower_char(c: char) -> char {
    if 0x41 <= (c as u32) && (c as u32) <= 0x5A {
        ((c as u32) + 0x20) as char
    } else {
        c
    }
}

/// Lowers one character, mirroring [`spec_lower_char`].
fn lower_char(c: char) -> (r: char)
    ensures
        r == spec_lower_char(c),
{
    let u = c as u32;
    if 0x41 <= u && u <= 0x5A {
        ((u + 0x20) as u8) as char
    } else {
        c
    }
}

/// Case-insensitive lexicographic order on names: position by position
/// over the lowered characters, a prefix before its extensions.
pub open spec fn spec_ci_le(a: Seq<char>, b: Seq<char>) -> bool
    decreases a.len(),
{
    if a.len() == 0 {
        true
    } else if b.len() == 0 {
        false
    } else if (spec_lower_char(a[0]) as u32) < (spec_lower_char(b[0]) as u32) {
        true
    } else if (spec_lower_char(a[0]) as u32) > (spec_lower_char(b[0]) as u32) {
        false
    } else {
        spec_ci_le(a.drop_first(), b.drop_first())
    }
}

/// The case-insensitive order is total.
pub proof fn lemma_ci_le_total(a: Seq<char>, b: Seq<char>)
    ensures
        spec_ci_le(a, b) || spec_ci_le(b, a),
    decreases a.len(),
{
    if a.len() == 0 {
    } else if b.len() == 0 {
    } else {
        if (spec_lower_char(a[0]) as u32) == (spec_lower_char(b[0]) as u32) {
            lemma_ci_le_total(a.drop_first(), b.drop_first());
        }
    }
}

/// The case-insensitive order is transitive.
pub proof fn lemma_ci_le_trans(a: Seq<char>, b: Seq<char>, c: Seq<char>)
    requires
        spec_ci_le(a, b),
        spec_ci_le(b, c),
    ensures
        spec_ci_le(a, c),
    decreases a.len(),
{
    if a.len() == 0 {
    } else {
        assert(b.len() > 0);
        assert(c.len() > 0);
        let x = spec_lower_char(a[0]) as u32;
        let y = spec_lower_char(b[0]) as u32;
        let z = spec_lower_char(c[0]) as u32;
        if x == y && y == z {
            lemma_ci_le_trans(a.drop_first(), b.drop_first(), c.drop_first());
        }
    }
}

/// Compares two names case-insensitively, mirroring [`spec_ci_le`].
fn str_ci_le(a: &str, b: &str) -> (r: bool)
    ensures
        r == spec_ci_le(a@, b@),
{
    let la = a.unicode_len();
    let lb = b.unicode_len();
    let mut i: usize = 0;
    proof {
        assert(a@.skip(0) =~= a@);
        assert(b@.skip(0) =~= b@);
    }
    loop
        invariant
            i <= la,
            i <= lb,
            la == a@.len(),
            lb == b@.len(),
            spec_ci_le(a@, b@) == spec_ci_le(a@.skip(i as int), b@.skip(i as int)),
        decreases la - i,
    {
        if i >= la {
            proof {
                assert(a@.skip(i as int).len() == 0);
            }
            return true;
        }
        if i >= lb {
            proof {
                assert(b@.skip(i as int).len() == 0);
                assert(a@.skip(i as int).len() > 0);
            }
            return false;
        }
        let ca = lower_char(a.get_char(i));
        let cb = lower_char(b.get_char(i));
        proof {
            assert(a@.skip(i as int)[0] == a@[i as int]);
            assert(b@.skip(i as int)[0] == b@[i as int]);
        }
        if (ca as u32) < (cb as u32) {
            return true;
        }
        if (ca as u32) > (cb as u32) {
            return false;
        }
        proof {
            assert(a@.skip(i as int).drop_first() =~= a@.skip(i as int + 1));
            assert(b@.skip(i as int).drop_first() =~= b@.skip(i as int + 1));
        }
        i = i + 1;
    }
}

/// The theme names left out of the catalog: the purely terminal-oriented
/// ones.
pub open spec fn spec_excluded(name: Seq<char>) -> bool {
    name == "ansi"@ || name == "base16"@ || name == "base16-256"@
}

/// Whether a theme name is left out of the catalog.
fn is_excluded(name: &str) -> (r: bool)
    ensures
        r == spec_excluded(name@),
{
    str_eq(name, "ansi") || str_eq(name, "base16") || str_eq(name, "base16-256")
}

/// Whether a catalog is sorted by case-insensitive display name.
pub open spec fn spec_catalog_sorted(s: Seq<ThemeEntry>) -> bool {
    forall|i: int, j: int|
        0 <= i < j < s.len() ==> spec_ci_le(#[trigger] s[i].name@, #[trigger] s[j].name@)
}

/// The entries a raw theme list keeps: those whose name is not excluded.
pub open spec fn spec_kept(s: Seq<ThemeEntry>) -> Seq<ThemeEntry> {
    s.filter(|e: ThemeEntry| !spec_excluded(e.name@))
}

/// Keeping distributes over appending one entry at the end.
proof fn lemma_kept_push(s: Seq<ThemeEntry>, e: ThemeEntry)
    ensures
        spec_kept(s.push(e)) == if !spec_excluded(e.name@) {
            spec_kept(s).push(e)
        } else {
            spec_kept(s)
        },
{
    reveal(Seq::filter);
    assert(s.push(e).drop_last() =~= s);
    assert(s.push(e).last() == e);
}

/// Inserts one theme into a sorted catalog, keeping it sorted.
fn insert_sorted(out: &mut Vec<ThemeEntry>, e: ThemeEntry)
    requires
        spec_catalog_sorted(old(out)@),
    ensures
        spec_catalog_sorted(final(out)@),
        final(out)@.to_multiset() == old(out)@.to_multiset().insert(e),
        final(out)@.len() == old(out)@.len() + 1,
        forall|i: int|
            0 <= i < final(out)@.len() ==> (#[trigger] final(out)@[i]) == e || old(out)@.contains(
                final(out)@[i],
            ),
{
    let mut j: usize = 0;
    while j < out.len()
        invariant
            j <= out@.len(),
            out@ == old(out)@,
            forall|k: int| 0 <= k < j ==> spec_ci_le(#[trigger] out@[k].name@, e.name@),
        ensures
            j <= out@.len(),
            out@ == old(out)@,
            forall|k: int| 0 <= k < j ==> spec_ci_le(#[trigger] out@[k].name@, e.name@),
            j < out@.len() ==> !spec_ci_le(out@[j as int].name@, e.name@),
        decreases out@.len() - j,
    {
        if str_ci_le(out[j].name.as_str(), e.name.as_str()) {
            j = j + 1;
        } else {
            break;
        }
    }
    let ghost s_old = out@;
    let ghost jj = j as int;
    out.insert(j, e);
    proof {
        let s2 = out@;
        assert(s2 == s_old.insert(jj, e));
        if jj < s_old.len() {
            lemma_ci_le_total(s_old[jj].name@, e.name@);
            assert(spec_ci_le(e.name@, s_old[jj].name@));
        }
        assert forall|p: int, q: int| 0 <= p < q < s2.len() implies spec_ci_le(
            #[trigger] s2[p].name@,
            #[trigger] s2[q].name@,
        ) by {
            if q < jj {
                assert(s2[p] == s_old[p] && s2[q] == s_old[q]);
            } else if p < jj && q == jj {
                assert(s2[p] == s_old[p] && s2[q] == e);
            } else if p < jj && q > jj {
                assert(s2[p] == s_old[p] && s2[q] == s_old[q - 1]);
                assert(spec_ci_le(s_old[p].name@, s_old[q - 1].name@));
            } else if p == jj {
                assert(s2[p] == e && s2[q] == s_old[q - 1]);
                assert(q - 1 >= jj);
                if q - 1 == jj {
                    assert(spec_ci_le(e.name@, s_old[jj].name@));
                } else {
                    assert(spec_ci_le(s_old[jj].name@, s_old[q - 1].name@));
                    lemma_ci_le_trans(e.name@, s_old[jj].name@, s_old[q - 1].name@);
                }
            } else {
                assert(s2[p] == s_old[p - 1] && s2[q] == s_old[q - 1]);
            }
        }
        let left = s_old.subrange(0, jj);
        let right = s_old.subrange(jj, s_old.len() as int);
        assert(s2 =~= left + (seq![e] + right));
        assert(s_old =~= left + right);
        lemma_multiset_commutative(left, seq![e] + right);
        lemma_multiset_commutative(seq![e], right);
        lemma_multiset_commutative(left, right);
        assert(seq![e] =~= Seq::<ThemeEntry>::empty().push(e));
        broadcast use vstd::seq_lib::group_to_multiset_ensures;
        assert(Seq::<ThemeEntry>::empty().push(e).to_multiset() =~= Seq::<
            ThemeEntry,
        >::empty().to_multiset().insert(e));
        assert(Seq::<ThemeEntry>::empty().to_multiset() =~= Multiset::<ThemeEntry>::empty());
        assert(s2.to_multiset() =~= s_old.to_multiset().insert(e));
        assert forall|i: int| 0 <= i < s2.len() implies (#[trigger] s2[i]) == e
            || s_old.contains(s2[i]) by {
            if i < jj {
                assert(s2[i] == s_old[i]);
            } else if i > jj {
                assert(s2[i] == s_old[i - 1]);
            }
        }
    }
}

/// Builds the theme catalog from the raw theme list: the terminal-oriented
/// themes are dropped, and the rest stand sorted by case-insensitive
/// display name, as the theme picker lists them.
pub fn build_catalog(entries: Vec<ThemeEntry>) -> (r: Vec<ThemeEntry>)
    ensures
        spec_catalog_sorted(r@),
        r@.to_multiset() == spec_kept(entries@).to_multiset(),
        forall|i: int| 0 <= i < r@.len() ==> !spec_excluded((#[trigger] r@[i]).name@),
{
    let ghost orig = entries@;
    let mut rest = entries;
    let mut out: Vec<ThemeEntry> = Vec::new();
    proof {
        reveal(Seq::filter);
        assert(orig.take(0) =~= Seq::<ThemeEntry>::empty());
        assert(spec_kept(Seq::<ThemeEntry>::empty()) =~= Seq::<ThemeEntry>::empty());
        broadcast use vstd::seq_lib::group_to_multiset_ensures;
    }
    while rest.len() > 0
        invariant
            rest@.len() <= orig.len(),
            rest@ =~= orig.skip(orig.len() - rest@.len()),
            spec_catalog_sorted(out@),
            out@.to_multiset() == spec_kept(orig.take(orig.len() - rest@.len())).to_multiset(),
            forall|i: int| 0 <= i < out@.len() ==> !spec_excluded((#[trigger] out@[i]).name@),
        decreases rest@.len(),
    {
        let ghost i = orig.len() - rest@.len();
        let e = rest.remove(0);
        proof {
            assert(e == orig[i]);
            assert(rest@ =~= orig.skip(i + 1));
            assert(orig.take(i + 1) =~= orig.take(i).push(e));
            lemma_kept_push(orig.take(i), e);
            broadcast use vstd::seq_lib::group_to_multiset_ensures;
        }
        if !is_excluded(e.name.as_str()) {
            let ghost before = out@;
            insert_sorted(&mut out, e);
            proof {
                assert(spec_kept(orig.take(i + 1)) == spec_kept(orig.take(i)).push(e));
                assert(spec_kept(orig.take(i)).push(e).to_multiset() =~= spec_kept(
                    orig.take(i),
                ).to_multiset().insert(e));
                assert forall|k: int| 0 <= k < out@.len() implies !spec_excluded(
                    (#[trigger] out@[k]).name@,
                ) by {
                    if out@[k] == e {
                    } else {
                        assert(before.contains(out@[k]));
                    }
                }
            }
        }
    }
    proof {
        assert(orig.take(orig.len() as int) =~= orig);
    }
    out
}

} // verus!
