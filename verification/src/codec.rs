//! The quoted-string codec: the form in which the persisted store keeps a
//! value and the shareable link carries the source pair, with its
//! round-trip proofs.

use crate::color::{hex_digit, spec_hex_digit};
use crate::strutil::push_char;
use vstd::prelude::*;
use vstd::string::StrSliceExecFns;

verus! {

/// The escape form of one character inside a quoted string: the quote and
/// the backslash get a backslash, the common control characters their
/// short names, the rest of the control characters the four-digit form,
/// and every other character stands as itself.
pub open spec fn spec_escape_char(c: char) -> Seq<char> {
    if c == '"' {
        seq!['\\', '"']
    } else if c == '\\' {
        seq!['\\', '\\']
    } else if c == '\n' {
        seq!['\\', 'n']
    } else if c == '\r' {
        seq!['\\', 'r']
    } else if c == '\t' {
        seq!['\\', 't']
    } else if (c as u32) < 0x20 {
        seq![
            '\\',
            'u',
            '0',
            '0',
            spec_hex_digit((c as u32 / 16) as u8),
            spec_hex_digit((c as u32 % 16) as u8),
        ]
    } else {
        seq![c]
    }
}

/// The escaped body of a quoted string.
pub open spec fn spec_escape(s: Seq<char>) -> Seq<char>
    decreases s.len(),
{
    if s.len() == 0 {
        Seq::empty()
    } else {
        spec_escape_char(s[0]) + spec_escape(s.drop_first())
    }
}

/// The quoted form of a text: a quote, the escaped body, a quote.
pub open spec fn spec_quote(s: Seq<char>) -> Seq<char> {
    seq!['"'] + spec_escape(s) + seq!['"']
}

/// Escaping distributes over appending one character at the end.
proof fn lemma_escape_snoc(p: Seq<char>, c: char)
    ensures
        spec_escape(p.push(c)) == spec_escape(p) + spec_escape_char(c),
    decreases p.len(),
{
    if p.len() == 0 {
        assert(p.push(c)[0] == c);
        assert(p.push(c).drop_first() =~= Seq::<char>::empty());
        assert(spec_escape(Seq::<char>::empty()) == Seq::<char>::empty());
        assert(spec_escape(p.push(c)) =~= spec_escape_char(c));
        assert(spec_escape(p) + spec_escape_char(c) =~= spec_escape_char(c));
    } else {
        lemma_escape_snoc(p.drop_first(), c);
        assert(p.push(c)[0] == p[0]);
        assert(p.push(c).drop_first() =~= p.drop_first().push(c));
        assert(spec_escape_char(p[0]) + (spec_escape(p.drop_first()) + spec_escape_char(c))
            =~= (spec_escape_char(p[0]) + spec_escape(p.drop_first())) + spec_escape_char(c));
    }
}

/// Appends the escape form of one character.
fn push_escaped(out: &mut String, c: char)
    ensures
        final(out)@ == old(out)@ + spec_escape_char(c),
{
    if c == '"' {
        push_char(out, '\\');
        push_char(out, '"');
    } else if c == '\\' {
        push_char(out, '\\');
        push_char(out, '\\');
    } else if c == '\n' {
        push_char(out, '\\');
        push_char(out, 'n');
    } else if c == '\r' {
        push_char(out, '\\');
        push_char(out, 'r');
    } else if c == '\t' {
        push_char(out, '\\');
        push_char(out, 't');
    } else if (c as u32) < 0x20 {
        let v = c as u32;
        push_char(out, '\\');
        push_char(out, 'u');
        push_char(out, '0');
        push_char(out, '0');
        push_char(out, hex_digit((v / 16) as u8));
        push_char(out, hex_digit((v % 16) as u8));
    } else {
        push_char(out, c);
    }
    assert(out@ =~= old(out)@ + spec_escape_char(c));
}

/// Encodes a text as one quoted string: the form in which the persistence
/// layer stores a value and the share link carries one.
pub fn quote_text(s: &str) -> (r: String)
    ensures
        r@ == spec_quote(s@),
{
    let n = s.unicode_len();
    let mut out = String::new();
    push_char(&mut out, '"');
    let mut i: usize = 0;
    while i < n
        invariant
            i <= n,
            n == s@.len(),
            out@ == seq!['"'] + spec_escape(s@.subrange(0, i as int)),
        decreases n - i,
    {
        let c = s.get_char(i);
        push_escaped(&mut out, c);
        proof {
            lemma_escape_snoc(s@.subrange(0, i as int), c);
            assert(s@.subrange(0, i as int + 1) =~= s@.subrange(0, i as int).push(c));
            assert(out@ =~= seq!['"'] + spec_escape(s@.subrange(0, i as int + 1)));
        }
        i = i + 1;
    }
    push_char(&mut out, '"');
    proof {
        assert(s@.subrange(0, n as int) =~= s@);
        assert(out@ =~= spec_quote(s@));
    }
    out
}

/// Whether a character is a hexadecimal digit, in either case.
pub open spec fn spec_is_hex(c: char) -> bool {
    (0x30 <= (c as u32) && (c as u32) <= 0x39) || (0x61 <= (c as u32) && (c as u32) <= 0x66) || (
    0x41 <= (c as u32) && (c as u32) <= 0x46)
}

/// The value of a hexadecimal digit.
pub open spec fn spec_hex_val(c: char) -> int {
    if 0x30 <= (c as u32) && (c as u32) <= 0x39 {
        (c as u32) - 0x30
    } else if 0x61 <= (c as u32) && (c as u32) <= 0x66 {
        (c as u32) - 0x61 + 10
    } else {
        (c as u32) - 0x41 + 10
    }
}

/// The character a four-digit escape of the form `00XX` names.
pub open spec fn spec_u_char(h1: char, h2: char) -> char {
    (((16 * spec_hex_val(h1) + spec_hex_val(h2)) as u8) as char)
}

/// The character a short escape names, where the name is one.
pub open spec fn spec_short_escape(e: char) -> Option<char> {
    if e == '"' {
        Some('"')
    } else if e == '\\' {
        Some('\\')
    } else if e == '/' {
        Some('/')
    } else if e == 'n' {
        Some('\n')
    } else if e == 'r' {
        Some('\r')
    } else if e == 't' {
        Some('\t')
    } else if e == 'b' {
        Some('\u{8}')
    } else if e == 'f' {
        Some('\u{c}')
    } else {
        None
    }
}

/// Scans the body of a quoted string from position `i`, just after its
/// opening quote: the decoded text and the position just past the closing
/// quote, or nothing where the text from `i` on is not a quoted body.
pub open spec fn spec_scan_body(s: Seq<char>, i: int) -> Option<(Seq<char>, int)>
    decreases s.len() - i,
{
    if i < 0 || i >= s.len() {
        None
    } else if s[i] == '"' {
        Some((Seq::empty(), i + 1))
    } else if s[i] == '\\' {
        if i + 1 >= s.len() {
            None
        } else if s[i + 1] == 'u' {
            if i + 5 < s.len() && s[i + 2] == '0' && s[i + 3] == '0' && spec_is_hex(s[i + 4])
                && spec_is_hex(s[i + 5]) {
                match spec_scan_body(s, i + 6) {
                    Some(p) => Some((seq![spec_u_char(s[i + 4], s[i + 5])] + p.0, p.1)),
                    None => None,
                }
            } else {
                None
            }
        } else {
            match spec_short_escape(s[i + 1]) {
                Some(c) => match spec_scan_body(s, i + 2) {
                    Some(p) => Some((seq![c] + p.0, p.1)),
                    None => None,
                },
                None => None,
            }
        }
    } else {
        match spec_scan_body(s, i + 1) {
            Some(p) => Some((seq![s[i]] + p.0, p.1)),
            None => None,
        }
    }
}

/// A successful scan ends past its start and within the text.
proof fn lemma_scan_bounds(s: Seq<char>, i: int)
    ensures
        match spec_scan_body(s, i) {
            Some(p) => i < p.1 <= s.len(),
            None => true,
        },
    decreases s.len() - i,
{
    if i < 0 || i >= s.len() {
    } else if s[i] == '"' {
    } else if s[i] == '\\' {
        if i + 1 >= s.len() {
        } else if s[i + 1] == 'u' {
            if i + 5 < s.len() && s[i + 2] == '0' && s[i + 3] == '0' && spec_is_hex(s[i + 4])
                && spec_is_hex(s[i + 5]) {
                lemma_scan_bounds(s, i + 6);
            }
        } else {
            lemma_scan_bounds(s, i + 2);
        }
    } else {
        lemma_scan_bounds(s, i + 1);
    }
}

/// The value of a hexadecimal digit character, if it is one.
fn hex_val(c: char) -> (r: Option<u8>)
    ensures
        match r {
            Some(v) => spec_is_hex(c) && v < 16 && v as int == spec_hex_val(c),
            None => !spec_is_hex(c),
        },
{
    let u = c as u32;
    if 0x30 <= u && u <= 0x39 {
        Some((u - 0x30) as u8)
    } else if 0x61 <= u && u <= 0x66 {
        Some((u - 0x61 + 10) as u8)
    } else if 0x41 <= u && u <= 0x46 {
        Some((u - 0x41 + 10) as u8)
    } else {
        None
    }
}

/// The character a short escape names, if the name is one.
fn short_escape(e: char) -> (r: Option<char>)
    ensures
        r == spec_short_escape(e),
{
    if e == '"' {
        Some('"')
    } else if e == '\\' {
        Some('\\')
    } else if e == '/' {
        Some('/')
    } else if e == 'n' {
        Some('\n')
    } else if e == 'r' {
        Some('\r')
    } else if e == 't' {
        Some('\t')
    } else if e == 'b' {
        Some('\u{8}')
    } else if e == 'f' {
        Some('\u{c}')
    } else {
        None
    }
}

/// Scans the body of a quoted string, mirroring [`spec_scan_body`].
fn scan_body(s: &str, i: usize) -> (r: Option<(String, usize)>)
    ensures
        match r {
            Some(p) => spec_scan_body(s@, i as int) == Some((p.0@, p.1 as int)) && p.1 <= s@.len(),
            None => spec_scan_body(s@, i as int) is None,
        },
    decreases s@.len() - i,
{
    let n = s.unicode_len();
    if i >= n {
        return None;
    }
    let c = s.get_char(i);
    if c == '"' {
        Some((String::new(), i + 1))
    } else if c == '\\' {
        if n - i < 2 {
            return None;
        }
        let e = s.get_char(i + 1);
        if e == 'u' {
            if n - i < 6 {
                return None;
            }
            if s.get_char(i + 2) != '0' || s.get_char(i + 3) != '0' {
                return None;
            }
            let h1 = s.get_char(i + 4);
            let h2 = s.get_char(i + 5);
            match (hex_val(h1), hex_val(h2)) {
                (Some(v1), Some(v2)) => {
                    let v: u8 = 16 * v1 + v2;
                    let ch = v as char;
                    assert(ch == spec_u_char(h1, h2));
                    match scan_body(s, i + 6) {
                        Some((rest, j)) => {
                            let mut t = String::new();
                            push_char(&mut t, ch);
                            t.append(rest.as_str());
                            proof {
                                assert(t@ =~= seq![spec_u_char(h1, h2)] + rest@);
                            }
                            Some((t, j))
                        },
                        None => None,
                    }
                },
                _ => None,
            }
        } else {
            match short_escape(e) {
                Some(ch) => match scan_body(s, i + 2) {
                    Some((rest, j)) => {
                        let mut t = String::new();
                        push_char(&mut t, ch);
                        t.append(rest.as_str());
                        proof {
                            assert(t@ =~= seq![ch] + rest@);
                        }
                        Some((t, j))
                    },
                    None => None,
                },
                None => None,
            }
        }
    } else {
        match scan_body(s, i + 1) {
            Some((rest, j)) => {
                let mut t = String::new();
                push_char(&mut t, c);
                t.append(rest.as_str());
                proof {
                    assert(t@ =~= seq![c] + rest@);
                }
                Some((t, j))
            },
            None => None,
        }
    }
}

/// What a stored text decodes to: the content of exactly one quoted
/// string. Anything else -- a missing quote, a malformed escape, trailing
/// text -- decodes to nothing.
pub open spec fn spec_unquote(s: Seq<char>) -> Option<Seq<char>> {
    if s.len() > 0 && s[0] == '"' {
        match spec_scan_body(s, 1) {
            Some(p) => if p.1 == s.len() {
                Some(p.0)
            } else {
                None
            },
            None => None,
        }
    } else {
        None
    }
}

/// Decodes a text that is exactly one quoted string. A corrupted value
/// decodes to nothing, and the caller falls back to its default.
pub fn unquote_text(s: &str) -> (r: Option<String>)
    ensures
        match r {
            Some(t) => spec_unquote(s@) == Some(t@),
            None => spec_unquote(s@) is None,
        },
{
    let n = s.unicode_len();
    if n == 0 {
        return None;
    }
    if s.get_char(0) != '"' {
        return None;
    }
    match scan_body(s, 1) {
        Some((t, j)) => if j == n {
            Some(t)
        } else {
            None
        },
        None => None,
    }
}

/// The share-link form of a source pair: the two quoted strings, one
/// directly after the other.
pub open spec fn spec_encode_pair(a: Seq<char>, b: Seq<char>) -> Seq<char> {
    spec_quote(a) + spec_quote(b)
}

/// Encodes a source pair for a shareable link.
pub fn encode_pair(a: &str, b: &str) -> (r: String)
    ensures
        r@ == spec_encode_pair(a@, b@),
{
    let mut out = quote_text(a);
    let second = quote_text(b);
    out.append(second.as_str());
    out
}

/// What a shared link decodes to: exactly two quoted strings and nothing
/// else.
pub open spec fn spec_decode_pair(s: Seq<char>) -> Option<(Seq<char>, Seq<char>)> {
    if s.len() > 0 && s[0] == '"' {
        match spec_scan_body(s, 1) {
            Some(p) => if p.1 < s.len() && s[p.1] == '"' {
                match spec_scan_body(s, p.1 + 1) {
                    Some(q) => if q.1 == s.len() {
                        Some((p.0, q.0))
                    } else {
                        None
                    },
                    None => None,
                }
            } else {
                None
            },
            None => None,
        }
    } else {
        None
    }
}

/// Decodes a shared link back into a source pair. A payload that does not
/// decode to exactly two texts decodes to nothing, and the caller treats
/// it as no shared state at all.
pub fn decode_pair(s: &str) -> (r: Option<(String, String)>)
    ensures
        match r {
            Some(p) => spec_decode_pair(s@) == Some((p.0@, p.1@)),
            None => spec_decode_pair(s@) is None,
        },
{
    let n = s.unicode_len();
    if n == 0 {
        return None;
    }
    if s.get_char(0) != '"' {
        return None;
    }
    match scan_body(s, 1) {
        Some((a, j)) => {
            proof {
                lemma_scan_bounds(s@, 1);
            }
            if j >= n {
                return None;
            }
            if s.get_char(j) != '"' {
                return None;
            }
            match scan_body(s, j + 1) {
                Some((b, k)) => if k == n {
                    Some((a, b))
                } else {
                    None
                },
                None => None,
            }
        },
        None => None,
    }
}

/// Scanning the escaped form of a text followed by a closing quote (and
/// anything after it) recovers exactly the text.
proof fn lemma_scan_escaped(pre: Seq<char>, t: Seq<char>, post: Seq<char>)
    ensures
        spec_scan_body(pre + spec_escape(t) + seq!['"'] + post, pre.len() as int) == Some(
            (t, (pre.len() + spec_escape(t).len() + 1) as int),
        ),
    decreases t.len(),
{
    let s = pre + spec_escape(t) + seq!['"'] + post;
    let i = pre.len() as int;
    if t.len() == 0 {
        assert(spec_escape(t) =~= Seq::<char>::empty());
        assert(s[i] == (pre + spec_escape(t) + seq!['"'])[i]);
        assert((pre + spec_escape(t) + seq!['"'])[i] == seq!['"'][i - (pre + spec_escape(
            t,
        )).len()]);
        assert(s[i] == '"');
        assert(spec_scan_body(s, i) == Some((Seq::<char>::empty(), i + 1)));
        assert(t =~= Seq::<char>::empty());
    } else {
        let c = t[0];
        let t2 = t.drop_first();
        let ec = spec_escape_char(c);
        let pre2 = pre + ec;
        let s2 = pre2 + spec_escape(t2) + seq!['"'] + post;
        assert(spec_escape(t) == ec + spec_escape(t2));
        assert(s =~= s2);
        lemma_scan_escaped(pre2, t2, post);
        assert forall|k: int| 0 <= k < ec.len() implies s[i + k] == ec[k] by {
            assert(s2[i + k] == ((pre2 + spec_escape(t2)) + seq!['"'])[i + k]);
            assert(((pre2 + spec_escape(t2)) + seq!['"'])[i + k] == (pre2 + spec_escape(t2))[i
                + k]);
            assert((pre2 + spec_escape(t2))[i + k] == pre2[i + k]);
            assert(pre2[i + k] == ec[k]);
        }
        assert(s.len() == pre.len() + spec_escape(t).len() + 1 + post.len());
        assert(seq![c] + t2 =~= t);
        if c == '"' || c == '\\' || c == '\n' || c == '\r' || c == '\t' {
            assert(ec.len() == 2);
            assert(s[i] == '\\');
            assert(spec_short_escape(s[i + 1]) == Some(c));
            assert(spec_scan_body(s, i + 2) == Some(
                (t2, (pre2.len() + spec_escape(t2).len() + 1) as int),
            ));
            assert(spec_scan_body(s, i) == Some(
                (t, (pre.len() + spec_escape(t).len() + 1) as int),
            ));
        } else if (c as u32) < 0x20 {
            let v = c as u32;
            assert(ec.len() == 6);
            assert(s[i] == '\\');
            assert(s[i + 1] == 'u');
            assert(s[i + 2] == '0');
            assert(s[i + 3] == '0');
            lemma_hex_digit_val((v / 16) as u8);
            lemma_hex_digit_val((v % 16) as u8);
            assert(spec_is_hex(s[i + 4]));
            assert(spec_is_hex(s[i + 5]));
            assert(spec_u_char(s[i + 4], s[i + 5]) == c) by {
                assert(s[i + 4] == ec[4]);
                assert(ec[4] == spec_hex_digit((v / 16) as u8));
                assert(s[i + 5] == ec[5]);
                assert(ec[5] == spec_hex_digit((v % 16) as u8));
                assert(spec_hex_val(spec_hex_digit((v / 16) as u8)) == v / 16);
                assert(spec_hex_val(spec_hex_digit((v % 16) as u8)) == v % 16);
                assert(spec_hex_val(s[i + 4]) == v / 16);
                assert(spec_hex_val(s[i + 5]) == v % 16);
                assert(v as int == 16 * ((v as int) / 16) + (v as int) % 16) by {
                    vstd::arithmetic::div_mod::lemma_fundamental_div_mod(v as int, 16);
                }
                assert(16 * spec_hex_val(s[i + 4]) + spec_hex_val(s[i + 5]) == v);
                lemma_control_char_cast(c);
            }
            assert(spec_scan_body(s, i + 6) == Some(
                (t2, (pre2.len() + spec_escape(t2).len() + 1) as int),
            ));
            assert(spec_scan_body(s, i) == Some(
                (t, (pre.len() + spec_escape(t).len() + 1) as int),
            ));
        } else {
            assert(ec.len() == 1);
            assert(s[i] == c);
            assert(c != '"' && c != '\\');
            assert(spec_scan_body(s, i + 1) == Some(
                (t2, (pre2.len() + spec_escape(t2).len() + 1) as int),
            ));
            assert(spec_scan_body(s, i) == Some(
                (t, (pre.len() + spec_escape(t).len() + 1) as int),
            ));
        }
    }
}

/// A control character survives the cast to its code value and back.
proof fn lemma_control_char_cast(c: char)
    requires
        (c as u32) < 0x20,
    ensures
        ({
            let u = c as u32;
            ((u as u8) as char) == c
        }),
{
}

/// A hexadecimal digit of a value below sixteen reads back as that value.
proof fn lemma_hex_digit_val(d: u8)
    requires
        d < 16,
    ensures
        spec_is_hex(spec_hex_digit(d)),
        spec_hex_val(spec_hex_digit(d)) == d,
{
}

/// Round trip of one quoted text: decoding inverts encoding exactly.
pub proof fn lemma_quote_round_trip(t: Seq<char>)
    ensures
        spec_unquote(spec_quote(t)) == Some(t),
{
    let s = spec_quote(t);
    lemma_scan_escaped(seq!['"'], t, Seq::<char>::empty());
    assert(seq!['"'] + spec_escape(t) + seq!['"'] + Seq::<char>::empty() =~= s);
    assert(s[0] == '"') by {
        assert((seq!['"'] + spec_escape(t))[0] == seq!['"'][0]);
    }
    assert(spec_scan_body(s, 1) == Some((t, (1 + spec_escape(t).len() + 1) as int)));
    assert(s.len() == spec_escape(t).len() + 2);
}

/// Shared-link round trip: encoding a source pair and decoding the result
/// yields back the identical pair.
pub proof fn lemma_pair_round_trip(a: Seq<char>, b: Seq<char>)
    ensures
        spec_decode_pair(spec_encode_pair(a, b)) == Some((a, b)),
{
    let s = spec_encode_pair(a, b);
    let ja: int = (1 + spec_escape(a).len() + 1) as int;
    lemma_scan_escaped(seq!['"'], a, spec_quote(b));
    assert(seq!['"'] + spec_escape(a) + seq!['"'] + spec_quote(b) =~= s);
    assert(s[0] == '"') by {
        assert((seq!['"'] + spec_escape(a))[0] == seq!['"'][0]);
    }
    assert(spec_scan_body(s, 1) == Some((a, ja)));
    assert(s[ja] == '"') by {
        assert(s[ja] == spec_quote(b)[ja - spec_quote(a).len()]);
        assert(spec_quote(b)[0] == (seq!['"'] + spec_escape(b))[0]);
        assert((seq!['"'] + spec_escape(b))[0] == seq!['"'][0]);
    }
    lemma_scan_escaped(spec_quote(a) + seq!['"'], b, Seq::<char>::empty());
    assert(spec_quote(a) + seq!['"'] + spec_escape(b) + seq!['"'] + Seq::<char>::empty() =~= s);
    assert(spec_scan_body(s, ja + 1) == Some(
        (b, ((spec_quote(a) + seq!['"']).len() + spec_escape(b).len() + 1) as int),
    ));
    assert(s.len() == spec_quote(a).len() + spec_quote(b).len());
}

} // verus!
