//! The copy formats offered for a selection of bytes.

use vstd::prelude::*;

use crate::text::{digit, hex_pair, hex_pair_lower, push_char, push_str};
use vstd::utf8::{decode_utf8, valid_utf8};

verus! {

/// Upper-case hex pairs separated by single spaces: `"DE AD BE EF"`.
pub open spec fn hex_spaced(s: Seq<u8>) -> Seq<char>
    decreases s.len(),
{
    if s.len() == 0 {
        Seq::empty()
    } else if s.len() == 1 {
        hex_pair(s[0])
    } else {
        hex_spaced(s.drop_last()).push(' ') + hex_pair(s.last())
    }
}

/// Upper-case hex pairs run together: `"DEADBEEF"`.
pub open spec fn hex_compact(s: Seq<u8>) -> Seq<char>
    decreases s.len(),
{
    if s.len() == 0 {
        Seq::empty()
    } else {
        hex_compact(s.drop_last()) + hex_pair(s.last())
    }
}

/// `0x`-prefixed upper-case hex pairs separated by `", "`.
pub open spec fn hex_items(s: Seq<u8>) -> Seq<char>
    decreases s.len(),
{
    if s.len() == 0 {
        Seq::empty()
    } else if s.len() == 1 {
        "0x"@ + hex_pair(s[0])
    } else {
        hex_items(s.drop_last()) + ", 0x"@ + hex_pair(s.last())
    }
}

/// `\x`-escaped lower-case hex pairs run together.
pub open spec fn escaped_hex(s: Seq<u8>) -> Seq<char>
    decreases s.len(),
{
    if s.len() == 0 {
        Seq::empty()
    } else {
        escaped_hex(s.drop_last()) + "\\x"@ + hex_pair_lower(s.last())
    }
}

/// The standard base64 alphabet.
pub open spec fn base64_char(v: nat) -> char {
    if v < 26 {
        ((65 + v) as u32) as char
    } else if v < 52 {
        ((71 + v) as u32) as char
    } else if v < 62 {
        ((v - 4) as u32) as char
    } else if v == 62 {
        '+'
    } else {
        '/'
    }
}

/// The four characters that encode a group of one to three bytes, with `=`
/// padding for a short group.
pub open spec fn base64_group(g: Seq<u8>) -> Seq<char> {
    let b0 = g[0] as nat;
    let b1 = if g.len() > 1 { g[1] as nat } else { 0 };
    let b2 = if g.len() > 2 { g[2] as nat } else { 0 };
    seq![
        base64_char(b0 / 4),
        base64_char((b0 % 4) * 16 + b1 / 16),
        if g.len() > 1 { base64_char((b1 % 16) * 4 + b2 / 64) } else { '=' },
        if g.len() > 2 { base64_char(b2 % 64) } else { '=' },
    ]
}

/// Standard padded base64 (RFC 4648).
pub open spec fn base64(s: Seq<u8>) -> Seq<char>
    decreases s.len(),
{
    if s.len() == 0 {
        Seq::empty()
    } else if s.len() <= 3 {
        base64_group(s)
    } else {
        base64_group(s.take(3)) + base64(s.skip(3))
    }
}

/// The selection as upper-case hex pairs separated by spaces.
pub fn format_hex_spaced(bytes: &[u8]) -> (r: String)
    ensures
        r@ == hex_spaced(bytes@),
{
    let mut out = String::new();
    let n = bytes.len();
    let mut i: usize = 0;
    while i < n
        invariant
            i <= n,
            n == bytes@.len(),
            out@ == hex_spaced(bytes@.take(i as int)),
        decreases n - i,
    {
        let ghost before = out@;
        if i > 0 {
            push_char(&mut out, ' ');
        }
        push_hex_pair(&mut out, bytes[i], true);
        assert(bytes@.take(i + 1).drop_last() =~= bytes@.take(i as int));
        i = i + 1;
        assert(out@ =~= hex_spaced(bytes@.take(i as int)));
    }
    assert(bytes@.take(n as int) =~= bytes@);
    out
}

/// Appends the two hex digits of a byte.
fn push_hex_pair(s: &mut String, b: u8, upper: bool)
    ensures
        final(s)@ == old(s)@ + if upper { hex_pair(b) } else { hex_pair_lower(b) },
{
    push_char(s, digit((b / 16) as u64, upper));
    push_char(s, digit((b % 16) as u64, upper));
    assert(s@ =~= old(s)@ + if upper { hex_pair(b) } else { hex_pair_lower(b) });
}

/// The selection as upper-case hex pairs run together.
pub fn format_hex_compact(bytes: &[u8]) -> (r: String)
    ensures
        r@ == hex_compact(bytes@),
{
    let mut out = String::new();
    let n = bytes.len();
    let mut i: usize = 0;
    while i < n
        invariant
            i <= n,
            n == bytes@.len(),
            out@ == hex_compact(bytes@.take(i as int)),
        decreases n - i,
    {
        push_hex_pair(&mut out, bytes[i], true);
        assert(bytes@.take(i + 1).drop_last() =~= bytes@.take(i as int));
        i = i + 1;
    }
    assert(bytes@.take(n as int) =~= bytes@);
    out
}

fn push_hex_items(out: &mut String, bytes: &[u8])
    ensures
        final(out)@ == old(out)@ + hex_items(bytes@),
{
    let ghost start = out@;
    let n = bytes.len();
    let mut i: usize = 0;
    while i < n
        invariant
            i <= n,
            n == bytes@.len(),
            out@ == start + hex_items(bytes@.take(i as int)),
        decreases n - i,
    {
        if i > 0 {
            push_str(out, ", 0x");
        } else {
            push_str(out, "0x");
        }
        push_hex_pair(out, bytes[i], true);
        assert(bytes@.take(i + 1).drop_last() =~= bytes@.take(i as int));
        i = i + 1;
        assert(out@ =~= start + hex_items(bytes@.take(i as int)));
    }
    assert(bytes@.take(n as int) =~= bytes@);
}

/// The selection as a C array initializer: `{0xDE, 0xAD}`.
pub fn format_c_array(bytes: &[u8]) -> (r: String)
    ensures
        r@ == "{"@ + hex_items(bytes@) + "}"@,
{
    let mut out = String::new();
    push_str(&mut out, "{");
    push_hex_items(&mut out, bytes);
    push_str(&mut out, "}");
    out
}

/// The selection as a Rust slice literal: `[0xDE, 0xAD]`.
pub fn format_rust_slice(bytes: &[u8]) -> (r: String)
    ensures
        r@ == "["@ + hex_items(bytes@) + "]"@,
{
    let mut out = String::new();
    push_str(&mut out, "[");
    push_hex_items(&mut out, bytes);
    push_str(&mut out, "]");
    out
}

/// The selection as a Python bytes literal: `b'\xde\xad'`.
pub fn format_python_bytes(bytes: &[u8]) -> (r: String)
    ensures
        r@ == "b'"@ + escaped_hex(bytes@) + "'"@,
{
    let mut out = String::new();
    push_str(&mut out, "b'");
    let ghost start = out@;
    let n = bytes.len();
    let mut i: usize = 0;
    while i < n
        invariant
            i <= n,
            n == bytes@.len(),
            out@ == start + escaped_hex(bytes@.take(i as int)),
        decreases n - i,
    {
        push_str(&mut out, "\\x");
        push_hex_pair(&mut out, bytes[i], false);
        assert(bytes@.take(i + 1).drop_last() =~= bytes@.take(i as int));
        i = i + 1;
        assert(out@ =~= start + escaped_hex(bytes@.take(i as int)));
    }
    assert(bytes@.take(n as int) =~= bytes@);
    push_str(&mut out, "'");
    out
}

/// The base64 character for a six-bit value.
fn base64_digit(v: u32) -> (c: char)
    requires
        v < 64,
    ensures
        c == base64_char(v as nat),
{
    let b = v as u8;
    if b < 26 {
        (b + 65) as char
    } else if b < 52 {
        (b + 71) as char
    } else if b < 62 {
        (b - 4) as char
    } else if b == 62 {
        '+'
    } else {
        '/'
    }
}

/// The selection in standard padded base64.
pub fn format_base64(bytes: &[u8]) -> (r: String)
    ensures
        r@ == base64(bytes@),
{
    let mut out = String::new();
    let n = bytes.len();
    let mut i: usize = 0;
    assert(bytes@.skip(0) =~= bytes@);
    while i < n
        invariant
            i <= n,
            n == bytes@.len(),
            base64(bytes@) == out@ + base64(bytes@.skip(i as int)),
        decreases n - i,
    {
        let ghost rest = bytes@.skip(i as int);
        let left = n - i;
        let b0 = bytes[i] as u32;
        let b1 = if left > 1 {
            bytes[i + 1] as u32
        } else {
            0
        };
        let b2 = if left > 2 {
            bytes[i + 2] as u32
        } else {
            0
        };
        let ghost g = if rest.len() <= 3 { rest } else { rest.take(3) };
        assert(g[0] == bytes@[i as int]);
        assert(left > 1 ==> g[1] == bytes@[i + 1]);
        assert(left > 2 ==> g[2] == bytes@[i + 2]);
        push_char(&mut out, base64_digit(b0 / 4));
        push_char(&mut out, base64_digit((b0 % 4) * 16 + b1 / 16));
        if left > 1 {
            push_char(&mut out, base64_digit((b1 % 16) * 4 + b2 / 64));
        } else {
            push_char(&mut out, '=');
        }
        if left > 2 {
            push_char(&mut out, base64_digit(b2 % 64));
        } else {
            push_char(&mut out, '=');
        }
        if left <= 3 {
            assert(bytes@.skip(n as int).len() == 0);
            i = n;
        } else {
            assert(rest.skip(3) =~= bytes@.skip(i + 3));
            i = i + 3;
        }
        assert(out@.skip(out@.len() - 4) =~= base64_group(g));
    }
    out
}

/// The text that `String::from_utf8_lossy` makes of `bytes`: valid UTF-8
/// decoded, each invalid sequence replaced by U+FFFD.
pub uninterp spec fn utf8_lossy(bytes: Seq<u8>) -> Seq<char>;

/// Calls `String::from_utf8_lossy`. Trusted: the result is `utf8_lossy` of
/// the bytes, and for valid UTF-8 it is the decoded text, as the function's
/// documentation says; how invalid sequences are replaced is left unsaid.
#[verifier::external_body]
fn utf8_lossy_string(bytes: &[u8]) -> (r: String)
    ensures
        r@ == utf8_lossy(bytes@),
        valid_utf8(bytes@) ==> r@ == decode_utf8(bytes@),
{
    String::from_utf8_lossy(bytes).into_owned()
}

/// The selection as text, invalid UTF-8 replaced by U+FFFD.
pub fn format_utf8_lossy(bytes: &[u8]) -> (r: String)
    ensures
        r@ == utf8_lossy(bytes@),
        valid_utf8(bytes@) ==> r@ == decode_utf8(bytes@),
{
    utf8_lossy_string(bytes)
}

// ---------------------------------------------------------------------
// Laws
// ---------------------------------------------------------------------

/// Compact hex of joined byte strings is the join of their compact hex;
/// each byte takes two characters.
pub proof fn lemma_hex_compact_join(a: Seq<u8>, b: Seq<u8>)
    ensures
        hex_compact(a + b) == hex_compact(a) + hex_compact(b),
        hex_compact(a).len() == 2 * a.len(),
    decreases b.len(),
{
    if b.len() == 0 {
        assert(a + b =~= a);
        lemma_hex_compact_len(a);
    } else {
        lemma_hex_compact_join(a, b.drop_last());
        assert((a + b).drop_last() =~= a + b.drop_last());
        assert((a + b).last() == b.last());
    }
}

proof fn lemma_hex_compact_len(a: Seq<u8>)
    ensures
        hex_compact(a).len() == 2 * a.len(),
    decreases a.len(),
{
    if a.len() > 0 {
        lemma_hex_compact_len(a.drop_last());
    }
}

/// Spaced hex has the pairs of compact hex with one space between
/// neighbours: `3n - 1` characters for `n` bytes, the pair of byte `i` at
/// `3i`.
pub proof fn lemma_hex_spaced_layout(s: Seq<u8>)
    ensures
        s.len() > 0 ==> hex_spaced(s).len() == 3 * s.len() - 1,
        forall|i: int|
            0 <= i < s.len() ==> hex_spaced(s).subrange(3 * i, 3 * i + 2) == hex_pair(#[trigger] s[i]),
        forall|i: int| 0 <= i < s.len() - 1 ==> #[trigger] hex_spaced(s)[3 * i + 2] == ' ',
    decreases s.len(),
{
    if s.len() > 1 {
        let p = s.drop_last();
        lemma_hex_spaced_layout(p);
        let h = hex_spaced(s);
        let hp = hex_spaced(p);
        assert(h == hp.push(' ') + hex_pair(s.last()));
        assert forall|i: int| 0 <= i < s.len() implies h.subrange(3 * i, 3 * i + 2) == hex_pair(#[trigger] s[i]) by {
            if i < p.len() {
                assert(p[i] == s[i]);
                assert(h.subrange(3 * i, 3 * i + 2) =~= hp.subrange(3 * i, 3 * i + 2));
            } else {
                assert(h.subrange(3 * i, 3 * i + 2) =~= hex_pair(s.last()));
            }
        }
        assert forall|i: int| 0 <= i < s.len() - 1 implies #[trigger] h[3 * i + 2] == ' ' by {
            if i < p.len() - 1 {
                assert(h[3 * i + 2] == hp[3 * i + 2]);
            }
        }
    } else if s.len() == 1 {
        assert(hex_spaced(s).subrange(0, 2) =~= hex_pair(s[0]));
    }
}

/// Base64 takes four characters for every group of up to three bytes.
pub proof fn lemma_base64_len(s: Seq<u8>)
    ensures
        base64(s).len() == 4 * ((s.len() + 2) / 3),
    decreases s.len(),
{
    if s.len() > 3 {
        lemma_base64_len(s.skip(3));
    }
}

/// Base64 of joined byte strings is the join of their base64 when the first
/// has a length divisible by three, so a selection can be encoded piece by
/// piece.
pub proof fn lemma_base64_join(a: Seq<u8>, b: Seq<u8>)
    requires
        a.len() % 3 == 0,
    ensures
        base64(a + b) == base64(a) + base64(b),
    decreases a.len(),
{
    if a.len() == 0 {
        assert(a + b =~= b);
    } else {
        lemma_base64_join(a.skip(3), b);
        assert((a + b).skip(3) =~= a.skip(3) + b);
        assert((a + b).take(3) =~= a.take(3));
        if a.len() == 3 {
            assert(a.take(3) =~= a);
            assert(a.skip(3) =~= Seq::<u8>::empty());
            if b.len() == 0 {
                assert(a + b =~= a);
            }
        }
    }
}

/// A character of the base64 alphabet: `A-Z`, `a-z`, `0-9`, `+`, `/`.
pub open spec fn is_base64_char(c: char) -> bool {
    ||| 'A' <= c <= 'Z'
    ||| 'a' <= c <= 'z'
    ||| '0' <= c <= '9'
    ||| c == '+'
    ||| c == '/'
}

/// The number of `=` that end the base64 of `n` bytes.
pub open spec fn base64_pad(n: nat) -> nat {
    if n % 3 == 1 {
        2
    } else if n % 3 == 2 {
        1
    } else {
        0
    }
}

/// The six-bit value of a base64 character.
pub open spec fn base64_value(c: char) -> nat {
    let u = c as u32;
    if 65 <= u <= 90 {
        (u - 65) as nat
    } else if 97 <= u <= 122 {
        (u - 71) as nat
    } else if 48 <= u <= 57 {
        (u + 4) as nat
    } else if c == '+' {
        62
    } else {
        63
    }
}

/// The bytes of one group of four base64 characters (RFC 4648): three, or
/// fewer when the group ends in `=` padding.
pub open spec fn base64_decode_group(g: Seq<char>) -> Seq<u8> {
    let v0 = base64_value(g[0]);
    let v1 = base64_value(g[1]);
    let v2 = base64_value(g[2]);
    let v3 = base64_value(g[3]);
    let b0 = (v0 * 4 + v1 / 16) as u8;
    let b1 = ((v1 % 16) * 16 + v2 / 4) as u8;
    let b2 = ((v2 % 4) * 64 + v3) as u8;
    if g[2] == '=' {
        seq![b0]
    } else if g[3] == '=' {
        seq![b0, b1]
    } else {
        seq![b0, b1, b2]
    }
}

/// Standard base64 decoding of a text made of groups of four characters.
pub open spec fn base64_decode(t: Seq<char>) -> Seq<u8>
    decreases t.len(),
{
    if t.len() < 4 {
        Seq::empty()
    } else {
        base64_decode_group(t.take(4)) + base64_decode(t.skip(4))
    }
}

proof fn lemma_base64_char(v: nat)
    requires
        v < 64,
    ensures
        is_base64_char(base64_char(v)),
        base64_char(v) != '=',
        base64_value(base64_char(v)) == v,
{
    if v < 26 {
        assert((((65 + v) as u32) as char) as u32 == 65 + v);
    } else if v < 52 {
        assert((((71 + v) as u32) as char) as u32 == 71 + v);
    } else if v < 62 {
        assert((((v - 4) as u32) as char) as u32 == v - 4);
    }
}

/// The characters of one group: alphabet characters, then the padding.
proof fn lemma_group_well_formed(g: Seq<u8>)
    requires
        1 <= g.len() <= 3,
    ensures
        base64_group(g).len() == 4,
        forall|i: int|
            0 <= i < 4 ==> (i < 4 - base64_pad(g.len()) ==> is_base64_char(#[trigger] base64_group(g)[i]))
                && (i >= 4 - base64_pad(g.len()) ==> base64_group(g)[i] == '='),
        base64_decode_group(base64_group(g)) == g,
{
    let b0 = g[0] as nat;
    let b1 = if g.len() > 1 { g[1] as nat } else { 0 };
    let b2 = if g.len() > 2 { g[2] as nat } else { 0 };
    let v0 = b0 / 4;
    let v1 = (b0 % 4) * 16 + b1 / 16;
    let v2 = (b1 % 16) * 4 + b2 / 64;
    let v3 = b2 % 64;
    lemma_base64_char(v0);
    lemma_base64_char(v1);
    lemma_base64_char(v2);
    lemma_base64_char(v3);
    assert(v0 * 4 + v1 / 16 == b0);
    assert((v1 % 16) * 16 + v2 / 4 == b1);
    assert((v2 % 4) * 64 + v3 == b2);
    let d = base64_decode_group(base64_group(g));
    if g.len() == 1 {
        assert(d =~= g);
    } else if g.len() == 2 {
        assert(d =~= g);
    } else {
        assert(d =~= g);
    }
}

/// Base64 output is well formed: every character is of the base64
/// alphabet except the `=` padding at the end, two of them after a last
/// group of one byte, one after a last group of two, none otherwise.
pub proof fn lemma_base64_well_formed(s: Seq<u8>)
    ensures
        base64(s).len() == 4 * ((s.len() + 2) / 3),
        forall|i: int|
            0 <= i < base64(s).len() - base64_pad(s.len()) ==> is_base64_char(#[trigger] base64(s)[i]),
        forall|i: int|
            base64(s).len() - base64_pad(s.len()) <= i < base64(s).len() ==> #[trigger] base64(s)[i]
                == '=',
    decreases s.len(),
{
    lemma_base64_len(s);
    if s.len() == 0 {
    } else if s.len() <= 3 {
        lemma_group_well_formed(s);
    } else {
        let head = s.take(3);
        let rest = s.skip(3);
        lemma_group_well_formed(head);
        lemma_base64_well_formed(rest);
        lemma_base64_len(rest);
        let e = base64(s);
        assert(e == base64_group(head) + base64(rest));
        assert(base64_pad(s.len()) == base64_pad(rest.len()));
        assert(base64_pad(rest.len()) <= base64(rest).len()) by {
            if rest.len() % 3 != 0 {
                assert(rest.len() >= 1);
            }
        }
        assert forall|i: int| 0 <= i < e.len() - base64_pad(s.len()) implies is_base64_char(#[trigger] e[i]) by {
            if i >= 4 {
                assert(e[i] == base64(rest)[i - 4]);
            } else {
                assert(e[i] == base64_group(head)[i]);
            }
        }
        assert forall|i: int| e.len() - base64_pad(s.len()) <= i < e.len() implies #[trigger] e[i] == '=' by {
            assert(e[i] == base64(rest)[i - 4]);
        }
    }
}

/// Standard base64 decoding gives back the bytes that were encoded.
pub proof fn lemma_base64_round_trip(s: Seq<u8>)
    ensures
        base64_decode(base64(s)) == s,
    decreases s.len(),
{
    let t = base64(s);
    if s.len() == 0 {
        assert(t.len() == 0);
        assert(base64_decode(t) =~= s);
    } else if s.len() <= 3 {
        lemma_group_well_formed(s);
        assert(t == base64_group(s));
        assert(t.take(4) =~= t);
        assert(base64_decode(t.skip(4)) =~= Seq::<u8>::empty());
        assert(base64_decode(t) == base64_decode_group(t) + base64_decode(t.skip(4)));
        assert(base64_decode(t) =~= s);
    } else {
        let head = s.take(3);
        let rest = s.skip(3);
        lemma_group_well_formed(head);
        lemma_base64_round_trip(rest);
        assert(t == base64_group(head) + base64(rest));
        assert(t.take(4) =~= base64_group(head));
        assert(t.skip(4) =~= base64(rest));
        assert(head + rest =~= s);
    }
}

} // verus!
