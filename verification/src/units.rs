//! File offsets and sizes: reading an offset typed by the user, and the
//! human-readable renderings used in the status bar and on plot axes.

use vstd::prelude::*;

use crate::text::{
    is_unicode_whitespace,
    chars_of, decimal, digit, digit_char, hex_upper, parse_unsigned, parse_unsigned_in, push_char,
    push_digits, push_str, trim_bounds, trimmed, digits, lemma_digits_read_back, lemma_digits_nonempty,
    lemma_parse_rendered, lemma_trimmed_unchanged,
};

verus! {

// ---------------------------------------------------------------------
// Reading offsets
// ---------------------------------------------------------------------

/// The offset that the text `s` denotes: surrounding whitespace is ignored;
/// after a `0x` or `0X` prefix the digits are hexadecimal, otherwise decimal.
pub open spec fn offset_value(s: Seq<char>) -> Option<nat> {
    let t = trimmed(s);
    if t.len() >= 2 && t[0] == '0' && (t[1] == 'x' || t[1] == 'X') {
        parse_unsigned(t.skip(2), 16, u64::MAX as nat)
    } else {
        parse_unsigned(t, 10, u64::MAX as nat)
    }
}

/// Reads an offset typed in the "go to offset" dialog: hexadecimal after
/// `0x` or `0X`, decimal otherwise.
pub fn parse_offset(input: &str) -> (r: Option<u64>)
    ensures
        r is None <==> offset_value(input@) is None,
        r matches Some(x) ==> offset_value(input@) == Some(x as nat),
{
    let v = chars_of(input);
    let (start, end) = trim_bounds(&v);
    let ghost t = trimmed(input@);
    assert(t == v@.subrange(start as int, end as int));
    if end - start >= 2 && v[start] == '0' && (v[start + 1] == 'x' || v[start + 1] == 'X') {
        assert(t.skip(2) =~= v@.subrange(start + 2, end as int));
        parse_unsigned_in(&v, start + 2, end, 16, u64::MAX)
    } else {
        parse_unsigned_in(&v, start, end, 10, u64::MAX)
    }
}

// ---------------------------------------------------------------------
// One-decimal renderings of byte counts
// ---------------------------------------------------------------------

/// `a / m` rounded to the nearest integer, ties to the even one.
pub open spec fn div_round_even(a: nat, m: nat) -> nat
    recommends
        m > 0,
{
    let q = a / m;
    let r = a % m;
    if 2 * r > m || (2 * r == m && q % 2 == 1) {
        q + 1
    } else {
        q
    }
}

/// Spacing of the double-precision numbers around `n`: 1 below 2^53, and
/// doubling with each further binary digit.
pub open spec fn double_spacing(n: nat) -> nat
    decreases n,
{
    if n < 0x20_0000_0000_0000 {
        1
    } else {
        2 * double_spacing(n / 2)
    }
}

/// The value of `n as f64`: `n` rounded to the nearest double, ties to even.
pub open spec fn nearest_double(n: nat) -> nat {
    div_round_even(n, double_spacing(n)) * double_spacing(n)
}

/// Tenths of `n as f64 / unit`, as `{:.1}` rounds them (ties to even).
pub open spec fn tenths(n: nat, unit: nat) -> nat {
    div_round_even(10 * nearest_double(n), unit)
}

/// A count of tenths written with one decimal, such as `"1.5"`.
pub open spec fn one_decimal(t: nat) -> Seq<char> {
    decimal(t / 10).push('.').push(digit_char(t % 10, false))
}

pub const KIB: u64 = 1024;
pub const MIB: u64 = 1_048_576;
pub const GIB: u64 = 1_073_741_824;

/// The size rendering of the status bar: one decimal and a unit from KB up,
/// plain bytes below.
pub open spec fn size_text(bytes: nat) -> Seq<char> {
    if bytes >= GIB {
        one_decimal(tenths(bytes, GIB as nat)) + " GB"@
    } else if bytes >= MIB {
        one_decimal(tenths(bytes, MIB as nat)) + " MB"@
    } else if bytes >= KIB {
        one_decimal(tenths(bytes, KIB as nat)) + " KB"@
    } else {
        decimal(bytes) + " B"@
    }
}

/// The offset rendering of axis labels and tooltips: one decimal and a unit
/// from KB up, `0x` and upper-case hex below. `sep` goes between number and
/// unit.
pub open spec fn offset_text(bytes: nat, sep: Seq<char>) -> Seq<char> {
    if bytes >= GIB {
        one_decimal(tenths(bytes, GIB as nat)) + sep + "GB"@
    } else if bytes >= MIB {
        one_decimal(tenths(bytes, MIB as nat)) + sep + "MB"@
    } else if bytes >= KIB {
        one_decimal(tenths(bytes, KIB as nat)) + sep + "KB"@
    } else {
        "0x"@ + hex_upper(bytes)
    }
}

proof fn lemma_spacing_bound(n: nat)
    requires
        n <= u64::MAX,
    ensures
        1 <= double_spacing(n) <= 2048,
{
    assert(pow2(11) == 2048) by {
        reveal_with_fuel(pow2, 12);
    }
    lemma_spacing_pow(n, 11);
    lemma_spacing_pos(n);
}

proof fn lemma_spacing_pos(n: nat)
    ensures
        1 <= double_spacing(n),
    decreases n,
{
    if n >= 0x20_0000_0000_0000 {
        lemma_spacing_pos(n / 2);
    }
}

spec fn pow2(k: nat) -> nat
    decreases k,
{
    if k == 0 {
        1
    } else {
        2 * pow2((k - 1) as nat)
    }
}

proof fn lemma_spacing_pow(n: nat, k: nat)
    requires
        n < 0x20_0000_0000_0000 * pow2(k),
    ensures
        double_spacing(n) <= pow2(k),
    decreases k,
{
    if n >= 0x20_0000_0000_0000 {
        if k == 0 {
            assert(false);
        } else {
            assert(n / 2 < 0x20_0000_0000_0000 * pow2((k - 1) as nat));
            lemma_spacing_pow(n / 2, (k - 1) as nat);
        }
    } else {
        lemma_pow2_pos(k);
    }
}

proof fn lemma_pow2_pos(k: nat)
    ensures
        pow2(k) >= 1,
    decreases k,
{
    if k > 0 {
        lemma_pow2_pos((k - 1) as nat);
    }
}

/// `a / m` rounded to the nearest integer, ties to the even one.
fn div_round_even_u128(a: u128, m: u128) -> (q: u128)
    requires
        0 < m <= 0x1_0000_0000_0000_0000,
        a <= 0x10_0000_0000_0000_0000_0000,
    ensures
        q == div_round_even(a as nat, m as nat),
        q <= a / m + 1,
{
    let q = a / m;
    let r = a % m;
    if 2 * r > m || (2 * r == m && q % 2 == 1) {
        q + 1
    } else {
        q
    }
}

/// The value of `n as f64`, as an integer.
fn nearest_double_of(n: u64) -> (f: u128)
    ensures
        f == nearest_double(n as nat),
        f <= 0x1_0000_0000_0000_0800,
{
    let mut m: u128 = 1;
    let mut t: u64 = n;
    proof {
        lemma_spacing_bound(n as nat);
    }
    while t >= 0x20_0000_0000_0000
        invariant
            double_spacing(n as nat) == m * double_spacing(t as nat),
            double_spacing(n as nat) <= 2048,
            1 <= m <= 2048,
        decreases t,
    {
        proof {
            lemma_spacing_pos((t / 2) as nat);
            assert(m * 2 * double_spacing((t / 2) as nat) == m * (2 * double_spacing((t / 2) as nat)))
                by (nonlinear_arith);
            assert(m * 2 <= 2048) by (nonlinear_arith)
                requires
                    m * 2 * double_spacing((t / 2) as nat) <= 2048,
                    double_spacing((t / 2) as nat) >= 1,
            ;
        }
        t = t / 2;
        m = m * 2;
    }
    assert(double_spacing(t as nat) == 1);
    assert(double_spacing(n as nat) == m) by (nonlinear_arith)
        requires
            double_spacing(n as nat) == m * double_spacing(t as nat),
            double_spacing(t as nat) == 1,
    ;
    let q = div_round_even_u128(n as u128, m);
    assert(q * m <= 0x1_0000_0000_0000_0800) by (nonlinear_arith)
        requires
            q <= (n as u128) / m + 1,
            1 <= m <= 2048,
            n <= 0xffff_ffff_ffff_ffffu64,
    ;
    q * m
}

/// Appends `n as f64 / unit` with one decimal, as `{:.1}` prints it.
fn push_tenths(s: &mut String, n: u64, unit: u64)
    requires
        unit >= 1024,
    ensures
        final(s)@ == old(s)@ + one_decimal(tenths(n as nat, unit as nat)),
{
    let f = nearest_double_of(n);
    let t = div_round_even_u128(10 * f, unit as u128);
    assert(t / 10 <= 0xffff_ffff_ffff_ffff) by (nonlinear_arith)
        requires
            t <= (10 * f) / (unit as int) + 1,
            f <= 0x1_0000_0000_0000_0800,
            unit >= 1024,
    ;
    push_digits(s, (t / 10) as u64, 10, false);
    push_char(s, '.');
    push_char(s, digit((t % 10) as u64, false));
    assert(s@ =~= old(s)@ + one_decimal(tenths(n as nat, unit as nat)));
}

/// Human-readable size for the status bar: `"1.5 GB"`, `"12.0 KB"`, `"512 B"`.
pub fn format_size(bytes: u64) -> (r: String)
    ensures
        r@ == size_text(bytes as nat),
{
    let mut s = String::new();
    if bytes >= GIB {
        push_tenths(&mut s, bytes, GIB);
        push_str(&mut s, " GB");
    } else if bytes >= MIB {
        push_tenths(&mut s, bytes, MIB);
        push_str(&mut s, " MB");
    } else if bytes >= KIB {
        push_tenths(&mut s, bytes, KIB);
        push_str(&mut s, " KB");
    } else {
        push_digits(&mut s, bytes, 10, false);
        push_str(&mut s, " B");
    }
    s
}

fn push_offset(s: &mut String, bytes: u64, sep: &str)
    ensures
        final(s)@ == old(s)@ + offset_text(bytes as nat, sep@),
{
    let ghost start = s@;
    if bytes >= GIB {
        push_tenths(s, bytes, GIB);
        push_str(s, sep);
        push_str(s, "GB");
    } else if bytes >= MIB {
        push_tenths(s, bytes, MIB);
        push_str(s, sep);
        push_str(s, "MB");
    } else if bytes >= KIB {
        push_tenths(s, bytes, KIB);
        push_str(s, sep);
        push_str(s, "KB");
    } else {
        push_str(s, "0x");
        push_digits(s, bytes, 16, true);
    }
    assert(s@ =~= start + offset_text(bytes as nat, sep@));
}

/// Offset label of plot tooltips and axes: `"1.5 GB"`, `"3.0 KB"`, `"0x1F0"`.
pub fn format_offset_human(bytes: u64) -> (r: String)
    ensures
        r@ == offset_text(bytes as nat, " "@),
{
    let mut s = String::new();
    push_offset(&mut s, bytes, " ");
    s
}

/// Offset label of exported images, with no space before the unit:
/// `"1.5GB"`, `"3.0KB"`, `"0x1F0"`.
pub fn format_offset_compact(bytes: u64) -> (r: String)
    ensures
        r@ == offset_text(bytes as nat, ""@),
{
    let mut s = String::new();
    push_offset(&mut s, bytes, "");
    s
}

// ---------------------------------------------------------------------
// Laws
// ---------------------------------------------------------------------

/// An offset shown as `0x` and upper-case hex (the status bar's cursor, the
/// hex view's rows), or in decimal, is read back by the "go to offset"
/// dialog as the same offset.
pub proof fn lemma_shown_offsets_read_back(n: u64)
    ensures
        offset_value("0x"@ + hex_upper(n as nat)) == Some(n as nat),
        offset_value(decimal(n as nat)) == Some(n as nat),
{
    let h = hex_upper(n as nat);
    let d = decimal(n as nat);
    lemma_digits_read_back(n as nat, 16, true);
    lemma_digits_read_back(n as nat, 10, false);
    lemma_digits_nonempty(n as nat, 16, true);
    lemma_digits_nonempty(n as nat, 10, false);
    lemma_parse_rendered(n as nat, 16, true, u64::MAX as nat);
    lemma_parse_rendered(n as nat, 10, false, u64::MAX as nat);
    let s = "0x"@ + h;
    reveal_strlit("0x");
    assert(s[0] == '0');
    assert(!is_unicode_whitespace(s.last())) by {
        assert(s.last() == h[h.len() - 1]);
    }
    lemma_trimmed_unchanged(s);
    assert(s.skip(2) =~= h);
    assert(!is_unicode_whitespace(d[0]));
    assert(!is_unicode_whitespace(d.last()));
    lemma_trimmed_unchanged(d);
    assert(d.len() >= 2 ==> d[1] != 'x' && d[1] != 'X');
}

} // verus!
