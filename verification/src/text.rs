//! Character-level building blocks: digit rendering, number parsing in the
//! manner of `from_str_radix`, and Unicode whitespace trimming.

use vstd::prelude::*;

verus! {

// ---------------------------------------------------------------------
// Rendering numbers
// ---------------------------------------------------------------------

/// The digit character for a value below sixteen.
pub open spec fn digit_char(d: nat, upper: bool) -> char {
    if d < 10 {
        ((48 + d) as u32) as char
    } else if upper {
        ((55 + d) as u32) as char
    } else {
        ((87 + d) as u32) as char
    }
}

/// `n` written in `base` (2 to 16) without leading zeros; zero is `"0"`.
pub open spec fn digits(n: nat, base: nat, upper: bool) -> Seq<char>
    decreases n,
{
    if base < 2 || n < base {
        seq![digit_char(n, upper)]
    } else {
        proof {
            assert(n / base < n) by (nonlinear_arith)
                requires
                    base >= 2,
                    n >= base,
            ;
        }
        digits(n / base, base, upper).push(digit_char(n % base, upper))
    }
}

/// `s` preceded by as many `'0'` as it takes to reach `width` characters.
pub open spec fn zero_padded(s: Seq<char>, width: nat) -> Seq<char> {
    if s.len() < width {
        Seq::new((width - s.len()) as nat, |i: int| '0') + s
    } else {
        s
    }
}

/// Two upper-case hex digits of a byte, as `{:02X}` prints it.
pub open spec fn hex_pair(b: u8) -> Seq<char> {
    seq![digit_char((b / 16) as nat, true), digit_char((b % 16) as nat, true)]
}

/// Two lower-case hex digits of a byte, as `{:02x}` prints it.
pub open spec fn hex_pair_lower(b: u8) -> Seq<char> {
    seq![digit_char((b / 16) as nat, false), digit_char((b % 16) as nat, false)]
}

/// Decimal rendering, as `{}` prints an unsigned integer.
pub open spec fn decimal(n: nat) -> Seq<char> {
    digits(n, 10, false)
}

/// Upper-case hexadecimal rendering, as `{:X}` prints an unsigned integer.
pub open spec fn hex_upper(n: nat) -> Seq<char> {
    digits(n, 16, true)
}

/// A rendered number has at least one digit.
pub proof fn lemma_digits_nonempty(n: nat, base: nat, upper: bool)
    ensures
        digits(n, base, upper).len() >= 1,
    decreases n,
{
    if base >= 2 && n >= base {
        assert(n / base < n) by (nonlinear_arith)
            requires
                base >= 2,
                n >= base,
        ;
        lemma_digits_nonempty(n / base, base, upper);
    }
}

/// Appends one character to a string.
#[verifier::external_body]
pub(crate) fn push_char(s: &mut String, c: char)
    ensures
        final(s)@ == old(s)@.push(c),
{
    s.push(c);
}

/// Appends a string slice to a string.
pub(crate) fn push_str(s: &mut String, t: &str)
    ensures
        final(s)@ == old(s)@ + t@,
{
    s.append(t);
}

/// The digit character for a value below sixteen.
pub fn digit(d: u64, upper: bool) -> (c: char)
    requires
        d < 16,
    ensures
        c == digit_char(d as nat, upper),
{
    let b = d as u8;
    if b < 10 {
        (b + 48) as char
    } else if upper {
        (b + 55) as char
    } else {
        (b + 87) as char
    }
}

/// Appends `n` in `base` without leading zeros.
pub fn push_digits(s: &mut String, n: u64, base: u64, upper: bool)
    requires
        2 <= base <= 16,
    ensures
        final(s)@ == old(s)@ + digits(n as nat, base as nat, upper),
    decreases n,
{
    if n >= base {
        assert(n / base < n) by (nonlinear_arith)
            requires
                base >= 2,
                n >= base,
        ;
        push_digits(s, n / base, base, upper);
        push_char(s, digit(n % base, upper));
        assert(s@ =~= old(s)@ + digits(n as nat, base as nat, upper));
    } else {
        push_char(s, digit(n, upper));
        assert(s@ =~= old(s)@ + digits(n as nat, base as nat, upper));
    }
}

/// Number of digits of `n` in `base`.
pub fn digit_count(n: u64, base: u64) -> (k: usize)
    requires
        2 <= base <= 16,
    ensures
        k == digits(n as nat, base as nat, true).len(),
    decreases n,
{
    if n >= base {
        assert(n / base < n) by (nonlinear_arith)
            requires
                base >= 2,
                n >= base,
        ;
        let k = digit_count(n / base, base);
        proof {
            lemma_digits_len_bound((n / base) as nat, base as nat);
        }
        k + 1
    } else {
        1
    }
}

spec fn two_pow(k: nat) -> nat
    decreases k,
{
    if k == 0 {
        1
    } else {
        2 * two_pow((k - 1) as nat)
    }
}

proof fn lemma_digits_len_pow(n: nat, base: nat, k: nat)
    requires
        2 <= base,
        1 <= k,
        n < two_pow(k),
    ensures
        digits(n, base, true).len() <= k,
    decreases k,
{
    if n >= base {
        assert(n / base < n) by (nonlinear_arith)
            requires
                base >= 2,
                n >= base,
        ;
        assert(n / base <= n / 2) by (nonlinear_arith)
            requires
                base >= 2,
        ;
        assert(k >= 2) by {
            if k == 1 {
                assert(two_pow(1) == 2) by {
                    reveal_with_fuel(two_pow, 2);
                }
            }
        }
        assert(n / 2 < two_pow((k - 1) as nat));
        lemma_digits_len_pow(n / base, base, (k - 1) as nat);
    }
}

/// Digit strings of a 64-bit number have at most 64 characters.
pub proof fn lemma_digits_len_bound(n: nat, base: nat)
    requires
        2 <= base,
        n <= u64::MAX,
    ensures
        digits(n, base, true).len() <= 64,
{
    assert(two_pow(64) == 0x1_0000_0000_0000_0000) by {
        reveal_with_fuel(two_pow, 65);
    }
    lemma_digits_len_pow(n, base, 64);
}

/// Appends `n` in `base`, left-padded with zeros to `width` characters.
pub fn push_padded(s: &mut String, n: u64, base: u64, upper: bool, width: usize)
    requires
        2 <= base <= 16,
    ensures
        final(s)@ == old(s)@ + zero_padded(digits(n as nat, base as nat, upper), width as nat),
{
    let k = digit_count(n, base);
    proof {
        lemma_digits_len_upper(n as nat, base as nat, upper);
    }
    let ghost start = s@;
    if k < width {
        let mut i: usize = k;
        while i < width
            invariant
                k <= i <= width,
                s@ =~= start + Seq::new((i - k) as nat, |j: int| '0'),
            decreases width - i,
        {
            push_char(s, '0');
            i = i + 1;
        }
    }
    push_digits(s, n, base, upper);
    assert(s@ =~= start + zero_padded(digits(n as nat, base as nat, upper), width as nat));
}

proof fn lemma_digits_len_upper(n: nat, base: nat, upper: bool)
    ensures
        digits(n, base, upper).len() == digits(n, base, true).len(),
    decreases n,
{
    if base >= 2 && n >= base {
        assert(n / base < n) by (nonlinear_arith)
            requires
                base >= 2,
                n >= base,
        ;
        lemma_digits_len_upper(n / base, base, upper);
    }
}

// ---------------------------------------------------------------------
// Reading strings
// ---------------------------------------------------------------------

/// The characters of a string slice, in order.
pub fn chars_of(s: &str) -> (v: Vec<char>)
    ensures
        v@ == s@,
{
    let mut v: Vec<char> = Vec::new();
    let n = s.unicode_len();
    let mut i: usize = 0;
    while i < n
        invariant
            i <= n,
            n == s@.len(),
            v@ == s@.take(i as int),
        decreases n - i,
    {
        v.push(s.get_char(i));
        i = i + 1;
        assert(v@ =~= s@.take(i as int));
    }
    assert(s@.take(n as int) =~= s@);
    v
}

/// Characters with the Unicode `White_Space` property, the set that
/// `char::is_whitespace` and `str::trim` use.
pub open spec fn is_unicode_whitespace(c: char) -> bool {
    let u = c as u32;
    ||| 0x09 <= u <= 0x0D
    ||| u == 0x20
    ||| u == 0x85
    ||| u == 0xA0
    ||| u == 0x1680
    ||| 0x2000 <= u <= 0x200A
    ||| u == 0x2028
    ||| u == 0x2029
    ||| u == 0x202F
    ||| u == 0x205F
    ||| u == 0x3000
}

/// Number of whitespace characters at the start of `s`.
pub open spec fn leading_ws(s: Seq<char>) -> nat
    decreases s.len(),
{
    if s.len() > 0 && is_unicode_whitespace(s[0]) {
        1 + leading_ws(s.drop_first())
    } else {
        0
    }
}

/// Number of whitespace characters at the end of `s`.
pub open spec fn trailing_ws(s: Seq<char>) -> nat
    decreases s.len(),
{
    if s.len() > 0 && is_unicode_whitespace(s.last()) {
        1 + trailing_ws(s.drop_last())
    } else {
        0
    }
}

/// `s` without leading and trailing whitespace, as `str::trim` returns it.
pub open spec fn trimmed(s: Seq<char>) -> Seq<char> {
    let t = s.skip(leading_ws(s) as int);
    t.take(t.len() - trailing_ws(t))
}

/// The leading whitespace is no longer than the text.
pub proof fn lemma_leading_ws_bound(s: Seq<char>)
    ensures
        leading_ws(s) <= s.len(),
    decreases s.len(),
{
    if s.len() > 0 && is_unicode_whitespace(s[0]) {
        lemma_leading_ws_bound(s.drop_first());
    }
}

/// The trailing whitespace is no longer than the text.
pub proof fn lemma_trailing_ws_bound(s: Seq<char>)
    ensures
        trailing_ws(s) <= s.len(),
    decreases s.len(),
{
    if s.len() > 0 && is_unicode_whitespace(s.last()) {
        lemma_trailing_ws_bound(s.drop_last());
    }
}

/// Whether a character is Unicode whitespace.
pub fn is_whitespace(c: char) -> (b: bool)
    ensures
        b == is_unicode_whitespace(c),
{
    let u = c as u32;
    (0x09 <= u && u <= 0x0D) || u == 0x20 || u == 0x85 || u == 0xA0 || u == 0x1680
        || (0x2000 <= u && u <= 0x200A) || u == 0x2028 || u == 0x2029 || u == 0x202F
        || u == 0x205F || u == 0x3000
}

/// The bounds `(start, end)` of the trimmed part of `v`.
pub fn trim_bounds(v: &Vec<char>) -> (r: (usize, usize))
    ensures
        r.0 <= r.1 <= v.len(),
        v@.subrange(r.0 as int, r.1 as int) == trimmed(v@),
{
    let n = v.len();
    let mut i: usize = 0;
    assert(v@.skip(0) =~= v@);
    while i < n && is_whitespace(v[i])
        invariant
            i <= n,
            n == v.len(),
            leading_ws(v@) == i + leading_ws(v@.skip(i as int)),
        decreases n - i,
    {
        assert(v@.skip(i as int).drop_first() =~= v@.skip(i + 1));
        i = i + 1;
    }
    assert(leading_ws(v@.skip(i as int)) == 0);
    let ghost t = v@.skip(i as int);
    let mut j: usize = n;
    assert(t.take(n - i) =~= t);
    while j > i && is_whitespace(v[j - 1])
        invariant
            i <= j <= n,
            n == v.len(),
            t == v@.skip(i as int),
            trailing_ws(t) == (n - j) + trailing_ws(t.take(j - i)),
        decreases j,
    {
        assert(t.take(j - i).drop_last() =~= t.take(j - 1 - i));
        assert(t.take(j - i).last() == v@[j - 1]);
        j = j - 1;
    }
    assert(trailing_ws(t.take(j - i)) == 0) by {
        if j > i {
            assert(t.take(j - i).last() == v@[j - 1]);
        }
    }
    assert(v@.subrange(i as int, j as int) =~= t.take(t.len() - trailing_ws(t)));
    (i, j)
}

// ---------------------------------------------------------------------
// Parsing unsigned integers
// ---------------------------------------------------------------------

/// The value of a digit in `radix` (10 or 16), as `char::to_digit` gives it.
pub open spec fn digit_value(c: char, radix: nat) -> Option<nat> {
    let u = c as u32;
    if 48 <= u <= 57 && (u - 48) < radix {
        Some((u - 48) as nat)
    } else if radix > 10 && 97 <= u <= 102 && (u - 87) < radix {
        Some((u - 87) as nat)
    } else if radix > 10 && 65 <= u <= 70 && (u - 55) < radix {
        Some((u - 55) as nat)
    } else {
        None
    }
}

/// Every character of `s` is a digit in `radix`.
pub open spec fn all_digits(s: Seq<char>, radix: nat) -> bool {
    forall|i: int| 0 <= i < s.len() ==> (#[trigger] digit_value(s[i], radix)) is Some
}

/// The number that a string of digits denotes.
pub open spec fn digits_value(s: Seq<char>, radix: nat) -> nat
    decreases s.len(),
{
    if s.len() == 0 {
        0
    } else {
        digits_value(s.drop_last(), radix) * radix + digit_value(s.last(), radix).unwrap_or(0)
    }
}

/// What `from_str_radix` returns for an unsigned type whose largest value is
/// `max`: an optional single `'+'`, then one or more digits, and a value
/// that fits.
pub open spec fn parse_unsigned(s: Seq<char>, radix: nat, max: nat) -> Option<nat> {
    if s.len() == 0 || (s.len() == 1 && (s[0] == '+' || s[0] == '-')) {
        None
    } else {
        let d = if s[0] == '+' { s.drop_first() } else { s };
        if all_digits(d, radix) && digits_value(d, radix) <= max {
            Some(digits_value(d, radix))
        } else {
            None
        }
    }
}

proof fn lemma_digits_value_prefix(s: Seq<char>, radix: nat, i: int)
    requires
        0 <= i <= s.len(),
        1 <= radix,
    ensures
        digits_value(s.take(i), radix) <= digits_value(s, radix),
    decreases s.len(),
{
    if i < s.len() {
        assert(s.drop_last().take(i) =~= s.take(i));
        lemma_digits_value_prefix(s.drop_last(), radix, i);
        let v = digits_value(s.drop_last(), radix);
        assert(v * radix >= v) by (nonlinear_arith)
            requires
                radix >= 1,
        ;
    } else {
        assert(s.take(i) =~= s);
    }
}

/// The value of a digit character in `radix`, if it is one.
pub fn digit_of(c: char, radix: u32) -> (r: Option<u32>)
    requires
        radix == 10 || radix == 16,
    ensures
        r is Some <==> digit_value(c, radix as nat) is Some,
        r matches Some(d) ==> d == digit_value(c, radix as nat).unwrap() && d < radix,
{
    let u = c as u32;
    if 48 <= u && u <= 57 && (u - 48) < radix {
        Some(u - 48)
    } else if radix > 10 && 97 <= u && u <= 102 && (u - 87) < radix {
        Some(u - 87)
    } else if radix > 10 && 65 <= u && u <= 70 && (u - 55) < radix {
        Some(u - 55)
    } else {
        None
    }
}

/// Parses `v[start..end]` as `from_str_radix` does for an unsigned type whose
/// largest value is `max`.
pub fn parse_unsigned_in(v: &Vec<char>, start: usize, end: usize, radix: u32, max: u64) -> (r:
    Option<u64>)
    requires
        start <= end <= v.len(),
        radix == 10 || radix == 16,
    ensures
        r matches Some(x) ==> parse_unsigned(v@.subrange(start as int, end as int), radix as nat,
            max as nat) == Some(x as nat),
        r is None ==> parse_unsigned(v@.subrange(start as int, end as int), radix as nat,
            max as nat) is None,
{
    let ghost s = v@.subrange(start as int, end as int);
    if start == end {
        return None;
    }
    if end - start == 1 && (v[start] == '+' || v[start] == '-') {
        return None;
    }
    let first = if v[start] == '+' {
        start + 1
    } else {
        start
    };
    let ghost d = if s[0] == '+' {
        s.drop_first()
    } else {
        s
    };
    assert(d =~= v@.subrange(first as int, end as int));
    let mut acc: u128 = 0;
    let mut i: usize = first;
    while i < end
        invariant
            start <= first <= i <= end <= v.len(),
            d == v@.subrange(first as int, end as int),
            s == v@.subrange(start as int, end as int),
            s.len() > 0,
            !(s.len() == 1 && (s[0] == '+' || s[0] == '-')),
            d == (if s[0] == '+' { s.drop_first() } else { s }),
            radix == 10 || radix == 16,
            all_digits(d.take(i - first), radix as nat),
            acc == digits_value(d.take(i - first), radix as nat),
            acc <= max,
        decreases end - i,
    {
        let dv = match digit_of(v[i], radix) {
            Some(x) => x,
            None => {
                assert(d[i - first] == v@[i as int]);
                assert(digit_value(d[(i - first) as int], radix as nat) is None);
                return None;
            },
        };
        assert(acc * (radix as u128) <= 0xffff_ffff_ffff_ffff * 16) by (nonlinear_arith)
            requires
                acc <= 0xffff_ffff_ffff_ffffu128,
                radix <= 16,
        ;
        let next = acc * (radix as u128) + (dv as u128);
        assert(d.take(i + 1 - first).drop_last() =~= d.take(i - first));
        assert(d.take(i + 1 - first).last() == v@[i as int]);
        if next > max as u128 {
            proof {
                if all_digits(d, radix as nat) {
                    lemma_digits_value_prefix(d, radix as nat, i + 1 - first);
                }
            }
            return None;
        }
        acc = next;
        i = i + 1;
    }
    assert(d.take(end - first) =~= d);
    Some(acc as u64)
}

/// Parses a whole character vector as `str::parse` does for an unsigned
/// type whose largest value is `max`.
pub fn parse_unsigned_all(v: &Vec<char>, radix: u32, max: u64) -> (r: Option<u64>)
    requires
        radix == 10 || radix == 16,
    ensures
        r matches Some(x) ==> parse_unsigned(v@, radix as nat, max as nat) == Some(x as nat),
        r is None ==> parse_unsigned(v@, radix as nat, max as nat) is None,
{
    assert(v@.subrange(0, v.len() as int) =~= v@);
    parse_unsigned_in(v, 0, v.len(), radix, max)
}

// ---------------------------------------------------------------------
// Rendering then reading
// ---------------------------------------------------------------------

proof fn lemma_digit_char_value(d: nat, base: nat, upper: bool)
    requires
        d < base,
        base == 10 || base == 16,
    ensures
        digit_value(digit_char(d, upper), base) == Some(d),
        !is_unicode_whitespace(digit_char(d, upper)),
        digit_char(d, upper) != '+',
        digit_char(d, upper) != '-',
        digit_char(d, upper) != 'x',
        digit_char(d, upper) != 'X',
{
    let c = digit_char(d, upper);
    if d < 10 {
        assert((((48 + d) as u32) as char) as u32 == 48 + d);
    } else if upper {
        assert((((55 + d) as u32) as char) as u32 == 55 + d);
    } else {
        assert((((87 + d) as u32) as char) as u32 == 87 + d);
    }
}

/// Every character of a rendered number is a digit of its base, none is
/// whitespace, and the digits denote the number.
pub proof fn lemma_digits_read_back(n: nat, base: nat, upper: bool)
    requires
        base == 10 || base == 16,
    ensures
        all_digits(digits(n, base, upper), base),
        digits_value(digits(n, base, upper), base) == n,
        forall|i: int|
            0 <= i < digits(n, base, upper).len() ==> {
                &&& !is_unicode_whitespace(#[trigger] digits(n, base, upper)[i])
                &&& digits(n, base, upper)[i] != '+'
                &&& digits(n, base, upper)[i] != 'x'
                &&& digits(n, base, upper)[i] != 'X'
            },
    decreases n,
{
    let ds = digits(n, base, upper);
    if n < base {
        lemma_digit_char_value(n, base, upper);
        assert(ds.drop_last() =~= Seq::<char>::empty());
        assert(digits_value(ds.drop_last(), base) == 0);
        assert(0 * base == 0);
        assert(digits_value(ds, base) == n);
    } else {
        assert(n / base < n) by (nonlinear_arith)
            requires
                base >= 2,
                n >= base,
        ;
        lemma_digits_read_back(n / base, base, upper);
        lemma_digit_char_value(n % base, base, upper);
        let prefix = digits(n / base, base, upper);
        assert(ds.drop_last() =~= prefix);
        assert(n == (n / base) * base + n % base) by (nonlinear_arith)
            requires
                base >= 2,
        ;
        assert(ds.last() == digit_char(n % base, upper));
        assert(digits_value(ds, base) == digits_value(prefix, base) * base + (n % base));
        assert forall|i: int| 0 <= i < ds.len() implies (#[trigger] digit_value(ds[i], base)) is Some by {
            if i < prefix.len() {
                assert(ds[i] == prefix[i]);
            }
        }
        assert forall|i: int|
            0 <= i < ds.len() implies {
                &&& !is_unicode_whitespace(#[trigger] ds[i])
                &&& ds[i] != '+'
                &&& ds[i] != 'x'
                &&& ds[i] != 'X'
            } by {
            if i < prefix.len() {
                assert(ds[i] == prefix[i]);
            }
        }
    }
}

/// A text with no whitespace at either end is its own trimmed form.
pub proof fn lemma_trimmed_unchanged(s: Seq<char>)
    requires
        s.len() > 0,
        !is_unicode_whitespace(s[0]),
        !is_unicode_whitespace(s.last()),
    ensures
        trimmed(s) == s,
{
    assert(leading_ws(s) == 0);
    assert(s.skip(0) =~= s);
    assert(trailing_ws(s) == 0);
    assert(s.take(s.len() as int) =~= s);
}

/// A number rendered in decimal or hexadecimal reads back as itself.
pub proof fn lemma_parse_rendered(n: nat, base: nat, upper: bool, max: nat)
    requires
        base == 10 || base == 16,
        n <= max,
    ensures
        parse_unsigned(digits(n, base, upper), base, max) == Some(n),
{
    lemma_digits_read_back(n, base, upper);
    lemma_digits_nonempty(n, base, upper);
    let ds = digits(n, base, upper);
    assert(ds[0] != '+');
    assert(ds[0] != '-') by {
        assert(digit_value(ds[0], base) is Some);
    }
}

} // verus!
