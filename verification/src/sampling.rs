//! How a file is sampled: the block and step sizes used for large files,
//! where the blocks start, and the byte statistics of each block.

use vstd::prelude::*;

verus! {

/// Most points that a graph is computed for before the step is enlarged.
pub const MAX_POINTS: usize = 4096;

/// The block and step sizes offered in the options panel, smallest first.
pub open spec fn standard_sizes() -> Seq<usize> {
    seq![64, 128, 256, 512, 1024, 2048, 4096, 8192]
}

/// The standard sizes as an array.
pub fn standard_size_list() -> (a: [usize; 8])
    ensures
        a@ == standard_sizes(),
{
    let a: [usize; 8] = [64, 128, 256, 512, 1024, 2048, 4096, 8192];
    assert(a@ =~= standard_sizes());
    a
}

/// Whether `v` is one of the standard sizes.
pub fn is_standard_size(v: usize) -> (b: bool)
    ensures
        b == standard_sizes().contains(v),
{
    let a = standard_size_list();
    let mut i: usize = 0;
    while i < 8
        invariant
            i <= 8,
            a@ == standard_sizes(),
            forall|j: int| 0 <= j < i ==> a@[j] != v,
        decreases 8 - i,
    {
        if a[i] == v {
            assert(standard_sizes()[i as int] == v);
            return true;
        }
        i = i + 1;
    }
    false
}

/// Index of the first standard size, from index `i` on, that is at least
/// `step` and leaves at most `MAX_POINTS` points; `8` when there is none.
pub open spec fn first_fitting_standard(file_size: nat, step: nat, i: nat) -> nat
    decreases 8 - i,
{
    if i >= 8 {
        8
    } else if standard_sizes()[i as int] >= step && file_size / (standard_sizes()[i as int] as nat)
        <= MAX_POINTS {
        i
    } else {
        first_fitting_standard(file_size, step, i + 1)
    }
}

/// `a / b` rounded up.
pub open spec fn ceil_div(a: nat, b: nat) -> nat {
    ((a + b - 1) / (b as int)) as nat
}

/// The block size, step and "was adapted" flag that `auto_adapt` returns.
pub open spec fn adapted_sizes(file_size: nat, block_size: usize, step: usize) -> (usize, usize, bool) {
    let s1 = if step == 0 { 1nat } else { step as nat };
    let k = first_fitting_standard(file_size, step as nat, 0);
    if file_size / s1 <= MAX_POINTS {
        (block_size, step, false)
    } else if k < 8 {
        (block_size, standard_sizes()[k as int], true)
    } else {
        (block_size, ceil_div(file_size, MAX_POINTS as nat) as usize, true)
    }
}

/// Keeps the number of graph points of a large file at most `MAX_POINTS`:
/// when `file_size / step` is larger, the smallest standard step that is at
/// least `step` and brings it under the limit is taken, or else a step of
/// `file_size / MAX_POINTS` rounded up. The block size is kept, so that a
/// very large file is only sampled, not read whole.
pub fn auto_adapt(file_size: usize, block_size: usize, step: usize) -> (r: (usize, usize, bool))
    ensures
        r == adapted_sizes(file_size as nat, block_size, step),
{
    let s1 = if step == 0 {
        1
    } else {
        step
    };
    let num_points = file_size / s1;
    if num_points <= MAX_POINTS {
        return (block_size, step, false);
    }
    let sizes = standard_size_list();
    let mut i: usize = 0;
    while i < 8
        invariant
            i <= 8,
            sizes@ == standard_sizes(),
            file_size as nat / (if step == 0 { 1nat } else { step as nat }) > MAX_POINTS,
            first_fitting_standard(file_size as nat, step as nat, 0) == first_fitting_standard(
                file_size as nat,
                step as nat,
                i as nat,
            ),
        decreases 8 - i,
    {
        let s = sizes[i];
        if s >= step && file_size / s <= MAX_POINTS {
            return (block_size, s, true);
        }
        i = i + 1;
    }
    let new_step = file_size / MAX_POINTS + if file_size % MAX_POINTS != 0 {
        1
    } else {
        0
    };
    assert(new_step == ceil_div(file_size as nat, MAX_POINTS as nat));
    (block_size, new_step, true)
}

/// After adaptation a file never yields more than `MAX_POINTS` points,
/// the block size is kept, the step only grows, and nothing changes for a
/// file that is already within the limit.
pub proof fn lemma_adapted_within_limit(file_size: usize, block_size: usize, step: usize)
    ensures
        ({
            let (b, s, adapted) = adapted_sizes(file_size as nat, block_size, step);
            &&& b == block_size
            &&& adapted ==> s >= step && s >= 1 && file_size as nat / (s as nat) <= MAX_POINTS
            &&& !adapted ==> s == step
            &&& adapted <==> file_size as nat / (if step == 0 { 1nat } else { step as nat })
                > MAX_POINTS
        }),
{
    let s1 = if step == 0 { 1nat } else { step as nat };
    let k = first_fitting_standard(file_size as nat, step as nat, 0);
    lemma_first_fitting(file_size as nat, step as nat, 0);
    if file_size as nat / s1 > MAX_POINTS && k >= 8 {
        let c = ceil_div(file_size as nat, MAX_POINTS as nat);
        let f = file_size as nat;
        assert(c * 4096 >= f && c >= 1 && c <= f) by (nonlinear_arith)
            requires
                c == (f + 4095) / 4096,
                f > 4096,
        ;
        assert(f / c <= 4096) by (nonlinear_arith)
            requires
                c * 4096 >= f,
                c >= 1,
        ;
        assert(c >= s1) by (nonlinear_arith)
            requires
                f / s1 > 4096,
                s1 >= 1,
                c * 4096 >= f,
        ;
        assert(c <= usize::MAX);
    }
}

proof fn lemma_first_fitting(file_size: nat, step: nat, i: nat)
    requires
        i <= 8,
    ensures
        ({
            let k = first_fitting_standard(file_size, step, i);
            &&& i <= k <= 8
            &&& k < 8 ==> standard_sizes()[k as int] >= step && file_size / (standard_sizes()[
                k as int] as nat) <= MAX_POINTS
        }),
    decreases 8 - i,
{
    if i < 8 {
        lemma_first_fitting(file_size, step, i + 1);
    }
}

// ---------------------------------------------------------------------
// Blocks
// ---------------------------------------------------------------------

/// Number of block start offsets: every multiple of the step below
/// `len - (block_size - 1)` (both differences saturating at zero).
pub open spec fn block_count(len: nat, block_size: nat, step: nat) -> nat {
    let limit = if len + 1 >= block_size { (len + 1 - block_size) as nat } else { 0nat };
    let limit = if block_size == 0 { len } else { limit };
    let s = if step == 0 { 1nat } else { step };
    ceil_div(limit, s)
}

/// The `k`-th block start offset.
pub open spec fn block_offset(k: nat, step: nat) -> nat {
    k * (if step == 0 { 1nat } else { step })
}

/// The start offsets of the blocks that a file of `len` bytes is measured
/// in: `0, step, 2*step, ...` as long as a whole block of `block_size`
/// bytes fits from there (a step of 0 counts as 1).
pub fn block_offsets(len: usize, block_size: usize, step: usize) -> (v: Vec<usize>)
    ensures
        v.len() == block_count(len as nat, block_size as nat, step as nat),
        forall|k: int| 0 <= k < v.len() ==> v@[k] == block_offset(k as nat, step as nat),
        forall|k: int| 0 <= k < v.len() ==> v@[k] < len && v@[k] + block_size <= len || (
        block_size == 0 && v@[k] < len),
{
    let limit = len.saturating_sub(block_size.saturating_sub(1));
    let s = if step == 0 {
        1
    } else {
        step
    };
    let ghost count = block_count(len as nat, block_size as nat, step as nat);
    assert(count == ceil_div(limit as nat, s as nat));
    let mut v: Vec<usize> = Vec::new();
    let mut off: usize = 0;
    let mut k: usize = 0;
    proof {
        if limit > 0 {
            lemma_ceil_div_step(limit as nat, s as nat, 0);
        } else {
            assert(ceil_div(0, s as nat) == 0) by (nonlinear_arith)
                requires
                    s >= 1,
                    ceil_div(0, s as nat) == (s - 1) / (s as int),
            ;
        }
    }
    while off < limit
        invariant
            limit <= len,
            limit == len.saturating_sub(block_size.saturating_sub(1)),
            s >= 1,
            s == (if step == 0 { 1nat } else { step as nat }),
            off == k * s,
            k <= off || k == 0,
            v.len() == k,
            k <= count,
            count == ceil_div(limit as nat, s as nat),
            off < limit ==> k < count,
            off >= limit ==> k == count,
            forall|j: int| 0 <= j < k ==> v@[j] == block_offset(j as nat, step as nat),
            forall|j: int| 0 <= j < k ==> v@[j] < limit,
        decreases limit - off,
    {
        v.push(off);
        proof {
            assert((k + 1) * s == k * s + s) by (nonlinear_arith);
            assert(k <= k * s) by (nonlinear_arith)
                requires
                    s >= 1,
            ;
            lemma_ceil_div_step(limit as nat, s as nat, k as nat);
        }
        if limit - off <= s {
            k = k + 1;
            assert(k == count);
            off = limit;
            assert(v.len() == count);
            return v;
        }
        off = off + s;
        k = k + 1;
    }
    v
}

proof fn lemma_ceil_div_step(limit: nat, s: nat, k: nat)
    requires
        s >= 1,
        k * s < limit,
    ensures
        k < ceil_div(limit, s),
        (k + 1) * s >= limit ==> k + 1 == ceil_div(limit, s),
        (k + 1) * s < limit ==> k + 1 < ceil_div(limit, s),
{
    assert(k < ceil_div(limit, s)) by (nonlinear_arith)
        requires
            s >= 1,
            k * s < limit,
            ceil_div(limit, s) == (limit + s - 1) / (s as int),
    ;
    assert((k + 1) * s >= limit ==> k + 1 >= ceil_div(limit, s)) by (nonlinear_arith)
        requires
            s >= 1,
            ceil_div(limit, s) == (limit + s - 1) / (s as int),
    ;
    assert((k + 1) * s < limit ==> k + 1 < ceil_div(limit, s)) by (nonlinear_arith)
        requires
            s >= 1,
            ceil_div(limit, s) == (limit + s - 1) / (s as int),
    ;
}

/// The bytes `start..end` that the block at `offset` covers.
pub fn block_bounds(offset: usize, block_size: usize, len: usize) -> (r: (usize, usize))
    requires
        offset < len,
        offset + block_size <= len || block_size == 0,
    ensures
        r.0 == offset,
        r.1 == offset + block_size,
        r.0 <= r.1 <= len,
{
    (offset, offset + block_size)
}

// ---------------------------------------------------------------------
// Byte statistics
// ---------------------------------------------------------------------

/// How often `b` occurs in `s`.
pub open spec fn occurrences(s: Seq<u8>, b: u8) -> nat
    decreases s.len(),
{
    if s.len() == 0 {
        0
    } else {
        occurrences(s.drop_last(), b) + if s.last() == b { 1nat } else { 0nat }
    }
}

/// How many of the byte values below `k` occur in `s`.
pub open spec fn present_below(s: Seq<u8>, k: nat) -> nat
    decreases k,
{
    if k == 0 {
        0
    } else {
        present_below(s, (k - 1) as nat) + if occurrences(s, (k - 1) as u8) > 0 { 1nat } else { 0nat }
    }
}

/// Sum of the first `k` entries of a table of counts.
pub open spec fn sum_first(c: Seq<u32>, k: nat) -> nat
    decreases k,
{
    if k == 0 {
        0
    } else {
        sum_first(c, (k - 1) as nat) + c[k - 1] as nat
    }
}

/// No byte value occurs in `block` more often than a 32-bit count holds.
pub open spec fn counts_fit(block: Seq<u8>) -> bool {
    forall|b: u8| occurrences(block, b) <= u32::MAX
}

proof fn lemma_occurrences_prefix(s: Seq<u8>, i: int, b: u8)
    requires
        0 <= i <= s.len(),
    ensures
        occurrences(s.take(i), b) <= occurrences(s, b),
    decreases s.len(),
{
    if i < s.len() {
        assert(s.drop_last().take(i) =~= s.take(i));
        lemma_occurrences_prefix(s.drop_last(), i, b);
    } else {
        assert(s.take(i) =~= s);
    }
}

/// The histogram of a block: entry `b` is how often byte value `b` occurs.
pub fn byte_counts(block: &[u8]) -> (c: Vec<u32>)
    requires
        counts_fit(block@),
    ensures
        c.len() == 256,
        forall|b: int| 0 <= b < 256 ==> c@[b] == occurrences(block@, b as u8),
{
    let mut c: Vec<u32> = Vec::new();
    let mut b: usize = 0;
    while b < 256
        invariant
            b <= 256,
            c.len() == b,
            forall|j: int| 0 <= j < b ==> c@[j] == 0,
        decreases 256 - b,
    {
        c.push(0);
        b = b + 1;
    }
    let n = block.len();
    let mut i: usize = 0;
    while i < n
        invariant
            i <= n,
            n == block.len(),
            counts_fit(block@),
            c.len() == 256,
            forall|j: int| 0 <= j < 256 ==> c@[j] == occurrences(block@.take(i as int), j as u8),
        decreases n - i,
    {
        let x = block[i] as usize;
        proof {
            assert forall|j: int| 0 <= j < 256 implies #[trigger] occurrences(block@.take(i + 1), j as u8)
                == occurrences(block@.take(i as int), j as u8) + if block@[i as int] == j as u8 {
                1nat
            } else {
                0nat
            } by {
                assert(block@.take(i + 1).drop_last() =~= block@.take(i as int));
            }
        }
        proof {
            lemma_occurrences_prefix(block@, i + 1, x as u8);
            assert(occurrences(block@, x as u8) <= u32::MAX);
        }
        let old_count = c[x];
        c.set(x, old_count + 1);
        i = i + 1;
    }
    assert(block@.take(n as int) =~= block@);
    c
}

/// How many distinct byte values occur in a block.
pub fn distinct_bytes(block: &[u8]) -> (k: usize)
    ensures
        k == present_below(block@, 256),
        k <= 256,
{
    let mut seen: Vec<bool> = Vec::new();
    let mut b: usize = 0;
    while b < 256
        invariant
            b <= 256,
            seen.len() == b,
            forall|j: int| 0 <= j < b ==> !seen@[j],
        decreases 256 - b,
    {
        seen.push(false);
        b = b + 1;
    }
    let n = block.len();
    let mut i: usize = 0;
    while i < n
        invariant
            i <= n,
            n == block.len(),
            seen.len() == 256,
            forall|j: int| 0 <= j < 256 ==> seen@[j] == (occurrences(block@.take(i as int), j as u8) > 0),
        decreases n - i,
    {
        let x = block[i] as usize;
        proof {
            assert forall|j: int| 0 <= j < 256 implies #[trigger] occurrences(block@.take(i + 1), j as u8)
                == occurrences(block@.take(i as int), j as u8) + if block@[i as int] == j as u8 {
                1nat
            } else {
                0nat
            } by {
                assert(block@.take(i + 1).drop_last() =~= block@.take(i as int));
            }
        }
        seen.set(x, true);
        i = i + 1;
    }
    assert(block@.take(n as int) =~= block@);
    let mut k: usize = 0;
    let mut b: usize = 0;
    while b < 256
        invariant
            b <= 256,
            k <= b,
            seen.len() == 256,
            forall|j: int| 0 <= j < 256 ==> seen@[j] == (occurrences(block@, j as u8) > 0),
            k == present_below(block@, b as nat),
        decreases 256 - b,
    {
        if seen[b] {
            k = k + 1;
        }
        b = b + 1;
    }
    k
}

/// Whether every byte value occurs in `block` at most `u32::MAX` times, so
/// that `byte_counts` can count them.
pub fn counts_fit_in_u32(block: &[u8]) -> (ok: bool)
    ensures
        ok == counts_fit(block@),
{
    let mut c: Vec<u64> = Vec::new();
    let mut b: usize = 0;
    while b < 256
        invariant
            b <= 256,
            c.len() == b,
            forall|j: int| 0 <= j < b ==> c@[j] == 0,
        decreases 256 - b,
    {
        c.push(0);
        b = b + 1;
    }
    let n = block.len();
    let mut i: usize = 0;
    while i < n
        invariant
            i <= n,
            n == block.len(),
            c.len() == 256,
            forall|j: int| 0 <= j < 256 ==> c@[j] == occurrences(block@.take(i as int), j as u8),
            forall|j: int| 0 <= j < 256 ==> c@[j] <= i,
        decreases n - i,
    {
        let x = block[i] as usize;
        proof {
            assert forall|j: int| 0 <= j < 256 implies #[trigger] occurrences(block@.take(i + 1), j as u8)
                == occurrences(block@.take(i as int), j as u8) + if block@[i as int] == j as u8 {
                1nat
            } else {
                0nat
            } by {
                assert(block@.take(i + 1).drop_last() =~= block@.take(i as int));
            }
        }
        let old_count = c[x];
        c.set(x, old_count + 1);
        i = i + 1;
    }
    assert(block@.take(n as int) =~= block@);
    let mut b: usize = 0;
    while b < 256
        invariant
            b <= 256,
            c.len() == 256,
            forall|j: int| 0 <= j < 256 ==> c@[j] == occurrences(block@, j as u8),
            forall|j: int| 0 <= j < b ==> c@[j] <= u32::MAX,
        decreases 256 - b,
    {
        if c[b] > u32::MAX as u64 {
            assert(occurrences(block@, b as u8) > u32::MAX);
            return false;
        }
        b = b + 1;
    }
    assert forall|v: u8| occurrences(block@, v) <= u32::MAX by {
        assert(c@[v as int] == occurrences(block@, (v as int) as u8));
    }
    true
}

// ---------------------------------------------------------------------
// Measures
// ---------------------------------------------------------------------

/// What is computed for each block.
#[derive(Clone, Copy, PartialEq, Eq, Structural, Debug)]
pub enum Algorithm {
    Shannon,
    ChiSquared,
    ByteFrequency,
}

/// Every measure, in the order the options panel lists them.
pub const ALL_ALGORITHMS: [Algorithm; 3] = [
    Algorithm::Shannon,
    Algorithm::ChiSquared,
    Algorithm::ByteFrequency,
];

impl Algorithm {
    /// The name shown in the options panel and in captions.
    pub open spec fn label_text(self) -> Seq<char> {
        match self {
            Algorithm::Shannon => "Shannon Entropy"@,
            Algorithm::ChiSquared => "Chi-Squared"@,
            Algorithm::ByteFrequency => "Byte Frequency"@,
        }
    }

    /// The name shown in the options panel and in captions.
    pub fn label(&self) -> (s: &'static str)
        ensures
            s@ == self.label_text(),
    {
        match self {
            Algorithm::Shannon => "Shannon Entropy",
            Algorithm::ChiSquared => "Chi-Squared",
            Algorithm::ByteFrequency => "Byte Frequency",
        }
    }

    /// The label of the value axis.
    pub fn y_label(&self) -> (s: &'static str)
        ensures
            s@ == match *self {
                Algorithm::Shannon => "Entropy (bits/byte)"@,
                Algorithm::ChiSquared => "Chi-Squared (normalized)"@,
                Algorithm::ByteFrequency => "Unique Bytes (ratio)"@,
            },
    {
        match self {
            Algorithm::Shannon => "Entropy (bits/byte)",
            Algorithm::ChiSquared => "Chi-Squared (normalized)",
            Algorithm::ByteFrequency => "Unique Bytes (ratio)",
        }
    }
}

// ---------------------------------------------------------------------
// Laws
// ---------------------------------------------------------------------

/// Occurrences of the byte values below `k`, added up.
pub open spec fn occurrences_below(s: Seq<u8>, k: nat) -> nat
    decreases k,
{
    if k == 0 {
        0
    } else {
        occurrences_below(s, (k - 1) as nat) + occurrences(s, (k - 1) as u8)
    }
}

proof fn lemma_occurrences_below_step(s: Seq<u8>, k: nat)
    requires
        s.len() > 0,
        k <= 256,
    ensures
        occurrences_below(s, k) == occurrences_below(s.drop_last(), k) + if (s.last() as nat) < k {
            1nat
        } else {
            0nat
        },
    decreases k,
{
    if k > 0 {
        lemma_occurrences_below_step(s, (k - 1) as nat);
        assert(((k - 1) as u8) as nat == k - 1);
    }
}

proof fn lemma_occurrences_total(s: Seq<u8>)
    ensures
        occurrences_below(s, 256) == s.len(),
    decreases s.len(),
{
    if s.len() == 0 {
        lemma_occurrences_below_empty(s, 256);
    } else {
        lemma_occurrences_total(s.drop_last());
        lemma_occurrences_below_step(s, 256);
    }
}

proof fn lemma_occurrences_below_empty(s: Seq<u8>, k: nat)
    requires
        s.len() == 0,
    ensures
        occurrences_below(s, k) == 0,
    decreases k,
{
    if k > 0 {
        lemma_occurrences_below_empty(s, (k - 1) as nat);
    }
}

proof fn lemma_present_le_occurrences(s: Seq<u8>, k: nat)
    ensures
        present_below(s, k) <= occurrences_below(s, k),
        present_below(s, k) <= k,
    decreases k,
{
    if k > 0 {
        lemma_present_le_occurrences(s, (k - 1) as nat);
    }
}

/// A block's histogram accounts for every byte of the block exactly once,
/// and a block of `n` bytes has at most `min(n, 256)` distinct values.
pub proof fn lemma_histogram_counts_every_byte(block: Seq<u8>, counts: Seq<u32>)
    requires
        counts.len() == 256,
        forall|b: int| 0 <= b < 256 ==> counts[b] == occurrences(block, b as u8),
    ensures
        sum_first(counts, 256) == block.len(),
        present_below(block, 256) <= block.len(),
        present_below(block, 256) <= 256,
{
    lemma_sum_is_occurrences(block, counts, 256);
    lemma_occurrences_total(block);
    lemma_present_le_occurrences(block, 256);
}

proof fn lemma_sum_is_occurrences(block: Seq<u8>, counts: Seq<u32>, k: nat)
    requires
        k <= 256,
        counts.len() == 256,
        forall|b: int| 0 <= b < 256 ==> counts[b] == occurrences(block, b as u8),
    ensures
        sum_first(counts, k) == occurrences_below(block, k),
    decreases k,
{
    if k > 0 {
        lemma_sum_is_occurrences(block, counts, (k - 1) as nat);
        assert(counts[k - 1] == occurrences(block, (k - 1) as u8));
    }
}

/// With adapted sizes a file is measured at no more than `MAX_POINTS + 1`
/// block offsets, whatever the block size.
pub proof fn lemma_adapted_point_count(file_size: usize, block_size: usize, step: usize)
    ensures
        ({
            let (b, s, adapted) = adapted_sizes(file_size as nat, block_size, step);
            adapted ==> block_count(file_size as nat, b as nat, s as nat) <= MAX_POINTS + 1
        }),
{
    let (b, st, adapted) = adapted_sizes(file_size as nat, block_size, step);
    lemma_adapted_within_limit(file_size, block_size, step);
    if adapted {
        let f = file_size as nat;
        let sn = st as nat;
        let limit = if f + 1 >= b { (f + 1 - b) as nat } else { 0nat };
        let limit = if b == 0 { f } else { limit };
        assert(limit <= f);
        assert(ceil_div(limit, sn) <= f / sn + 1) by (nonlinear_arith)
            requires
                sn >= 1,
                limit <= f,
                ceil_div(limit, sn) == (limit + sn - 1) / (sn as int),
        ;
    }
}

} // verus!
