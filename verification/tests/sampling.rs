use graphtropy::auto_adapt;
use graphtropy::sampling::{
    block_bounds, block_offsets, byte_counts, counts_fit_in_u32, distinct_bytes, is_standard_size,
    standard_size_list, Algorithm, ALL_ALGORITHMS, MAX_POINTS,
};

/// The sizes rule as the viewer states it.
fn expected_adapt(file_size: usize, block_size: usize, step: usize) -> (usize, usize, bool) {
    let num_points = file_size / step.max(1);
    if num_points <= 4096 {
        return (block_size, step, false);
    }
    for &s in &[64, 128, 256, 512, 1024, 2048, 4096, 8192] {
        if s >= step && file_size / s <= 4096 {
            return (block_size, s, true);
        }
    }
    (block_size, file_size.div_ceil(4096), true)
}

#[test]
fn auto_adapt_small_file_unchanged() {
    assert_eq!(auto_adapt(1000, 256, 256), (256, 256, false));
    assert_eq!(auto_adapt(4096 * 256, 256, 256), (256, 256, false));
    assert_eq!(auto_adapt(0, 0, 0), (0, 0, false));
    assert_eq!(auto_adapt(4096, 7, 0), (7, 0, false));
}

#[test]
fn auto_adapt_picks_smallest_standard_step() {
    assert_eq!(auto_adapt(4096 * 256 + 1, 256, 256), (256, 256, false));
    assert_eq!(auto_adapt(4096 * 256 + 256, 256, 256), (256, 512, true));
    assert_eq!(auto_adapt(10_000_000, 256, 256), (256, 4096, true));
    assert_eq!(auto_adapt(10_000_000, 64, 3000), (64, 3000, false));
    assert_eq!(auto_adapt(20_000_000, 64, 3000), (64, 8192, true));
    assert_eq!(auto_adapt(5000, 16, 1), (16, 64, true));
}

#[test]
fn auto_adapt_large_file_computes_step() {
    assert_eq!(auto_adapt(8192 * 4096 + 1, 256, 256), (256, 8192, true));
    assert_eq!(auto_adapt(8192 * 4097, 256, 256), (256, 8194, true));
    assert_eq!(auto_adapt(8192 * 4097 + 1, 256, 256), (256, 8195, true));
    assert_eq!(auto_adapt(usize::MAX, 256, 1), (256, usize::MAX / 4096 + 1, true));
    assert_eq!(auto_adapt(100_000_000, 256, 20_000), (256, 24415, true));
}

#[test]
fn auto_adapt_agrees_with_rule_and_keeps_points_bounded() {
    let sizes = [0usize, 1, 4095, 4096, 4097, 262_144, 262_145, 1 << 20, 10_000_000, 1 << 33, 123_456_789_012];
    let steps = [0usize, 1, 63, 64, 100, 256, 5000, 8192, 9000, 1 << 20];
    for &f in &sizes {
        for &st in &steps {
            let r = auto_adapt(f, 256, st);
            assert_eq!(r, expected_adapt(f, 256, st), "file {f} step {st}");
            if r.2 {
                assert!(r.1 >= st && r.1 >= 1);
                assert!(f / r.1 <= MAX_POINTS);
                assert!(block_offsets(f, 256, r.1).len() <= MAX_POINTS + 1);
            } else {
                assert_eq!(r.1, st);
            }
        }
    }
}

fn expected_offsets(len: usize, block_size: usize, step: usize) -> Vec<usize> {
    (0..len.saturating_sub(block_size.saturating_sub(1))).step_by(step.max(1)).collect()
}

#[test]
fn block_offsets_agree_with_ranges() {
    for &len in &[0usize, 1, 5, 16, 17, 100, 256, 1000] {
        for &bs in &[0usize, 1, 4, 16, 256, 2000] {
            for &st in &[0usize, 1, 3, 16, 64, 5000] {
                let v = block_offsets(len, bs, st);
                assert_eq!(v, expected_offsets(len, bs, st), "len {len} block {bs} step {st}");
                for &o in &v {
                    let (a, b) = block_bounds(o, bs, len);
                    assert_eq!((a, b), (o, (o + bs).min(len)));
                }
            }
        }
    }
    assert_eq!(block_offsets(10, 4, 3), vec![0, 3, 6]);
    assert_eq!(block_offsets(3, 4, 1), Vec::<usize>::new());
}

#[test]
fn histogram_counts_every_byte() {
    let block = b"abracadabra";
    let c = byte_counts(block);
    assert_eq!(c.len(), 256);
    assert_eq!(c[b'a' as usize], 5);
    assert_eq!(c[b'b' as usize], 2);
    assert_eq!(c[b'z' as usize], 0);
    assert_eq!(c.iter().map(|&x| x as usize).sum::<usize>(), block.len());
    assert_eq!(distinct_bytes(block), 5);
    assert_eq!(distinct_bytes(&[]), 0);
    let all: Vec<u8> = (0..=255u8).chain(0..=255u8).collect();
    assert_eq!(distinct_bytes(&all), 256);
    assert!(counts_fit_in_u32(&all));
    assert!(counts_fit_in_u32(&[]));
}

#[test]
fn standard_sizes_listed() {
    assert_eq!(standard_size_list(), [64, 128, 256, 512, 1024, 2048, 4096, 8192]);
    assert!(is_standard_size(1024));
    assert!(!is_standard_size(1000));
    assert!(!is_standard_size(0));
}

#[test]
fn algorithm_labels() {
    assert_eq!(Algorithm::Shannon.label(), "Shannon Entropy");
    assert_eq!(Algorithm::ChiSquared.label(), "Chi-Squared");
    assert_eq!(Algorithm::ByteFrequency.label(), "Byte Frequency");
    assert_eq!(Algorithm::Shannon.y_label(), "Entropy (bits/byte)");
    assert_eq!(Algorithm::ChiSquared.y_label(), "Chi-Squared (normalized)");
    assert_eq!(Algorithm::ByteFrequency.y_label(), "Unique Bytes (ratio)");
    assert_eq!(ALL_ALGORITHMS.len(), 3);
    assert!(ALL_ALGORITHMS[0] == Algorithm::Shannon);
}
