use graphtropy::units::{format_offset_compact, format_offset_human, format_size, parse_offset};

fn float_size(bytes: u64) -> String {
    if bytes >= 1_073_741_824 {
        format!("{:.1} GB", bytes as f64 / 1_073_741_824.0)
    } else if bytes >= 1_048_576 {
        format!("{:.1} MB", bytes as f64 / 1_048_576.0)
    } else if bytes >= 1024 {
        format!("{:.1} KB", bytes as f64 / 1024.0)
    } else {
        format!("{bytes} B")
    }
}

fn float_offset(bytes: u64, sep: &str) -> String {
    if bytes >= 1_073_741_824 {
        format!("{:.1}{sep}GB", bytes as f64 / 1_073_741_824.0)
    } else if bytes >= 1_048_576 {
        format!("{:.1}{sep}MB", bytes as f64 / 1_048_576.0)
    } else if bytes >= 1024 {
        format!("{:.1}{sep}KB", bytes as f64 / 1024.0)
    } else {
        format!("0x{bytes:X}")
    }
}

fn samples() -> Vec<u64> {
    let mut v = vec![
        0, 1, 9, 10, 99, 1023, 1024, 1025, 1126, 1280, 1331, 1536, 10239, 10240, 1_048_575,
        1_048_576, 1_310_720, 1_572_864, 1_073_741_823, 1_073_741_824, 1_342_177_280,
        1_610_612_736, 5_368_709_120, u64::MAX, u64::MAX - 1, 1 << 53, (1 << 53) + 1,
        (1 << 54) + 2, (1 << 63) + 1025, 0x7fff_ffff_ffff_ffff,
    ];
    let mut x: u64 = 0x9e37_79b9_7f4a_7c15;
    for _ in 0..2000 {
        x ^= x << 13;
        x ^= x >> 7;
        x ^= x << 17;
        v.push(x);
        v.push(x >> 20);
        v.push(x >> 35);
        v.push(x >> 50);
    }
    for k in 0..4096u64 {
        v.push(k * 256);
        v.push(k * 52_429);
        v.push(k * 53_687_091);
    }
    v
}

#[test]
fn size_text_matches_float_formatting() {
    for b in samples() {
        assert_eq!(format_size(b), float_size(b), "bytes = {b}");
    }
}

#[test]
fn offset_text_matches_float_formatting() {
    for b in samples() {
        assert_eq!(format_offset_human(b), float_offset(b, " "), "bytes = {b}");
        assert_eq!(format_offset_compact(b), float_offset(b, ""), "bytes = {b}");
    }
}

#[test]
fn size_examples() {
    assert_eq!(format_size(512), "512 B");
    assert_eq!(format_size(0), "0 B");
    assert_eq!(format_size(1536), "1.5 KB");
    assert_eq!(format_size(3 * 1_048_576), "3.0 MB");
    assert_eq!(format_size(1_610_612_736), "1.5 GB");
    assert_eq!(format_offset_human(0x1f0), "0x1F0");
    assert_eq!(format_offset_compact(2048), "2.0KB");
}

#[test]
fn parse_offset_forms() {
    assert_eq!(parse_offset("0x1F"), Some(31));
    assert_eq!(parse_offset("0X1f"), Some(31));
    assert_eq!(parse_offset("  4096\n"), Some(4096));
    assert_eq!(parse_offset("+12"), Some(12));
    assert_eq!(parse_offset("0x+ff"), Some(255));
    assert_eq!(parse_offset("0x"), None);
    assert_eq!(parse_offset(""), None);
    assert_eq!(parse_offset("   "), None);
    assert_eq!(parse_offset("-1"), None);
    assert_eq!(parse_offset("+"), None);
    assert_eq!(parse_offset("12a"), None);
    assert_eq!(parse_offset("0xg"), None);
    assert_eq!(parse_offset("18446744073709551615"), Some(u64::MAX));
    assert_eq!(parse_offset("18446744073709551616"), None);
    assert_eq!(parse_offset("0xFFFFFFFFFFFFFFFF"), Some(u64::MAX));
    assert_eq!(parse_offset("0x10000000000000000"), None);
    assert_eq!(parse_offset("\u{3000}77\u{a0}"), Some(77));
}

#[test]
fn parse_offset_agrees_with_std() {
    let inputs = [
        "0", "00", "0x0", "0x00ff", "  +7 ", "++7", "+-7", "-0", "1 2", "0x 1", " 0X7fffffffffffffff ",
        "9999999999999999999", "99999999999999999999", "\t\n42\r", "0b101", "٣",
    ];
    for s in inputs {
        let t = s.trim();
        let expected = if let Some(h) = t.strip_prefix("0x").or_else(|| t.strip_prefix("0X")) {
            u64::from_str_radix(h, 16).ok()
        } else {
            t.parse::<u64>().ok()
        };
        assert_eq!(parse_offset(s), expected, "input {s:?}");
    }
}

#[test]
fn displayed_offsets_read_back() {
    for b in samples() {
        assert_eq!(parse_offset(&format!("0x{b:X}")), Some(b));
        assert_eq!(parse_offset(&b.to_string()), Some(b));
    }
}
