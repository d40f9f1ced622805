use graphtropy::hexfmt::{
    format_base64, format_c_array, format_hex_compact, format_hex_spaced, format_python_bytes,
    format_rust_slice, format_utf8_lossy,
};

fn samples() -> Vec<Vec<u8>> {
    vec![
        vec![],
        vec![0],
        vec![0xde, 0xad],
        vec![0xde, 0xad, 0xbe],
        vec![0xde, 0xad, 0xbe, 0xef],
        (0..=255u8).collect(),
        b"hello world".to_vec(),
    ]
}

#[test]
fn hex_formats_examples() {
    let b = [0xde, 0xad, 0x0f];
    assert_eq!(format_hex_spaced(&b), "DE AD 0F");
    assert_eq!(format_hex_compact(&b), "DEAD0F");
    assert_eq!(format_c_array(&b), "{0xDE, 0xAD, 0x0F}");
    assert_eq!(format_rust_slice(&b), "[0xDE, 0xAD, 0x0F]");
    assert_eq!(format_python_bytes(&b), "b'\\xde\\xad\\x0f'");
    assert_eq!(format_hex_spaced(&[]), "");
    assert_eq!(format_c_array(&[]), "{}");
    assert_eq!(format_rust_slice(&[]), "[]");
    assert_eq!(format_python_bytes(&[]), "b''");
}

#[test]
fn hex_formats_agree_with_format_macros() {
    for s in samples() {
        let spaced = s.iter().map(|b| format!("{b:02X}")).collect::<Vec<_>>().join(" ");
        let compact: String = s.iter().map(|b| format!("{b:02X}")).collect();
        let items: Vec<_> = s.iter().map(|b| format!("0x{b:02X}")).collect();
        let python: String = s.iter().map(|b| format!("\\x{b:02x}")).collect();
        assert_eq!(format_hex_spaced(&s), spaced);
        assert_eq!(format_hex_compact(&s), compact);
        assert_eq!(format_c_array(&s), format!("{{{}}}", items.join(", ")));
        assert_eq!(format_rust_slice(&s), format!("[{}]", items.join(", ")));
        assert_eq!(format_python_bytes(&s), format!("b'{python}'"));
    }
}

#[test]
fn base64_rfc4648_vectors() {
    assert_eq!(format_base64(b""), "");
    assert_eq!(format_base64(b"f"), "Zg==");
    assert_eq!(format_base64(b"fo"), "Zm8=");
    assert_eq!(format_base64(b"foo"), "Zm9v");
    assert_eq!(format_base64(b"foob"), "Zm9vYg==");
    assert_eq!(format_base64(b"fooba"), "Zm9vYmE=");
    assert_eq!(format_base64(b"foobar"), "Zm9vYmFy");
    assert_eq!(format_base64(&[0xff, 0xfe, 0xfd]), "//79");
    assert_eq!(format_base64(&[0xfb, 0xef]), "++8=");
}

#[test]
fn base64_length_and_join() {
    for s in samples() {
        assert_eq!(format_base64(&s).len(), 4 * ((s.len() + 2) / 3));
        for cut in (0..=s.len()).step_by(3) {
            let joined = format!("{}{}", format_base64(&s[..cut]), format_base64(&s[cut..]));
            assert_eq!(format_base64(&s), joined);
        }
    }
}

#[test]
fn hex_compact_join_and_spaced_layout() {
    for s in samples() {
        let c = format_hex_compact(&s);
        assert_eq!(c.len(), 2 * s.len());
        for cut in 0..=s.len() {
            assert_eq!(c, format!("{}{}", format_hex_compact(&s[..cut]), format_hex_compact(&s[cut..])));
        }
        let sp = format_hex_spaced(&s);
        if !s.is_empty() {
            assert_eq!(sp.len(), 3 * s.len() - 1);
        }
        assert_eq!(sp.replace(' ', ""), c);
    }
}

#[test]
fn utf8_lossy_replaces_invalid_sequences() {
    assert_eq!(format_utf8_lossy(b"hello"), "hello");
    assert_eq!(format_utf8_lossy(&[0x66, 0xff, 0x6f]), "f\u{FFFD}o");
    assert_eq!(format_utf8_lossy("é€".as_bytes()), "é€");
    assert_eq!(format_utf8_lossy(&[0xe2, 0x82]), "\u{FFFD}");
}

fn decode_base64(text: &str) -> Vec<u8> {
    let value = |c: u8| -> u32 {
        match c {
            b'A'..=b'Z' => (c - b'A') as u32,
            b'a'..=b'z' => (c - b'a' + 26) as u32,
            b'0'..=b'9' => (c - b'0' + 52) as u32,
            b'+' => 62,
            _ => 63,
        }
    };
    let mut out = Vec::new();
    for g in text.as_bytes().chunks(4) {
        let n = (value(g[0]) << 18) | (value(g[1]) << 12)
            | (if g[2] == b'=' { 0 } else { value(g[2]) << 6 })
            | (if g[3] == b'=' { 0 } else { value(g[3]) });
        out.push((n >> 16) as u8);
        if g[2] != b'=' {
            out.push((n >> 8) as u8);
        }
        if g[3] != b'=' {
            out.push(n as u8);
        }
    }
    out
}

#[test]
fn base64_well_formed_and_decodes_back() {
    let mut inputs = samples();
    inputs.push((0..=255u8).rev().collect());
    inputs.push(vec![0xff; 7]);
    inputs.push(vec![0xfb, 0xff]);
    for bytes in inputs {
        let text = format_base64(&bytes);
        assert_eq!(text.len(), 4 * bytes.len().div_ceil(3));
        let pad = match bytes.len() % 3 {
            1 => 2,
            2 => 1,
            _ => 0,
        };
        let (body, tail) = text.split_at(text.len() - pad);
        assert!(body.bytes().all(|c| c.is_ascii_alphanumeric() || c == b'+' || c == b'/'), "{text}");
        assert!(tail.bytes().all(|c| c == b'='), "{text}");
        assert_eq!(decode_base64(&text), bytes);
    }
}
