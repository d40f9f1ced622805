use font8x8::UnicodeFonts;
use graphtropy::export::{build_caption, glyph_cells, text_glyphs};
use graphtropy::options::{parse_size_input, Options};
use graphtropy::sampling::Algorithm;
use graphtropy::session::{adapt_warning, parse_dimension, status_line, CursorSync, JUMP_COOLDOWN};
use graphtropy::{auto_adapt, ExportConfig, FileInfo};

fn cursor(offset: u64) -> CursorSync {
    CursorSync { cursor_offset: offset, last_hex_offset: 0, sync_cooldown: 0 }
}

#[test]
fn jump_sets_cursor_and_row() {
    let mut s = cursor(0);
    assert_eq!(s.jump_to(0x1234), 0x123);
    assert_eq!(s.cursor_offset, 0x1234);
    assert_eq!(s.sync_cooldown, JUMP_COOLDOWN);
    assert_eq!(JUMP_COOLDOWN, 5);
}

#[test]
fn go_to_is_clamped_to_last_byte() {
    let mut s = cursor(0);
    assert_eq!(s.go_to(5000, 1000), 999 / 16);
    assert_eq!(s.cursor_offset, 999);
    assert_eq!(s.go_to(17, 1000), 1);
    assert_eq!(s.cursor_offset, 17);
    assert_eq!(s.go_to(17, 0), 0);
    assert_eq!(s.cursor_offset, 0);
}

#[test]
fn jump_holds_cursor_for_cooldown_frames() {
    let mut s = cursor(0);
    s.last_hex_offset = 160;
    s.jump_to(4000);
    for top in [320u64, 640, 960, 1280, 1600] {
        s.follow_hex_view(top);
        assert_eq!(s.cursor_offset, 4000);
    }
    assert_eq!(s.sync_cooldown, 0);
    // The hold is over: the next move of the view moves the cursor.
    s.follow_hex_view(1600);
    assert_eq!(s.cursor_offset, 4000);
    s.follow_hex_view(1616);
    assert_eq!(s.cursor_offset, 1616);
    assert_eq!(s.last_hex_offset, 1616);
}

#[test]
fn status_lines() {
    assert_eq!(status_line("a.bin", 512, 0x1F, None), "a.bin | 512 B | Cursor: 0x1F");
    assert_eq!(
        status_line("a.bin", 2048, 0, Some((0x20, 0x10))),
        "a.bin | 2.0 KB | Cursor: 0x0 | Sel: 0x10..0x20 (17 bytes)"
    );
    assert_eq!(
        status_line("x", 1536, 0xABC, Some((7, 7))),
        "x | 1.5 KB | Cursor: 0xABC | Sel: 0x7..0x7 (1 byte)"
    );
}

#[test]
fn adapt_warning_only_when_adapted() {
    let (b, s, adapted) = auto_adapt(10_000_000, 256, 256);
    assert_eq!(
        adapt_warning(10_000_000, b, s, adapted).as_deref(),
        Some("Large file: auto-adjusted block=256 step=4096 (2441 points)")
    );
    let (b, s, adapted) = auto_adapt(1000, 256, 256);
    assert_eq!(adapt_warning(1000, b, s, adapted), None);
}

#[test]
fn export_dimensions() {
    assert_eq!(parse_dimension("1920", 7), 1920);
    assert_eq!(parse_dimension("+600", 7), 600);
    assert_eq!(parse_dimension("4294967295", 7), 4294967295);
    assert_eq!(parse_dimension("4294967296", 7), 7);
    assert_eq!(parse_dimension(" 600", 7), 7);
    assert_eq!(parse_dimension("", 7), 7);
    assert_eq!(parse_dimension("-1", 7), 7);
    assert_eq!(parse_dimension("12a", 7), 7);
    for t in ["0", "007", "+", "99999999999", "1 2", "٣"] {
        assert_eq!(parse_dimension(t, 7), t.parse::<u32>().unwrap_or(7), "{t}");
    }
}

#[test]
fn size_fields() {
    assert_eq!(parse_size_input("4096"), Some(4096));
    assert_eq!(parse_size_input("  300\t"), Some(300));
    assert_eq!(parse_size_input("+12"), Some(12));
    assert_eq!(parse_size_input(""), None);
    assert_eq!(parse_size_input("abc"), None);
    assert_eq!(parse_size_input("99999999999999999999999"), None);
    for t in ["0", " 64 ", "\u{3000}77\u{a0}", "1_000", "-5"] {
        assert_eq!(parse_size_input(t), t.trim().parse::<usize>().ok(), "{t}");
    }
}

#[test]
fn options_start_fresh() {
    let o = Options::new(256, 128, vec!["Dark", "Light"]);
    assert_eq!(o.algorithm, Algorithm::Shannon);
    assert_eq!((o.block_size, o.step, o.theme_index), (256, 128, 0));
    assert!(o.hex_byte_colors);
    assert!(!o.needs_recompute);
    assert_eq!(o.custom_block_input, "");
    assert_eq!(*o.theme(), "Dark");
}

#[test]
fn options_changes_mark_recompute() {
    let mut o = Options::new(256, 256, vec![()]);
    o.select_algorithm(Algorithm::Shannon);
    assert!(!o.needs_recompute);
    o.select_algorithm(Algorithm::ChiSquared);
    assert!(o.needs_recompute);
    assert!(o.take_recompute(false));
    assert!(!o.needs_recompute);
    assert!(!o.take_recompute(false));

    o.custom_block_input = "1000".to_string();
    o.select_block_size(256);
    assert_eq!(o.custom_block_input, "1000");
    assert!(!o.needs_recompute);
    o.select_block_size(512);
    assert_eq!(o.block_size, 512);
    assert_eq!(o.custom_block_input, "");
    assert!(o.needs_recompute);
    // A running computation keeps the request pending.
    assert!(!o.take_recompute(true));
    assert!(o.needs_recompute);
    assert!(o.take_recompute(false));

    o.custom_step_input = "33".to_string();
    o.select_step(64);
    assert_eq!(o.step, 64);
    assert_eq!(o.custom_step_input, "");
}

#[test]
fn custom_size_fields() {
    let mut o = Options::new(256, 256, vec![()]);
    o.custom_block_input = " 1000 ".to_string();
    o.submit_block_input();
    assert_eq!(o.block_size, 1000);
    assert!(o.needs_recompute);
    o.take_recompute(false);
    o.submit_block_input();
    assert!(!o.needs_recompute);
    o.custom_block_input = "0".to_string();
    o.submit_block_input();
    assert_eq!(o.block_size, 1000);
    o.custom_block_input = "abc".to_string();
    o.submit_block_input();
    assert_eq!(o.block_size, 1000);
    assert!(!o.needs_recompute);
    o.custom_step_input = "77".to_string();
    o.submit_step_input();
    assert_eq!(o.step, 77);
    assert!(o.needs_recompute);
    assert_eq!(o.block_hint(), "1000");
    assert_eq!(o.step_hint(), "77");
    o.select_block_size(4096);
    assert_eq!(o.block_hint(), "");
}

#[test]
fn captions() {
    let all = ExportConfig::default();
    assert_eq!(all, ExportConfig { show_filename: true, show_algorithm: true, show_block_step: true });
    assert_eq!(
        build_caption(&all, "fw.bin", Algorithm::ChiSquared, 256, 128).as_deref(),
        Some("fw.bin | Chi-Squared | block=256 step=128")
    );
    let only_sizes = ExportConfig { show_filename: false, show_algorithm: false, show_block_step: true };
    assert_eq!(
        build_caption(&only_sizes, "fw.bin", Algorithm::Shannon, 64, 64).as_deref(),
        Some("block=64 step=64")
    );
    let name_and_measure = ExportConfig { show_filename: true, show_algorithm: true, show_block_step: false };
    assert_eq!(
        build_caption(&name_and_measure, "a", Algorithm::ByteFrequency, 1, 1).as_deref(),
        Some("a | Byte Frequency")
    );
    let none = ExportConfig { show_filename: false, show_algorithm: false, show_block_step: false };
    assert_eq!(build_caption(&none, "a", Algorithm::Shannon, 1, 1), None);
}

#[test]
fn glyphs_come_from_font8x8() {
    let text = "Az 9|é";
    let glyphs = text_glyphs(text);
    assert_eq!(glyphs.len(), 6);
    for (g, ch) in glyphs.iter().zip(text.chars()) {
        assert_eq!(*g, font8x8::BASIC_FONTS.get(ch), "{ch}");
    }
    assert!(glyphs[0].is_some());
    assert_ne!(glyphs[0], glyphs[1]);
    assert_eq!(glyphs[5], None);
    assert_eq!(text_glyphs(""), vec![]);
}

#[test]
fn glyph_cells_in_row_major_order() {
    let g = [0b0000_0001u8, 0, 0, 0, 0, 0, 0, 0b1000_0010];
    assert_eq!(glyph_cells(&g), vec![(0, 0), (7, 1), (7, 7)]);
    assert_eq!(glyph_cells(&[0; 8]), vec![]);
    assert_eq!(glyph_cells(&[0xff; 8]).len(), 64);
    let a = font8x8::BASIC_FONTS.get('A').unwrap();
    let mut expected = Vec::new();
    for (r, bits) in a.iter().enumerate() {
        for c in 0..8u8 {
            if bits & (1 << c) != 0 {
                expected.push((r as u8, c));
            }
        }
    }
    assert_eq!(glyph_cells(&a), expected);
}

#[test]
fn file_info_holds_sizes() {
    let info = FileInfo { path: std::path::PathBuf::from("x.bin"), size: 10, block_size: 256, step: 128 };
    assert_eq!((info.size, info.block_size, info.step), (10, 256, 128));
}

#[test]
fn options_panel_keeps_sizes_positive() {
    let mut o = Options::new(256, 256, vec![1, 2, 3]);
    for input in ["0", "", "-4", "x", " 12 ", "99999999999999999999999", "7"] {
        o.custom_block_input = input.to_string();
        o.submit_block_input();
        o.custom_step_input = input.to_string();
        o.submit_step_input();
        assert!(o.block_size > 0 && o.step > 0);
        assert_eq!(o.theme_index, 0);
    }
    assert_eq!((o.block_size, o.step), (7, 7));
    for size in graphtropy::sampling::standard_size_list() {
        o.select_block_size(size);
        o.select_step(size);
        o.select_algorithm(Algorithm::ByteFrequency);
        o.take_recompute(false);
        assert!(o.block_size > 0 && o.step > 0);
        assert_eq!(o.themes, vec![1, 2, 3]);
    }
}
