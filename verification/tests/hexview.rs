use graphtropy::hexview::{
    ascii_cell_tone, byte_at, byte_class, byte_color, byte_count_label, copy_bounds,
    display_char, frame_tone, hex_cell_tone, hex_str, in_range, match_span, max_first_row,
    row_label, row_window, total_rows, visible_match_range, ByteClass, HexNav, NavInput, Tone,
    BYTES_PER_ROW,
};
use graphtropy::theme::{rgb, HexPalette};

fn nav(first_row: usize, focused: bool, selection: Option<(usize, usize)>) -> HexNav {
    HexNav { first_row, focused, selection }
}

fn no_input() -> NavInput {
    NavInput {
        pointer_pressed: false,
        pointer_in_view: false,
        scroll_rows: None,
        page_down: false,
        page_up: false,
        escape: false,
        center_offset: None,
    }
}

#[test]
fn byte_classes_cover_every_byte() {
    assert_eq!(byte_class(0), ByteClass::Null);
    for b in [0x09u8, 0x0a, 0x0b, 0x0c, 0x0d, 0x20] {
        assert_eq!(byte_class(b), ByteClass::Whitespace, "{b:#x}");
    }
    assert_eq!(byte_class(b'!'), ByteClass::Printable);
    assert_eq!(byte_class(b'A'), ByteClass::Printable);
    assert_eq!(byte_class(b'~'), ByteClass::Printable);
    assert_eq!(byte_class(0x01), ByteClass::Control);
    assert_eq!(byte_class(0x1f), ByteClass::Control);
    assert_eq!(byte_class(0x7f), ByteClass::Control);
    assert_eq!(byte_class(0x80), ByteClass::NonAscii);
    assert_eq!(byte_class(0xff), ByteClass::NonAscii);
    for b in 0..=255u8 {
        let expected = if b == 0 {
            ByteClass::Null
        } else if b.is_ascii_whitespace() || b == 0x0b {
            ByteClass::Whitespace
        } else if b.is_ascii_graphic() {
            ByteClass::Printable
        } else if b.is_ascii_control() {
            ByteClass::Control
        } else {
            ByteClass::NonAscii
        };
        assert_eq!(byte_class(b), expected, "{b:#x}");
    }
}

#[test]
fn byte_color_follows_class() {
    let p = HexPalette {
        null: rgb(1, 1, 1),
        whitespace: rgb(2, 2, 2),
        printable: rgb(3, 3, 3),
        control: rgb(4, 4, 4),
        non_ascii: rgb(5, 5, 5),
    };
    assert_eq!(byte_color(0, &p), p.null);
    assert_eq!(byte_color(b' ', &p), p.whitespace);
    assert_eq!(byte_color(b'z', &p), p.printable);
    assert_eq!(byte_color(0x07, &p), p.control);
    assert_eq!(byte_color(0xc3, &p), p.non_ascii);
}

#[test]
fn hex_and_ascii_cells() {
    assert_eq!(hex_str(0), "00");
    assert_eq!(hex_str(0x0a), "0A");
    assert_eq!(hex_str(0xff), "FF");
    for b in 0..=255u8 {
        assert_eq!(hex_str(b), format!("{b:02X}"));
        let expected = if (0x20..=0x7e).contains(&b) { b as char } else { '.' };
        assert_eq!(display_char(b), expected);
    }
    assert_eq!(display_char(b' '), ' ');
    assert_eq!(display_char(0x7f), '.');
}

#[test]
fn row_labels() {
    assert_eq!(row_label(0), "00000000  ");
    assert_eq!(row_label(0x1230), "00001230  ");
    assert_eq!(row_label(0xDEADBEEF), "DEADBEEF  ");
    for off in [0usize, 16, 255, 4096, 0x7fff_fff0, 0xffff_ffff] {
        assert_eq!(row_label(off), format!("{off:08X}  "));
    }
}

#[test]
fn cell_tones() {
    assert_eq!(hex_cell_tone(true, true, true), Tone::Strong);
    assert_eq!(hex_cell_tone(false, true, true), Tone::ByClass);
    assert_eq!(hex_cell_tone(false, false, true), Tone::Strong);
    assert_eq!(hex_cell_tone(false, false, false), Tone::Weak);
    assert_eq!(ascii_cell_tone(true, false, false), Tone::Strong);
    assert_eq!(ascii_cell_tone(false, true, false), Tone::ByClass);
    assert_eq!(ascii_cell_tone(false, false, true), Tone::Highlight);
    assert_eq!(ascii_cell_tone(false, false, false), Tone::Weak);
    assert_eq!(frame_tone(true), Tone::Highlight);
    assert_eq!(frame_tone(false), Tone::Weak);
}

#[test]
fn rows_and_last_first_row() {
    assert_eq!(BYTES_PER_ROW, 16);
    assert_eq!(total_rows(0), 0);
    assert_eq!(total_rows(1), 1);
    assert_eq!(total_rows(16), 1);
    assert_eq!(total_rows(17), 2);
    assert_eq!(total_rows(usize::MAX), usize::MAX / 16 + 1);
    assert_eq!(max_first_row(1000, 10), 63 - 10);
    assert_eq!(max_first_row(100, 10), 0);
    assert_eq!(max_first_row(160, 10), 0);
    assert_eq!(max_first_row(161, 10), 1);
}

#[test]
fn wheel_scroll_is_clamped() {
    let mut s = nav(5, false, None);
    let mut i = no_input();
    i.pointer_in_view = true;
    i.scroll_rows = Some(-3);
    s.navigate(&i, 1600, 10);
    assert_eq!(s.first_row, 2);
    i.scroll_rows = Some(-10);
    s.navigate(&i, 1600, 10);
    assert_eq!(s.first_row, 0);
    i.scroll_rows = Some(1000);
    s.navigate(&i, 1600, 10);
    assert_eq!(s.first_row, 90);
    // The wheel does nothing while the pointer is elsewhere.
    i.pointer_in_view = false;
    i.scroll_rows = Some(-5);
    s.navigate(&i, 1600, 10);
    assert_eq!(s.first_row, 90);
}

#[test]
fn focus_follows_pointer_press() {
    let mut s = nav(0, false, None);
    let mut i = no_input();
    i.pointer_pressed = true;
    i.pointer_in_view = true;
    s.navigate(&i, 1600, 10);
    assert!(s.focused);
    i.pointer_in_view = false;
    s.navigate(&i, 1600, 10);
    assert!(!s.focused);
    // Without a press, focus stays.
    let mut s = nav(0, true, None);
    s.navigate(&no_input(), 1600, 10);
    assert!(s.focused);
}

#[test]
fn paging_keys_need_focus() {
    let mut i = no_input();
    i.page_down = true;
    let mut s = nav(0, false, None);
    s.navigate(&i, 1600, 10);
    assert_eq!(s.first_row, 0);
    let mut s = nav(0, true, None);
    s.navigate(&i, 1600, 10);
    assert_eq!(s.first_row, 10);
    s.navigate(&i, 1600, 10);
    assert_eq!(s.first_row, 20);
    let mut s = nav(85, true, None);
    s.navigate(&i, 1600, 10);
    assert_eq!(s.first_row, 90);
    let mut up = no_input();
    up.page_up = true;
    s.navigate(&up, 1600, 10);
    assert_eq!(s.first_row, 80);
    let mut s = nav(3, true, None);
    s.navigate(&up, 1600, 10);
    assert_eq!(s.first_row, 0);
    // Zero visible rows still page one row at a time.
    let mut s = nav(0, true, None);
    s.navigate(&i, 1600, 0);
    assert_eq!(s.first_row, 1);
}

#[test]
fn paging_down_then_up_returns() {
    let mut s = nav(17, true, Some((1, 2)));
    let mut down = no_input();
    down.page_down = true;
    let mut up = no_input();
    up.page_up = true;
    s.navigate(&down, 1 << 20, 25);
    assert_eq!(s.first_row, 42);
    s.navigate(&up, 1 << 20, 25);
    assert_eq!(s.first_row, 17);
    assert_eq!(s.selection, Some((1, 2)));
}

#[test]
fn escape_clears_selection_when_focused() {
    let mut i = no_input();
    i.escape = true;
    let mut s = nav(0, false, Some((3, 9)));
    s.navigate(&i, 1600, 10);
    assert_eq!(s.selection, Some((3, 9)));
    let mut s = nav(0, true, Some((3, 9)));
    s.navigate(&i, 1600, 10);
    assert_eq!(s.selection, None);
}

#[test]
fn centring_on_an_offset() {
    let mut i = no_input();
    i.center_offset = Some(800);
    let mut s = nav(0, false, None);
    s.navigate(&i, 1600, 10);
    assert_eq!(s.first_row, 50 - 5);
    i.center_offset = Some(16);
    s.navigate(&i, 1600, 10);
    assert_eq!(s.first_row, 0);
    i.center_offset = Some(1599);
    s.navigate(&i, 1600, 10);
    assert_eq!(s.first_row, 90);
}

#[test]
fn first_row_is_clamped_when_data_shrinks() {
    let mut s = nav(500, true, None);
    s.navigate(&no_input(), 1600, 10);
    assert_eq!(s.first_row, 90);
    let mut s = nav(500, true, None);
    s.navigate(&no_input(), 0, 10);
    assert_eq!(s.first_row, 0);
}

#[test]
fn scrollbar_and_top_offset() {
    let mut s = nav(0, true, Some((1, 1)));
    s.scroll_to(40, 90);
    assert_eq!(s.first_row, 40);
    assert_eq!(s.top_offset(), 640);
    s.scroll_to(400, 90);
    assert_eq!(s.first_row, 90);
    assert!(s.focused);
    assert_eq!(s.selection, Some((1, 1)));
}

#[test]
fn window_of_rows() {
    let w = row_window(2, 10, 100, 37);
    assert_eq!(w.total_rows, 7);
    assert_eq!(w.end_row, 7);
    assert_eq!(w.visible_start, 32);
    assert_eq!(w.visible_end, 100);
    assert_eq!(w.cursor_row, 2);
    let w = row_window(0, 3, 1000, 0);
    assert_eq!(w.end_row, 3);
    assert_eq!(w.visible_end, 48);
    let w = row_window(0, 5, 0, 0);
    assert_eq!(w.total_rows, 0);
    assert_eq!(w.end_row, 0);
    assert_eq!(w.visible_end, 0);
}

#[test]
fn byte_under_pointer() {
    assert_eq!(byte_at(0, 0, 0, 100), Some(0));
    assert_eq!(byte_at(2, 1, 5, 100), Some(53));
    assert_eq!(byte_at(6, 0, 3, 100), Some(99));
    assert_eq!(byte_at(6, 0, 4, 100), None);
    assert_eq!(byte_at(7, 0, 0, 100), None);
    assert_eq!(byte_at(0, 0, 0, 0), None);
}

#[test]
fn selection_by_clicks_and_drags() {
    let mut s = nav(3, true, None);
    s.click(10, true);
    assert_eq!(s.selection, Some((10, 10)));
    s.click(20, true);
    assert_eq!(s.selection, Some((10, 20)));
    s.click(5, false);
    assert_eq!(s.selection, Some((5, 5)));
    s.drag_start(30);
    s.drag_to(12);
    assert_eq!(s.selection, Some((30, 12)));
    assert_eq!(s.selected_range(), Some((12, 30)));
    s.secondary_click(99);
    assert_eq!(s.selection, Some((30, 12)));
    let mut t = nav(0, false, None);
    t.drag_to(4);
    assert_eq!(t.selection, None);
    assert_eq!(t.selected_range(), None);
    t.secondary_click(99);
    assert_eq!(t.selection, Some((99, 99)));
    assert_eq!(s.first_row, 3);
    assert!(s.focused);
}

#[test]
fn ranges_and_copy_bounds() {
    assert!(in_range(5, Some((5, 5))));
    assert!(in_range(7, Some((5, 9))));
    assert!(!in_range(10, Some((5, 9))));
    assert!(!in_range(4, Some((5, 9))));
    assert!(!in_range(0, None));
    assert_eq!(copy_bounds(3, 9, 100), (3, 9));
    assert_eq!(copy_bounds(3, 500, 100), (3, 99));
    assert_eq!(copy_bounds(0, 5, 0), (0, 0));
}

#[test]
fn count_labels() {
    assert_eq!(byte_count_label(0), "0 bytes");
    assert_eq!(byte_count_label(1), "1 byte");
    assert_eq!(byte_count_label(2), "2 bytes");
    assert_eq!(byte_count_label(1024), "1024 bytes");
}

#[test]
fn visible_matches_agree_with_partition_point() {
    let matches: Vec<usize> = vec![0, 5, 16, 17, 40, 64, 64, 100, usize::MAX - 1];
    for len in [0usize, 1, 3, 20, usize::MAX] {
        for (vs, ve) in [(0usize, 16usize), (16, 48), (48, 64), (64, 65), (90, 200), (0, usize::MAX)] {
            let ml = len.max(1);
            let first = matches.partition_point(|&m| m.saturating_add(ml) <= vs);
            let last = matches.partition_point(|&m| m < ve);
            assert_eq!(visible_match_range(&matches, len, vs, ve), (first, last), "{len} {vs} {ve}");
        }
    }
    assert_eq!(visible_match_range(&[], 4, 0, 16), (0, 0));
    assert_eq!(visible_match_range(&matches, 4, 16, 48), (2, 5));
}

#[test]
fn match_spans_in_a_row() {
    assert_eq!(match_span(20, 4, 16, 32), Some((20, 24)));
    assert_eq!(match_span(10, 10, 16, 32), Some((16, 20)));
    assert_eq!(match_span(30, 10, 16, 32), Some((30, 32)));
    assert_eq!(match_span(0, 16, 16, 32), None);
    assert_eq!(match_span(32, 4, 16, 32), None);
    assert_eq!(match_span(usize::MAX - 1, 10, 16, usize::MAX), Some((usize::MAX - 1, usize::MAX)));
}

#[test]
fn selection_stays_on_the_data() {
    let data: Vec<u8> = (0..100u8).collect();
    let mut s = nav(0, true, None);
    // Pointer positions (row in view, column), some beyond the data.
    let moves = [(0usize, 3usize, false), (6, 3, true), (6, 15, true), (9, 0, false), (2, 8, true)];
    for (i, &(row, col, shift)) in moves.iter().enumerate() {
        if let Some(idx) = byte_at(s.first_row, row, col, data.len()) {
            match i % 3 {
                0 => s.click(idx, shift),
                1 => s.drag_to(idx),
                _ => s.secondary_click(idx),
            }
        }
        if let Some((lo, hi)) = s.selected_range() {
            assert!(lo <= hi && hi < data.len());
            let (a, b) = copy_bounds(lo, hi, data.len());
            assert_eq!((a, b), (lo, hi));
            assert_eq!(data[a..=b].len(), hi - lo + 1);
        }
        let mut esc = no_input();
        esc.escape = i == 3;
        s.navigate(&esc, data.len(), 4);
    }
    assert_eq!(s.selection, None);
}
