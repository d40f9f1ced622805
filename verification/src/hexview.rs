//! The hex view: byte classes and cells, scrolling and paging, the rows in
//! view, selection by pointer, and search-match highlighting.

use vstd::prelude::*;

use crate::text::{push_digits, push_padded, push_str, zero_padded, hex_upper, decimal, hex_pair};
use crate::theme::{HexPalette, Rgb};

verus! {

/// Bytes shown on one row.
pub const BYTES_PER_ROW: usize = 16;

// ---------------------------------------------------------------------
// Cells
// ---------------------------------------------------------------------

/// The class that decides a byte's colour.
#[derive(Clone, Copy, PartialEq, Eq, Structural, Debug)]
pub enum ByteClass {
    Null,
    Whitespace,
    Printable,
    Control,
    NonAscii,
}

/// The class of a byte: NUL; tab, line feed, vertical tab, form feed,
/// carriage return and space; other printable ASCII; other control
/// characters including DEL; everything from 0x80 on.
pub open spec fn class_of(b: u8) -> ByteClass {
    if b == 0 {
        ByteClass::Null
    } else if b == 0x09 || b == 0x0a || b == 0x0d || b == 0x0b || b == 0x0c || b == 0x20 {
        ByteClass::Whitespace
    } else if 0x21 <= b <= 0x7e {
        ByteClass::Printable
    } else if 0x01 <= b <= 0x1f || b == 0x7f {
        ByteClass::Control
    } else {
        ByteClass::NonAscii
    }
}

/// The class of a byte.
pub fn byte_class(byte: u8) -> (c: ByteClass)
    ensures
        c == class_of(byte),
{
    if byte == 0 {
        ByteClass::Null
    } else if byte == 0x09 || byte == 0x0a || byte == 0x0d || byte == 0x0b || byte == 0x0c
        || byte == 0x20 {
        ByteClass::Whitespace
    } else if 0x21 <= byte && byte <= 0x7e {
        ByteClass::Printable
    } else if 0x01 <= byte && byte <= 0x1f || byte == 0x7f {
        ByteClass::Control
    } else {
        ByteClass::NonAscii
    }
}

/// The palette colour of a class.
pub open spec fn class_color(c: ByteClass, p: HexPalette) -> Rgb {
    match c {
        ByteClass::Null => p.null,
        ByteClass::Whitespace => p.whitespace,
        ByteClass::Printable => p.printable,
        ByteClass::Control => p.control,
        ByteClass::NonAscii => p.non_ascii,
    }
}

/// The palette colour of a byte.
pub fn byte_color(byte: u8, palette: &HexPalette) -> (c: Rgb)
    ensures
        c == class_color(class_of(byte), *palette),
{
    match byte_class(byte) {
        ByteClass::Null => palette.null,
        ByteClass::Whitespace => palette.whitespace,
        ByteClass::Printable => palette.printable,
        ByteClass::Control => palette.control,
        ByteClass::NonAscii => palette.non_ascii,
    }
}

/// The two upper-case hex digits shown for a byte.
pub fn hex_str(b: u8) -> (s: String)
    ensures
        s@ == hex_pair(b),
{
    let mut s = String::new();
    push_padded(&mut s, b as u64, 16, true, 2);
    proof {
        lemma_hex_pair_padded(b);
    }
    s
}

proof fn lemma_hex_pair_padded(b: u8)
    ensures
        zero_padded(hex_upper(b as nat), 2) == hex_pair(b),
{
    let n = b as nat;
    if n >= 16 {
        assert(n / 16 < 16);
        assert(hex_upper(n / 16) == seq![crate::text::digit_char(n / 16, true)]);
        assert(hex_upper(n) =~= hex_pair(b));
    } else {
        assert(hex_upper(n) == seq![crate::text::digit_char(n, true)]);
        assert(zero_padded(hex_upper(n), 2) =~= hex_pair(b));
    }
}

/// The character shown for a byte in the ASCII column: itself when it is
/// printable ASCII or a space, `'.'` otherwise.
pub open spec fn shown_char(b: u8) -> char {
    if 0x20 <= b <= 0x7e {
        (b as u32) as char
    } else {
        '.'
    }
}

/// The character shown for a byte in the ASCII column.
pub fn display_char(byte: u8) -> (c: char)
    ensures
        c == shown_char(byte),
{
    if 0x21 <= byte && byte <= 0x7e || byte == 0x20 {
        byte as char
    } else {
        '.'
    }
}

/// The offset column of a row: eight or more upper-case hex digits and two
/// spaces.
pub fn row_label(offset: usize) -> (s: String)
    ensures
        s@ == zero_padded(hex_upper(offset as nat), 8) + "  "@,
{
    let mut s = String::new();
    push_padded(&mut s, offset as u64, 16, true, 8);
    push_str(&mut s, "  ");
    s
}

/// How a cell is coloured.
#[derive(Clone, Copy, PartialEq, Eq, Structural, Debug)]
pub enum Tone {
    /// The strong text colour.
    Strong,
    /// The palette colour of the byte's class.
    ByClass,
    /// The selection highlight colour.
    Highlight,
    /// The weak text colour.
    Weak,
}

/// Tone of a hex cell: selected cells are strong, then the palette if byte
/// colours are on, then strong on the cursor row, weak elsewhere.
pub fn hex_cell_tone(selected: bool, palette_on: bool, cursor_row: bool) -> (t: Tone)
    ensures
        t == (if selected {
            Tone::Strong
        } else if palette_on {
            Tone::ByClass
        } else if cursor_row {
            Tone::Strong
        } else {
            Tone::Weak
        }),
{
    if selected {
        Tone::Strong
    } else if palette_on {
        Tone::ByClass
    } else if cursor_row {
        Tone::Strong
    } else {
        Tone::Weak
    }
}

/// Tone of an ASCII cell: as for hex cells, but the cursor row is
/// highlighted rather than strong.
pub fn ascii_cell_tone(selected: bool, palette_on: bool, cursor_row: bool) -> (t: Tone)
    ensures
        t == (if selected {
            Tone::Strong
        } else if palette_on {
            Tone::ByClass
        } else if cursor_row {
            Tone::Highlight
        } else {
            Tone::Weak
        }),
{
    if selected {
        Tone::Strong
    } else if palette_on {
        Tone::ByClass
    } else if cursor_row {
        Tone::Highlight
    } else {
        Tone::Weak
    }
}

/// Tone of the offset label and the ASCII brackets of a row.
pub fn frame_tone(cursor_row: bool) -> (t: Tone)
    ensures
        t == (if cursor_row { Tone::Highlight } else { Tone::Weak }),
{
    if cursor_row {
        Tone::Highlight
    } else {
        Tone::Weak
    }
}

// ---------------------------------------------------------------------
// Scrolling
// ---------------------------------------------------------------------

/// Rows needed for `len` bytes.
pub open spec fn rows_for(len: nat) -> nat {
    (len + 15) / 16
}

/// The largest first row that still fills the view.
pub open spec fn last_first_row(len: nat, visible_rows: nat) -> nat {
    if rows_for(len) >= visible_rows {
        (rows_for(len) - visible_rows) as nat
    } else {
        0
    }
}

/// Rows needed for `len` bytes.
pub fn total_rows(len: usize) -> (r: usize)
    ensures
        r == rows_for(len as nat),
{
    len / 16 + if len % 16 != 0 {
        1
    } else {
        0
    }
}

/// The largest first row that still fills a view of `visible_rows` rows.
pub fn max_first_row(len: usize, visible_rows: usize) -> (r: usize)
    ensures
        r == last_first_row(len as nat, visible_rows as nat),
{
    total_rows(len).saturating_sub(visible_rows)
}

/// Scroll position, keyboard focus and selection of the hex view.
#[derive(Clone, Copy, Debug)]
pub struct HexNav {
    /// Index of the top row in view.
    pub first_row: usize,
    /// Whether keys go to the hex view.
    pub focused: bool,
    /// Anchor and moving end of the selection, in either order.
    pub selection: Option<(usize, usize)>,
}

/// What happened in one frame before the rows are drawn.
#[derive(Clone, Copy, PartialEq, Eq, Structural, Debug)]
pub struct NavInput {
    /// A pointer button went down somewhere.
    pub pointer_pressed: bool,
    /// The pointer is over the hex view.
    pub pointer_in_view: bool,
    /// Rows scrolled by the wheel (towards the end when positive), when the
    /// wheel moved at all.
    pub scroll_rows: Option<isize>,
    pub page_down: bool,
    pub page_up: bool,
    pub escape: bool,
    /// An offset that the view is to be centred on.
    pub center_offset: Option<usize>,
}

/// `x` clamped to `lo..=hi`.
pub open spec fn clamp_int(x: int, lo: int, hi: int) -> int {
    if x < lo {
        lo
    } else if x > hi {
        hi
    } else {
        x
    }
}

/// Focus follows the pointer when a button goes down.
pub open spec fn after_focus(s: HexNav, i: NavInput) -> HexNav {
    if i.pointer_pressed {
        HexNav { focused: i.pointer_in_view, ..s }
    } else {
        s
    }
}

/// The wheel scrolls the view when the pointer is over it; the first row
/// stays within `0..=max_row`.
pub open spec fn after_scroll(s: HexNav, i: NavInput, max_row: nat) -> HexNav {
    if i.pointer_in_view && i.scroll_rows is Some {
        HexNav {
            first_row: clamp_int(s.first_row + i.scroll_rows->0, 0, max_row as int) as usize,
            ..s
        }
    } else {
        s
    }
}

/// With focus, Page Down moves a page towards the end (at most to
/// `max_row`), Page Up a page back (at least to row 0), Escape drops the
/// selection. A page is the visible rows, at least one.
pub open spec fn after_keys(s: HexNav, i: NavInput, visible_rows: nat, max_row: nat) -> HexNav {
    let page = if visible_rows == 0 { 1nat } else { visible_rows };
    if !s.focused {
        s
    } else {
        let r1 = if i.page_down {
            if s.first_row + page <= max_row { s.first_row + page } else { max_row as int }
        } else {
            s.first_row as int
        };
        let r2 = if i.page_up {
            if r1 >= page { r1 - page } else { 0 }
        } else {
            r1
        };
        HexNav {
            first_row: r2 as usize,
            selection: if i.escape { None } else { s.selection },
            ..s
        }
    }
}

/// Centring puts the row of the offset half a view below the top, within
/// `0..=max_row`.
pub open spec fn after_center(s: HexNav, i: NavInput, visible_rows: nat, max_row: nat) -> HexNav {
    match i.center_offset {
        Some(o) => {
            let target = o as nat / 16;
            let r = if target >= visible_rows / 2 { (target - visible_rows / 2) as nat } else { 0 };
            HexNav { first_row: (if r <= max_row { r } else { max_row }) as usize, ..s }
        },
        None => s,
    }
}

/// The whole navigation of one frame: focus, wheel, keys, centring, and a
/// final clamp of the first row to `0..=max_row`.
pub open spec fn navigated(s: HexNav, i: NavInput, len: nat, visible_rows: nat) -> HexNav {
    let m = last_first_row(len, visible_rows);
    let s1 = after_focus(s, i);
    let s2 = after_scroll(s1, i, m);
    let s3 = after_keys(s2, i, visible_rows, m);
    let s4 = after_center(s3, i, visible_rows, m);
    HexNav { first_row: (if s4.first_row <= m { s4.first_row as nat } else { m }) as usize, ..s4 }
}

/// The frame's navigation stays within machine integers.
pub open spec fn navigation_fits(s: HexNav, i: NavInput, len: nat, visible_rows: nat) -> bool {
    let m = last_first_row(len, visible_rows);
    let page = if visible_rows == 0 { 1nat } else { visible_rows };
    let s2 = after_scroll(after_focus(s, i), i, m);
    &&& (i.pointer_in_view && i.scroll_rows is Some) ==> {
        &&& s.first_row <= isize::MAX
        &&& isize::MIN <= s.first_row + i.scroll_rows->0 <= isize::MAX
    }
    &&& (s2.focused && i.page_down) ==> s2.first_row + page <= usize::MAX
}

/// Focused paging forth and then back returns to the same row when the
/// page forth was not cut short by the end of the data.
pub proof fn lemma_paging_round_trip(s: HexNav, i: NavInput, visible_rows: nat, max_row: nat)
    requires
        s.focused,
        i.page_down && !i.page_up && !i.escape,
        max_row <= usize::MAX,
        s.first_row + (if visible_rows == 0 { 1nat } else { visible_rows }) <= max_row,
    ensures
        after_keys(
            after_keys(s, i, visible_rows, max_row),
            NavInput { page_down: false, page_up: true, ..i },
            visible_rows,
            max_row,
        ).first_row == s.first_row,
{
}

impl HexNav {
    /// Applies one frame of pointer, wheel and key input.
    pub fn navigate(&mut self, input: &NavInput, data_len: usize, visible_rows: usize)
        requires
            navigation_fits(*old(self), *input, data_len as nat, visible_rows as nat),
        ensures
            *final(self) == navigated(*old(self), *input, data_len as nat, visible_rows as nat),
            final(self).first_row <= last_first_row(data_len as nat, visible_rows as nat),
    {
        let m = max_first_row(data_len, visible_rows);
        self.focus_step(input);
        self.scroll_step(input, m);
        self.key_step(input, visible_rows, m);
        self.center_step(input, visible_rows, m);
        if self.first_row > m {
            self.first_row = m;
        }
    }

    fn focus_step(&mut self, input: &NavInput)
        ensures
            *final(self) == after_focus(*old(self), *input),
    {
        if input.pointer_pressed {
            self.focused = input.pointer_in_view;
        }
    }

    fn scroll_step(&mut self, input: &NavInput, m: usize)
        requires
            m <= usize::MAX / 16 + 1,
            (input.pointer_in_view && input.scroll_rows is Some) ==> {
                &&& old(self).first_row <= isize::MAX
                &&& isize::MIN <= old(self).first_row + input.scroll_rows->0 <= isize::MAX
            },
        ensures
            *final(self) == after_scroll(*old(self), *input, m as nat),
    {
        if input.pointer_in_view {
            if let Some(delta) = input.scroll_rows {
                let new_row = self.first_row as isize + delta;
                let clamped = if new_row < 0 {
                    0
                } else if new_row > m as isize {
                    m as isize
                } else {
                    new_row
                };
                self.first_row = clamped as usize;
            }
        }
    }

    fn key_step(&mut self, input: &NavInput, visible_rows: usize, m: usize)
        requires
            (old(self).focused && input.page_down) ==> old(self).first_row + (if visible_rows
                == 0 { 1nat } else { visible_rows as nat }) <= usize::MAX,
        ensures
            *final(self) == after_keys(*old(self), *input, visible_rows as nat, m as nat),
    {
        if self.focused {
            let page = if visible_rows == 0 {
                1
            } else {
                visible_rows
            };
            if input.page_down {
                let r = self.first_row + page;
                self.first_row = if r <= m {
                    r
                } else {
                    m
                };
            }
            if input.page_up {
                self.first_row = self.first_row.saturating_sub(page);
            }
            if input.escape {
                self.selection = None;
            }
        }
    }

    fn center_step(&mut self, input: &NavInput, visible_rows: usize, m: usize)
        ensures
            *final(self) == after_center(*old(self), *input, visible_rows as nat, m as nat),
    {
        if let Some(offset) = input.center_offset {
            let r = (offset / 16).saturating_sub(visible_rows / 2);
            self.first_row = if r <= m {
                r
            } else {
                m
            };
        }
    }

    /// Moves the view to a row chosen on the scrollbar, at most `max_row`.
    pub fn scroll_to(&mut self, row: usize, max_row: usize)
        ensures
            final(self).first_row == (if row <= max_row { row } else { max_row }),
            final(self).focused == old(self).focused,
            final(self).selection == old(self).selection,
    {
        self.first_row = if row <= max_row {
            row
        } else {
            max_row
        };
    }

    /// Offset of the first byte in view, which the caller follows.
    pub fn top_offset(&self) -> (o: u64)
        requires
            self.first_row * 16 <= usize::MAX,
        ensures
            o == self.first_row * 16,
    {
        (self.first_row * BYTES_PER_ROW) as u64
    }
}

// ---------------------------------------------------------------------
// Rows in view
// ---------------------------------------------------------------------

/// The rows and bytes that a frame draws.
#[derive(Clone, Copy, PartialEq, Eq, Structural, Debug)]
pub struct RowWindow {
    pub total_rows: usize,
    /// One past the last row drawn.
    pub end_row: usize,
    /// Offset of the first byte drawn.
    pub visible_start: usize,
    /// One past the offset of the last byte drawn.
    pub visible_end: usize,
    /// The row that holds the cursor.
    pub cursor_row: usize,
}

/// The rows drawn from `first_row` on in a view of `visible_rows` rows.
pub fn row_window(first_row: usize, visible_rows: usize, data_len: usize, cursor_offset: u64) -> (w:
    RowWindow)
    requires
        first_row + visible_rows <= usize::MAX,
        first_row * 16 <= usize::MAX,
        (if first_row + visible_rows <= rows_for(data_len as nat) {
            first_row + visible_rows
        } else {
            rows_for(data_len as nat) as int
        }) * 16 <= usize::MAX,
    ensures
        w.total_rows == rows_for(data_len as nat),
        w.end_row == (if first_row + visible_rows <= w.total_rows {
            first_row + visible_rows
        } else {
            w.total_rows as int
        }),
        w.visible_start == first_row * 16,
        w.visible_end == (if w.end_row * 16 <= data_len { w.end_row * 16 } else { data_len as int }),
        w.cursor_row == (cursor_offset as usize) / 16,
{
    let total = total_rows(data_len);
    let r = first_row + visible_rows;
    let end_row = if r <= total {
        r
    } else {
        total
    };
    let e = end_row * BYTES_PER_ROW;
    RowWindow {
        total_rows: total,
        end_row,
        visible_start: first_row * BYTES_PER_ROW,
        visible_end: if e <= data_len {
            e
        } else {
            data_len
        },
        cursor_row: cursor_offset as usize / BYTES_PER_ROW,
    }
}

/// The byte under the pointer, given the row counted from the top of the
/// view and the column (`0..16`) the pointer is in, if there is a byte there.
pub fn byte_at(first_row: usize, row_in_view: usize, col: usize, data_len: usize) -> (r: Option<
    usize,
>)
    requires
        col < 16,
        first_row + row_in_view <= usize::MAX,
    ensures
        r == (if first_row + row_in_view >= rows_for(data_len as nat) {
            None::<usize>
        } else if (first_row + row_in_view) * 16 + col < data_len {
            Some(((first_row + row_in_view) * 16 + col) as usize)
        } else {
            None::<usize>
        }),
{
    let row = first_row + row_in_view;
    if row >= total_rows(data_len) {
        return None;
    }
    assert(row * 16 + col < data_len + 16) by (nonlinear_arith)
        requires
            row < (data_len + 15) / 16,
            col < 16,
    ;
    let idx = row * BYTES_PER_ROW + col;
    if idx < data_len {
        Some(idx)
    } else {
        None
    }
}

// ---------------------------------------------------------------------
// Selection
// ---------------------------------------------------------------------

/// The selection after a primary click on byte `idx`: with Shift it moves
/// the end of an existing selection, otherwise it selects just that byte.
pub open spec fn after_click(sel: Option<(usize, usize)>, idx: usize, shift: bool) -> Option<(usize, usize)> {
    match (shift, sel) {
        (true, Some((anchor, _))) => Some((anchor, idx)),
        _ => Some((idx, idx)),
    }
}

/// The selection after dragging over byte `idx`: its end moves there.
pub open spec fn after_drag_to(sel: Option<(usize, usize)>, idx: usize) -> Option<(usize, usize)> {
    match sel {
        Some((anchor, _)) => Some((anchor, idx)),
        None => None,
    }
}

/// The selection after a secondary click on byte `idx`: that byte when
/// nothing was selected, otherwise unchanged.
pub open spec fn after_secondary_click(sel: Option<(usize, usize)>, idx: usize) -> Option<(usize, usize)> {
    match sel {
        None => Some((idx, idx)),
        Some(s) => Some(s),
    }
}

/// A selection as an inclusive range `(low, high)`.
pub open spec fn normalized(sel: Option<(usize, usize)>) -> Option<(usize, usize)> {
    match sel {
        Some((a, b)) => Some((if a <= b { a } else { b }, if a <= b { b } else { a })),
        None => None,
    }
}

/// Both ends of the selection, if any, are offsets of bytes of the data.
pub open spec fn selection_within(sel: Option<(usize, usize)>, len: nat) -> bool {
    match sel {
        Some((a, b)) => a < len && b < len,
        None => true,
    }
}

impl HexNav {
    /// A primary click on byte `idx`: with Shift it moves the end of an
    /// existing selection, otherwise it selects just that byte.
    pub fn click(&mut self, idx: usize, shift: bool)
        ensures
            final(self).selection == after_click(old(self).selection, idx, shift),
            final(self).first_row == old(self).first_row,
            final(self).focused == old(self).focused,
    {
        if shift {
            if let Some((anchor, _)) = self.selection {
                self.selection = Some((anchor, idx));
            } else {
                self.selection = Some((idx, idx));
            }
        } else {
            self.selection = Some((idx, idx));
        }
    }

    /// A drag starting on byte `idx` selects just that byte.
    pub fn drag_start(&mut self, idx: usize)
        ensures
            final(self).selection == Some((idx, idx)),
            final(self).first_row == old(self).first_row,
            final(self).focused == old(self).focused,
    {
        self.selection = Some((idx, idx));
    }

    /// Dragging over byte `idx` moves the end of the selection there.
    pub fn drag_to(&mut self, idx: usize)
        ensures
            final(self).selection == after_drag_to(old(self).selection, idx),
            final(self).first_row == old(self).first_row,
            final(self).focused == old(self).focused,
    {
        if let Some((anchor, _)) = self.selection {
            self.selection = Some((anchor, idx));
        }
    }

    /// A secondary click on byte `idx` selects it when nothing is selected,
    /// so that the context menu has something to copy.
    pub fn secondary_click(&mut self, idx: usize)
        ensures
            final(self).selection == after_secondary_click(old(self).selection, idx),
            final(self).first_row == old(self).first_row,
            final(self).focused == old(self).focused,
    {
        if self.selection.is_none() {
            self.selection = Some((idx, idx));
        }
    }

    /// The selected bytes as an inclusive range `(low, high)`.
    pub fn selected_range(&self) -> (r: Option<(usize, usize)>)
        ensures
            r == normalized(self.selection),
    {
        match self.selection {
            Some((a, b)) => Some((if a <= b {
                a
            } else {
                b
            }, if a <= b {
                b
            } else {
                a
            })),
            None => None,
        }
    }
}

/// Whether offset `idx` lies in the inclusive range `range`.
pub fn in_range(idx: usize, range: Option<(usize, usize)>) -> (b: bool)
    ensures
        b == (match range {
            Some((lo, hi)) => lo <= idx && idx <= hi,
            None => false,
        }),
{
    match range {
        Some((lo, hi)) => lo <= idx && idx <= hi,
        None => false,
    }
}

/// The bytes the context menu copies for the selection `lo..=hi`: the end
/// is cut back to the last byte of the data.
pub fn copy_bounds(lo: usize, hi: usize, data_len: usize) -> (r: (usize, usize))
    ensures
        r.0 == lo,
        r.1 == (if hi <= data_len - 1 { hi as int } else if data_len >= 1 { data_len - 1 } else {
            0
        }),
{
    let last = data_len.saturating_sub(1);
    (lo, if hi <= last {
        hi
    } else {
        last
    })
}

/// The heading of the context menu: `"1 byte"`, `"12 bytes"`.
pub fn byte_count_label(count: usize) -> (s: String)
    ensures
        s@ == decimal(count as nat) + (if count == 1 { " byte"@ } else { " bytes"@ }),
{
    let mut s = String::new();
    push_digits(&mut s, count as u64, 10, false);
    if count == 1 {
        push_str(&mut s, " byte");
    } else {
        push_str(&mut s, " bytes");
    }
    s
}

// ---------------------------------------------------------------------
// Search matches
// ---------------------------------------------------------------------

/// Offsets in ascending order.
pub open spec fn ascending(s: Seq<usize>) -> bool {
    forall|i: int, j: int| 0 <= i <= j < s.len() ==> s[i] <= s[j]
}

/// `a + b`, saturating at `usize::MAX`.
pub open spec fn sat_add(a: usize, b: usize) -> usize {
    if a + b <= usize::MAX { (a + b) as usize } else { usize::MAX }
}

/// The indices `first..last` of the matches that may show in the bytes
/// `visible_start..visible_end`: `first` counts the matches that end at or
/// before `visible_start`, `last` those that start before `visible_end`.
/// A match is `max(match_len, 1)` bytes long.
pub fn visible_match_range(
    matches: &[usize],
    match_len: usize,
    visible_start: usize,
    visible_end: usize,
) -> (r: (usize, usize))
    requires
        ascending(matches@),
    ensures
        r.0 <= matches.len(),
        r.1 <= matches.len(),
        forall|i: int|
            0 <= i < matches.len() ==> (i < r.0 <==> sat_add(
                #[trigger] matches@[i],
                if match_len == 0 { 1 } else { match_len },
            ) <= visible_start),
        forall|i: int| 0 <= i < matches.len() ==> (i < r.1 <==> #[trigger] matches@[i] < visible_end),
{
    if matches.len() == 0 {
        return (0, 0);
    }
    let ml = if match_len == 0 {
        1
    } else {
        match_len
    };
    let first = partition_ends_before(matches, ml, visible_start);
    let last = partition_starts_before(matches, visible_end);
    (first, last)
}

/// Number of matches ending at or before `bound` (binary search).
fn partition_ends_before(matches: &[usize], ml: usize, bound: usize) -> (k: usize)
    requires
        ascending(matches@),
    ensures
        k <= matches.len(),
        forall|i: int| 0 <= i < matches.len() ==> (i < k <==> sat_add(#[trigger] matches@[i], ml) <= bound),
{
    let mut lo: usize = 0;
    let mut hi: usize = matches.len();
    while lo < hi
        invariant
            lo <= hi <= matches.len(),
            ascending(matches@),
            forall|i: int| 0 <= i < lo ==> sat_add(#[trigger] matches@[i], ml) <= bound,
            forall|i: int| hi <= i < matches.len() ==> !(sat_add(#[trigger] matches@[i], ml) <= bound),
        decreases hi - lo,
    {
        let mid = lo + (hi - lo) / 2;
        if matches[mid].saturating_add(ml) <= bound {
            assert forall|i: int| 0 <= i <= mid implies sat_add(#[trigger] matches@[i], ml) <= bound by {
                assert(matches@[i] <= matches@[mid as int]);
            }
            lo = mid + 1;
        } else {
            assert forall|i: int| mid <= i < matches.len() implies !(sat_add(#[trigger] matches@[i], ml)
                <= bound) by {
                assert(matches@[mid as int] <= matches@[i]);
            }
            hi = mid;
        }
    }
    lo
}

/// Number of matches starting before `bound` (binary search).
fn partition_starts_before(matches: &[usize], bound: usize) -> (k: usize)
    requires
        ascending(matches@),
    ensures
        k <= matches.len(),
        forall|i: int| 0 <= i < matches.len() ==> (i < k <==> #[trigger] matches@[i] < bound),
{
    let mut lo: usize = 0;
    let mut hi: usize = matches.len();
    while lo < hi
        invariant
            lo <= hi <= matches.len(),
            ascending(matches@),
            forall|i: int| 0 <= i < lo ==> #[trigger] matches@[i] < bound,
            forall|i: int| hi <= i < matches.len() ==> !(#[trigger] matches@[i] < bound),
        decreases hi - lo,
    {
        let mid = lo + (hi - lo) / 2;
        if matches[mid] < bound {
            assert forall|i: int| 0 <= i <= mid implies #[trigger] matches@[i] < bound by {
                assert(matches@[i] <= matches@[mid as int]);
            }
            lo = mid + 1;
        } else {
            assert forall|i: int| mid <= i < matches.len() implies !(#[trigger] matches@[i] < bound) by {
                assert(matches@[mid as int] <= matches@[i]);
            }
            hi = mid;
        }
    }
    lo
}

/// The part `lo..hi` of the row `row_start..row_end` that the match of
/// `match_len` bytes at `match_start` covers, if any.
pub fn match_span(match_start: usize, match_len: usize, row_start: usize, row_end: usize) -> (r:
    Option<(usize, usize)>)
    ensures
        r == (if sat_add(match_start, match_len) <= row_start || match_start >= row_end {
            None::<(usize, usize)>
        } else {
            Some(
                (
                    if match_start >= row_start { match_start } else { row_start },
                    if sat_add(match_start, match_len) <= row_end {
                        sat_add(match_start, match_len)
                    } else {
                        row_end
                    },
                ),
            )
        }),
{
    let match_end = match_start.saturating_add(match_len);
    if match_end <= row_start || match_start >= row_end {
        return None;
    }
    Some(
        (
            if match_start >= row_start {
                match_start
            } else {
                row_start
            },
            if match_end <= row_end {
                match_end
            } else {
                row_end
            },
        ),
    )
}

// ---------------------------------------------------------------------
// Laws of the selection
// ---------------------------------------------------------------------

/// A selection of bytes of the data stays one when the pointer acts on a
/// byte of the data (as `byte_at` finds them): a click, a drag start, a drag
/// or a secondary click. A Shift-click or a drag keeps the anchor, and the
/// new end is the byte under the pointer.
pub proof fn lemma_selection_stays_in_range(sel: Option<(usize, usize)>, idx: usize, shift: bool, len: nat)
    requires
        selection_within(sel, len),
        idx < len,
    ensures
        selection_within(after_click(sel, idx, shift), len),
        selection_within(Some((idx, idx)), len),
        selection_within(after_drag_to(sel, idx), len),
        selection_within(after_secondary_click(sel, idx), len),
        sel matches Some((anchor, _)) ==> shift ==> after_click(sel, idx, shift) == Some((anchor, idx)),
        sel matches Some((anchor, _)) ==> after_drag_to(sel, idx) == Some((anchor, idx)),
{
}

/// A frame's navigation either keeps the selection or (Escape) drops it, so
/// a selection of bytes of the data stays one.
pub proof fn lemma_navigation_keeps_selection(s: HexNav, i: NavInput, len: nat, visible_rows: nat)
    requires
        selection_within(s.selection, len),
    ensures
        navigated(s, i, len, visible_rows).selection == s.selection || navigated(
            s,
            i,
            len,
            visible_rows,
        ).selection is None,
        selection_within(navigated(s, i, len, visible_rows).selection, len),
{
}

/// The bytes copied for a selection of bytes of the data are in bounds: the
/// normalized range `lo..=hi` has `lo <= hi < len`, so the context menu's
/// `copy_bounds` leaves it as it is.
pub proof fn lemma_copied_range_in_bounds(sel: Option<(usize, usize)>, len: nat)
    requires
        selection_within(sel, len),
        sel is Some,
    ensures
        normalized(sel) matches Some((lo, hi)) && lo <= hi && hi < len && hi <= len - 1,
{
}

/// The selected range runs from the smaller end to the larger: it holds
/// both ends, each bound is one of the ends, and swapping the ends changes
/// nothing.
pub proof fn lemma_selected_range_spans_both_ends(a: usize, b: usize)
    ensures
        normalized(Some((a, b))) == normalized(Some((b, a))),
        normalized(Some((a, b))) matches Some((lo, hi)) && {
            &&& lo <= a <= hi
            &&& lo <= b <= hi
            &&& (lo == a || lo == b)
            &&& (hi == a || hi == b)
        },
        normalized(None) is None,
{
}

// ---------------------------------------------------------------------
// Laws of the wheel
// ---------------------------------------------------------------------

/// The wheel scrolls the hex view only while the pointer is over it: with
/// the pointer elsewhere a frame ends the same with or without wheel input,
/// whatever the focus.
pub proof fn lemma_wheel_needs_pointer(s: HexNav, i: NavInput, len: nat, visible_rows: nat)
    requires
        !i.pointer_in_view,
    ensures
        navigated(s, i, len, visible_rows) == navigated(
            s,
            NavInput { scroll_rows: None, ..i },
            len,
            visible_rows,
        ),
{
}

/// With the pointer over the view, a wheel turn of `d` rows and no other
/// input moves the first row by `d`, stopping at row 0 and at the last row
/// that still fills the view (for data of a machine-size length).
pub proof fn lemma_wheel_scrolls(s: HexNav, i: NavInput, len: nat, visible_rows: nat, d: isize)
    requires
        len <= usize::MAX,
        i.pointer_in_view,
        i.scroll_rows == Some(d),
        !i.page_down,
        !i.page_up,
        i.center_offset is None,
    ensures
        ({
            let m = last_first_row(len, visible_rows);
            let r = s.first_row + d;
            navigated(s, i, len, visible_rows).first_row == (if r < 0 { 0 } else if r > m { m as int } else { r })
        }),
        navigated(s, i, len, visible_rows).focused == (if i.pointer_pressed { true } else { s.focused }),
{
}

} // verus!
