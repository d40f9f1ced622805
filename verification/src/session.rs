//! The viewer's session state outside the widgets: the open file, the
//! cursor shared by graph and hex view, the status line, and the messages
//! and numbers that the dialogs read and show.

use vstd::prelude::*;

use std::path::PathBuf;

use crate::text::{chars_of, decimal, hex_upper, parse_unsigned, parse_unsigned_all, push_digits, push_str};
use crate::units::{format_size, size_text};

verus! {

#[verifier::external_type_specification]
#[verifier::external_body]
pub struct ExPathBuf(PathBuf);

/// The file being viewed, with the block and step sizes in force.
pub struct FileInfo {
    pub path: PathBuf,
    pub size: u64,
    pub block_size: usize,
    pub step: usize,
}

/// The cursor offset and how the hex view's scrolling is followed.
#[derive(Clone, Copy, PartialEq, Eq, Structural, Debug)]
pub struct CursorSync {
    /// The offset marked in graph and hex view.
    pub cursor_offset: u64,
    /// The top offset of the hex view in the previous frame.
    pub last_hex_offset: u64,
    /// Frames left in which hex-view scrolling does not move the cursor.
    pub sync_cooldown: u8,
}

/// Frames for which a jump holds the cursor against hex-view scrolling.
pub const JUMP_COOLDOWN: u8 = 5;

/// The offset a "go to" lands on: at most the last byte of the file.
pub open spec fn clamped_offset(offset: u64, file_size: u64) -> u64 {
    let last = if file_size >= 1 { (file_size - 1) as u64 } else { 0u64 };
    if offset <= last { offset } else { last }
}

/// The cursor state after the hex view reported `hex_offset` as its top:
/// during a hold the hold counts down; afterwards a changed top offset
/// becomes the cursor.
pub open spec fn followed(s: CursorSync, hex_offset: u64) -> CursorSync {
    if s.sync_cooldown > 0 {
        CursorSync {
            cursor_offset: s.cursor_offset,
            last_hex_offset: hex_offset,
            sync_cooldown: (s.sync_cooldown - 1) as u8,
        }
    } else {
        CursorSync {
            cursor_offset: if hex_offset != s.last_hex_offset { hex_offset } else { s.cursor_offset },
            last_hex_offset: hex_offset,
            sync_cooldown: 0,
        }
    }
}

/// The cursor state after the hex view reported the tops `hex_offsets`, one
/// per frame.
pub open spec fn followed_frames(s: CursorSync, hex_offsets: Seq<u64>) -> CursorSync
    decreases hex_offsets.len(),
{
    if hex_offsets.len() == 0 {
        s
    } else {
        followed_frames(followed(s, hex_offsets[0]), hex_offsets.drop_first())
    }
}

/// A jump holds: for as many frames as the hold lasts the cursor stays where
/// it was put, whatever the hex view does, and after the hold the cursor
/// is the hex view's top once that moves.
pub proof fn lemma_jump_holds(s: CursorSync, hex_offsets: Seq<u64>)
    ensures
        hex_offsets.len() <= s.sync_cooldown ==> followed_frames(s, hex_offsets).cursor_offset
            == s.cursor_offset,
        hex_offsets.len() <= s.sync_cooldown ==> followed_frames(s, hex_offsets).sync_cooldown
            == s.sync_cooldown - hex_offsets.len(),
    decreases hex_offsets.len(),
{
    if hex_offsets.len() > 0 && hex_offsets.len() <= s.sync_cooldown {
        lemma_jump_holds(followed(s, hex_offsets[0]), hex_offsets.drop_first());
    }
}

/// Once no hold is left, a frame in which the hex view's top moves puts the
/// cursor on the new top.
pub proof fn lemma_cursor_follows_after_hold(s: CursorSync, hex_offset: u64)
    requires
        s.sync_cooldown == 0,
        hex_offset != s.last_hex_offset,
    ensures
        followed(s, hex_offset).cursor_offset == hex_offset,
        followed(s, hex_offset).sync_cooldown == 0,
{
}

impl CursorSync {
    /// Puts the cursor on `offset` and holds it there for a few frames;
    /// returns the hex row to scroll to.
    pub fn jump_to(&mut self, offset: u64) -> (row: usize)
        ensures
            final(self).cursor_offset == offset,
            final(self).sync_cooldown == JUMP_COOLDOWN,
            final(self).last_hex_offset == old(self).last_hex_offset,
            row == (offset as usize) / 16,
    {
        self.cursor_offset = offset;
        self.sync_cooldown = JUMP_COOLDOWN;
        offset as usize / 16
    }

    /// A "go to offset" request: the offset is cut back to the last byte of
    /// the file, then jumped to.
    pub fn go_to(&mut self, offset: u64, file_size: u64) -> (row: usize)
        ensures
            final(self).cursor_offset == clamped_offset(offset, file_size),
            final(self).sync_cooldown == JUMP_COOLDOWN,
            final(self).last_hex_offset == old(self).last_hex_offset,
            row == (clamped_offset(offset, file_size) as usize) / 16,
    {
        let last = file_size.saturating_sub(1);
        let target = if offset <= last {
            offset
        } else {
            last
        };
        self.jump_to(target)
    }

    /// Follows the hex view after it is drawn: while the hold lasts it only
    /// counts down; afterwards a change of the view's top offset moves the
    /// cursor there.
    pub fn follow_hex_view(&mut self, hex_offset: u64)
        ensures
            *final(self) == followed(*old(self), hex_offset),
    {
        if self.sync_cooldown > 0 {
            self.sync_cooldown = self.sync_cooldown - 1;
        } else if hex_offset != self.last_hex_offset {
            self.cursor_offset = hex_offset;
        }
        self.last_hex_offset = hex_offset;
    }
}

/// The status line: file name, size, cursor and, with a selection `a, b`,
/// its bounds and length.
pub open spec fn status_text(name: Seq<char>, size: u64, cursor: u64, selection: Option<(usize, usize)>) -> Seq<char> {
    let base = name + " | "@ + size_text(size as nat) + " | Cursor: 0x"@ + hex_upper(cursor as nat);
    match selection {
        None => base,
        Some((a, b)) => {
            let lo = if a <= b { a } else { b };
            let hi = if a <= b { b } else { a };
            let count = (hi - lo + 1) as nat;
            base + " | Sel: 0x"@ + hex_upper(lo as nat) + "..0x"@ + hex_upper(hi as nat) + " ("@
                + decimal(count) + (if count == 1 { " byte)"@ } else { " bytes)"@ })
        },
    }
}

/// The status line shows the file name, size and cursor; with a selection it
/// adds the selection from its smaller end to its larger and the number of
/// bytes between them, both ends included, so swapping the ends changes
/// nothing.
pub proof fn lemma_status_selection(name: Seq<char>, size: u64, cursor: u64, a: usize, b: usize)
    ensures
        status_text(name, size, cursor, None) == name + " | "@ + size_text(size as nat) + " | Cursor: 0x"@
            + hex_upper(cursor as nat),
        status_text(name, size, cursor, Some((a, b))) == status_text(name, size, cursor, Some((b, a))),
        ({
            let lo = if a < b { a } else { b };
            let hi = if a < b { b } else { a };
            let count: int = if a >= b { a - b + 1 } else { b - a + 1 };
            status_text(name, size, cursor, Some((a, b))) == status_text(name, size, cursor, None)
                + " | Sel: 0x"@ + hex_upper(lo as nat) + "..0x"@ + hex_upper(hi as nat) + " ("@
                + decimal(count as nat) + (if a == b { " byte)"@ } else { " bytes)"@ })
        }),
{
    if a == b {
        assert(status_text(name, size, cursor, Some((a, b))) =~= status_text(name, size, cursor, Some((b, a))));
    }
}

/// The status line shown under the views.
pub fn status_line(name: &str, size: u64, cursor: u64, selection: Option<(usize, usize)>) -> (s:
    String)
    requires
        selection matches Some((a, b)) ==> !((a == 0 && b == usize::MAX) || (a == usize::MAX && b
            == 0)),
    ensures
        s@ == status_text(name@, size, cursor, selection),
{
    let mut s = String::new();
    push_str(&mut s, name);
    push_str(&mut s, " | ");
    let size_str = format_size(size);
    push_str(&mut s, size_str.as_str());
    push_str(&mut s, " | Cursor: 0x");
    push_digits(&mut s, cursor, 16, true);
    if let Some((a, b)) = selection {
        let lo = if a <= b {
            a
        } else {
            b
        };
        let hi = if a <= b {
            b
        } else {
            a
        };
        let count = hi - lo + 1;
        push_str(&mut s, " | Sel: 0x");
        push_digits(&mut s, lo as u64, 16, true);
        push_str(&mut s, "..0x");
        push_digits(&mut s, hi as u64, 16, true);
        push_str(&mut s, " (");
        push_digits(&mut s, count as u64, 10, false);
        if count == 1 {
            push_str(&mut s, " byte)");
        } else {
            push_str(&mut s, " bytes)");
        }
    }
    s
}

/// The warning shown after a large file's sizes were adapted.
pub open spec fn adapt_warning_text(file_size: nat, block_size: nat, step: nat) -> Seq<char> {
    "Large file: auto-adjusted block="@ + decimal(block_size) + " step="@ + decimal(step) + " ("@
        + decimal(file_size / step) + " points)"@
}

/// The warning for the sizes that `auto_adapt` returned, when they were
/// adapted.
pub fn adapt_warning(file_size: usize, block_size: usize, step: usize, adapted: bool) -> (r: Option<
    String,
>)
    requires
        adapted ==> step > 0,
    ensures
        adapted <==> r is Some,
        r matches Some(s) ==> s@ == adapt_warning_text(file_size as nat, block_size as nat, step as nat),
{
    if !adapted {
        return None;
    }
    let mut s = String::new();
    push_str(&mut s, "Large file: auto-adjusted block=");
    push_digits(&mut s, block_size as u64, 10, false);
    push_str(&mut s, " step=");
    push_digits(&mut s, step as u64, 10, false);
    push_str(&mut s, " (");
    push_digits(&mut s, (file_size / step) as u64, 10, false);
    push_str(&mut s, " points)");
    Some(s)
}

/// An image dimension typed in the export dialog: a decimal number that
/// fits in 32 bits, otherwise `default`.
pub fn parse_dimension(input: &str, default: u32) -> (r: u32)
    ensures
        r == (match parse_unsigned(input@, 10, u32::MAX as nat) {
            Some(v) => v as u32,
            None => default,
        }),
{
    let v = chars_of(input);
    match parse_unsigned_all(&v, 10, u32::MAX as u64) {
        Some(x) => x as u32,
        None => default,
    }
}

} // verus!
