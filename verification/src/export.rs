//! Exported images: which parts of the caption are shown, the caption
//! text, and where the pixels of the 8x8 bitmap font go.

use vstd::prelude::*;

use crate::sampling::Algorithm;
use crate::text::{chars_of, decimal, push_digits, push_str};
use font8x8::UnicodeFonts;

verus! {

/// Which parts of the caption an exported image carries.
#[derive(Clone, Copy, PartialEq, Eq, Structural, Debug)]
pub struct ExportConfig {
    pub show_filename: bool,
    pub show_algorithm: bool,
    pub show_block_step: bool,
}

impl Default for ExportConfig {
    /// Every part of the caption is shown.
    fn default() -> (c: Self)
        ensures
            c == (ExportConfig { show_filename: true, show_algorithm: true, show_block_step: true }),
    {
        ExportConfig { show_filename: true, show_algorithm: true, show_block_step: true }
    }
}

/// `parts` joined with `sep` between neighbours.
pub open spec fn joined(parts: Seq<Seq<char>>, sep: Seq<char>) -> Seq<char>
    decreases parts.len(),
{
    if parts.len() == 0 {
        Seq::empty()
    } else if parts.len() == 1 {
        parts[0]
    } else {
        joined(parts.drop_last(), sep) + sep + parts.last()
    }
}

/// The caption parts that `config` asks for: file name, measure name, and
/// `block=<n> step=<n>`.
pub open spec fn caption_parts(
    config: ExportConfig,
    file_name: Seq<char>,
    label: Seq<char>,
    block_size: nat,
    step: nat,
) -> Seq<Seq<char>> {
    let p1 = if config.show_filename { seq![file_name] } else { Seq::<Seq<char>>::empty() };
    let p2 = if config.show_algorithm { p1.push(label) } else { p1 };
    if config.show_block_step {
        p2.push("block="@ + decimal(block_size) + " step="@ + decimal(step))
    } else {
        p2
    }
}

/// The caption of an exported image: the chosen parts joined by `" | "`, or
/// none when no part is chosen.
pub fn build_caption(
    config: &ExportConfig,
    file_name: &str,
    algorithm: Algorithm,
    block_size: usize,
    step: usize,
) -> (r: Option<String>)
    ensures
        ({
            let parts = caption_parts(
                *config,
                file_name@,
                algorithm.label_text(),
                block_size as nat,
                step as nat,
            );
            &&& r is None <==> parts.len() == 0
            &&& r matches Some(s) ==> s@ == joined(parts, " | "@)
        }),
{
    let ghost parts = caption_parts(
        *config,
        file_name@,
        algorithm.label_text(),
        block_size as nat,
        step as nat,
    );
    let mut out = String::new();
    let mut count: usize = 0;
    let ghost mut done: Seq<Seq<char>> = Seq::empty();
    if config.show_filename {
        push_str(&mut out, file_name);
        count = count + 1;
        proof {
            done = done.push(file_name@);
            assert(out@ =~= joined(done, " | "@));
        }
    }
    if config.show_algorithm {
        let ghost before = done;
        if count > 0 {
            push_str(&mut out, " | ");
        }
        push_str(&mut out, algorithm.label());
        count = count + 1;
        proof {
            done = done.push(algorithm.label_text());
            assert(done.drop_last() =~= before);
            assert(out@ =~= joined(done, " | "@));
        }
    }
    if config.show_block_step {
        let ghost before = done;
        if count > 0 {
            push_str(&mut out, " | ");
        }
        push_str(&mut out, "block=");
        push_digits(&mut out, block_size as u64, 10, false);
        push_str(&mut out, " step=");
        push_digits(&mut out, step as u64, 10, false);
        count = count + 1;
        proof {
            done = done.push("block="@ + decimal(block_size as nat) + " step="@ + decimal(step as nat));
            assert(done.drop_last() =~= before);
            assert(out@ =~= joined(done, " | "@));
        }
    }
    assert(done =~= parts);
    if count == 0 {
        None
    } else {
        Some(out)
    }
}

/// The caption shows the file name exactly when `show_filename` is set, the
/// measure's name exactly when `show_algorithm` is set, and
/// `block=<n> step=<n>` exactly when `show_block_step` is set, in that order
/// and separated by `" | "`; with no part chosen there is no caption.
pub proof fn lemma_caption_parts_follow_flags(
    config: ExportConfig,
    file_name: Seq<char>,
    label: Seq<char>,
    block_size: nat,
    step: nat,
)
    ensures
        ({
            let parts = caption_parts(config, file_name, label, block_size, step);
            let cap = joined(parts, " | "@);
            let sizes = "block="@ + decimal(block_size) + " step="@ + decimal(step);
            let sep = " | "@;
            let (f, a, b) = (config.show_filename, config.show_algorithm, config.show_block_step);
            &&& parts.len() == (if f { 1nat } else { 0 }) + (if a { 1nat } else { 0 }) + (if b { 1nat } else { 0 })
            &&& (parts.len() == 0 <==> !f && !a && !b)
            &&& (f && !a && !b) ==> cap == file_name
            &&& (!f && a && !b) ==> cap == label
            &&& (!f && !a && b) ==> cap == sizes
            &&& (f && a && !b) ==> cap == file_name + sep + label
            &&& (f && !a && b) ==> cap == file_name + sep + sizes
            &&& (!f && a && b) ==> cap == label + sep + sizes
            &&& (f && a && b) ==> cap == file_name + sep + label + sep + sizes
        }),
{
    let parts = caption_parts(config, file_name, label, block_size, step);
    reveal_with_fuel(joined, 4);
    if parts.len() == 2 {
        assert(parts.drop_last() =~= seq![parts[0]]);
    } else if parts.len() == 3 {
        assert(parts.drop_last() =~= seq![parts[0], parts[1]]);
        assert(parts.drop_last().drop_last() =~= seq![parts[0]]);
    }
}

// ---------------------------------------------------------------------
// Bitmap text
// ---------------------------------------------------------------------

/// The 8x8 glyph of a Basic Latin character in font8x8: eight rows, bit
/// `c` of a row set where column `c` is inked.
pub uninterp spec fn basic_glyph(c: char) -> Seq<u8>;

/// Calls `font8x8::BASIC_FONTS.get`. Trusted: it finds a glyph exactly for
/// the 128 characters U+0000 to U+007F (its table lists those, in order),
/// and the glyph is `basic_glyph` of the character.
#[verifier::external_body]
fn basic_font_glyph(c: char) -> (g: Option<[u8; 8]>)
    ensures
        g is Some <==> (c as u32) < 128,
        g matches Some(rows) ==> rows@ == basic_glyph(c),
{
    font8x8::BASIC_FONTS.get(c)
}

/// The glyph of each character of `text`, none for a character outside
/// Basic Latin (which is left blank).
pub fn text_glyphs(text: &str) -> (v: Vec<Option<[u8; 8]>>)
    ensures
        v.len() == text@.len(),
        forall|i: int|
            0 <= i < v.len() ==> (#[trigger] v@[i] is Some <==> (text@[i] as u32) < 128),
        forall|i: int|
            0 <= i < v.len() ==> (#[trigger] v@[i] matches Some(g) ==> g@ == basic_glyph(text@[i])),
{
    let chars = chars_of(text);
    let mut v: Vec<Option<[u8; 8]>> = Vec::new();
    let mut i: usize = 0;
    while i < chars.len()
        invariant
            i <= chars.len(),
            chars@ == text@,
            v.len() == i,
            forall|j: int| 0 <= j < i ==> (#[trigger] v@[j] is Some <==> (text@[j] as u32) < 128),
            forall|j: int|
                0 <= j < i ==> (#[trigger] v@[j] matches Some(g) ==> g@ == basic_glyph(text@[j])),
        decreases chars.len() - i,
    {
        v.push(basic_font_glyph(chars[i]));
        i = i + 1;
    }
    v
}

/// Whether column `col` of a glyph row is inked.
pub open spec fn inked(bits: u8, col: u8) -> bool {
    bits & (1u8 << col) != 0
}

/// The inked cells `(row, col)` among the first `k` cells of a glyph, in
/// row-major order.
pub open spec fn inked_cells(g: Seq<u8>, k: nat) -> Seq<(u8, u8)>
    decreases k,
{
    if k == 0 {
        Seq::empty()
    } else {
        let row = ((k - 1) / 8) as u8;
        let col = ((k - 1) % 8) as u8;
        let before = inked_cells(g, (k - 1) as nat);
        if inked(g[row as int], col) {
            before.push((row, col))
        } else {
            before
        }
    }
}

/// The inked cells `(row, col)` of a glyph, row by row, left to right.
pub fn glyph_cells(g: &[u8; 8]) -> (v: Vec<(u8, u8)>)
    ensures
        v@ == inked_cells(g@, 64),
{
    let mut v: Vec<(u8, u8)> = Vec::new();
    let mut k: u8 = 0;
    while k < 64
        invariant
            k <= 64,
            v@ == inked_cells(g@, k as nat),
        decreases 64 - k,
    {
        let row = k / 8;
        let col = k % 8;
        if g[row as usize] & (1u8 << col) != 0 {
            v.push((row, col));
        }
        k = k + 1;
    }
    v
}

} // verus!
