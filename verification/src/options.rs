//! The options panel: the measure, block and step sizes, theme and hex
//! colouring chosen, and when the graph has to be computed again.

use vstd::prelude::*;

use crate::sampling::{is_standard_size, standard_sizes, Algorithm};
use crate::text::{chars_of, decimal, parse_unsigned, parse_unsigned_in, push_digits, trim_bounds, trimmed};

verus! {

/// The settings of the options panel; `Th` is the theme type.
pub struct Options<Th> {
    pub algorithm: Algorithm,
    pub block_size: usize,
    pub step: usize,
    /// Index into `themes` of the theme in use.
    pub theme_index: usize,
    /// Whether hex cells are coloured by byte class.
    pub hex_byte_colors: bool,
    /// Whether the graph is out of date.
    pub needs_recompute: bool,
    pub custom_block_input: String,
    pub custom_step_input: String,
    pub themes: Vec<Th>,
}

/// The size that a custom size field holds: a decimal number, surrounding
/// whitespace ignored, that fits in `usize`.
pub open spec fn size_input_value(s: Seq<char>) -> Option<nat> {
    parse_unsigned(trimmed(s), 10, usize::MAX as nat)
}

/// Reads a custom size field.
pub fn parse_size_input(input: &str) -> (r: Option<usize>)
    ensures
        r is None <==> size_input_value(input@) is None,
        r matches Some(v) ==> size_input_value(input@) == Some(v as nat),
{
    let v = chars_of(input);
    let (start, end) = trim_bounds(&v);
    match parse_unsigned_in(&v, start, end, 10, usize::MAX as u64) {
        Some(x) => Some(x as usize),
        None => None,
    }
}

/// The size a custom field sets: a positive number other than the current
/// size; anything else changes nothing.
pub open spec fn custom_size(current: usize, input: Seq<char>) -> Option<usize> {
    match size_input_value(input) {
        Some(v) => if v > 0 && v != current { Some(v as usize) } else { None },
        None => None,
    }
}

/// The hint of a custom size field: the current size when it is not one of
/// the standard sizes, otherwise nothing.
pub open spec fn size_hint(current: usize) -> Seq<char> {
    if standard_sizes().contains(current) {
        Seq::empty()
    } else {
        decimal(current as nat)
    }
}

impl<Th> Options<Th> {
    /// The panel's invariant: positive block size and step, and a theme
    /// index that points into the theme list.
    pub open spec fn is_valid(&self) -> bool {
        &&& self.block_size > 0
        &&& self.step > 0
        &&& self.theme_index < self.themes.len()
    }

    /// Fresh options: Shannon entropy, the given sizes, the first theme,
    /// hex byte colours on, nothing to recompute.
    pub fn new(block_size: usize, step: usize, themes: Vec<Th>) -> (o: Self)
        ensures
            o.algorithm == Algorithm::Shannon,
            o.block_size == block_size,
            o.step == step,
            o.theme_index == 0,
            o.hex_byte_colors,
            !o.needs_recompute,
            o.custom_block_input@ == Seq::<char>::empty(),
            o.custom_step_input@ == Seq::<char>::empty(),
            o.themes@ == themes@,
            (block_size > 0 && step > 0 && themes.len() > 0) ==> o.is_valid(),
    {
        Options {
            algorithm: Algorithm::Shannon,
            block_size,
            step,
            theme_index: 0,
            hex_byte_colors: true,
            needs_recompute: false,
            custom_block_input: String::new(),
            custom_step_input: String::new(),
            themes,
        }
    }

    /// The theme in use.
    pub fn theme(&self) -> (t: &Th)
        requires
            self.theme_index < self.themes.len(),
        ensures
            *t == self.themes@[self.theme_index as int],
    {
        &self.themes[self.theme_index]
    }

    /// Choosing a measure; a different one makes the graph out of date.
    pub fn select_algorithm(&mut self, algorithm: Algorithm)
        ensures
            final(self).algorithm == algorithm,
            final(self).needs_recompute == (old(self).needs_recompute || old(self).algorithm
                != algorithm),
            final(self).block_size == old(self).block_size,
            final(self).step == old(self).step,
            final(self).theme_index == old(self).theme_index,
            final(self).themes@ == old(self).themes@,
            final(self).custom_block_input@ == old(self).custom_block_input@,
            final(self).custom_step_input@ == old(self).custom_step_input@,
            final(self).hex_byte_colors == old(self).hex_byte_colors,
            old(self).is_valid() ==> final(self).is_valid(),
    {
        if self.algorithm != algorithm {
            self.algorithm = algorithm;
            self.needs_recompute = true;
        }
    }

    /// Choosing a standard block size; a different one clears the custom
    /// field and makes the graph out of date.
    pub fn select_block_size(&mut self, size: usize)
        ensures
            final(self).block_size == size,
            old(self).block_size != size ==> final(self).needs_recompute
                && final(self).custom_block_input@ == Seq::<char>::empty(),
            old(self).block_size == size ==> final(self).needs_recompute == old(self).needs_recompute
                && final(self).custom_block_input@ == old(self).custom_block_input@,
            final(self).algorithm == old(self).algorithm,
            final(self).step == old(self).step,
            final(self).theme_index == old(self).theme_index,
            final(self).themes@ == old(self).themes@,
            final(self).custom_step_input@ == old(self).custom_step_input@,
            final(self).hex_byte_colors == old(self).hex_byte_colors,
            (old(self).is_valid() && size > 0) ==> final(self).is_valid(),
    {
        if self.block_size != size {
            self.block_size = size;
            self.custom_block_input = String::new();
            self.needs_recompute = true;
        }
    }

    /// Choosing a standard step; a different one clears the custom field and
    /// makes the graph out of date.
    pub fn select_step(&mut self, size: usize)
        ensures
            final(self).step == size,
            old(self).step != size ==> final(self).needs_recompute
                && final(self).custom_step_input@ == Seq::<char>::empty(),
            old(self).step == size ==> final(self).needs_recompute == old(self).needs_recompute
                && final(self).custom_step_input@ == old(self).custom_step_input@,
            final(self).algorithm == old(self).algorithm,
            final(self).block_size == old(self).block_size,
            final(self).theme_index == old(self).theme_index,
            final(self).themes@ == old(self).themes@,
            final(self).custom_block_input@ == old(self).custom_block_input@,
            final(self).hex_byte_colors == old(self).hex_byte_colors,
            (old(self).is_valid() && size > 0) ==> final(self).is_valid(),
    {
        if self.step != size {
            self.step = size;
            self.custom_step_input = String::new();
            self.needs_recompute = true;
        }
    }

    /// Enter in the custom block-size field: a positive number other than
    /// the current block size is taken.
    pub fn submit_block_input(&mut self)
        ensures
            final(self).block_size == (match custom_size(old(self).block_size, old(self).custom_block_input@) {
                Some(v) => v,
                None => old(self).block_size,
            }),
            final(self).needs_recompute == (old(self).needs_recompute || custom_size(
                old(self).block_size,
                old(self).custom_block_input@,
            ) is Some),
            final(self).algorithm == old(self).algorithm,
            final(self).step == old(self).step,
            final(self).theme_index == old(self).theme_index,
            final(self).themes@ == old(self).themes@,
            final(self).custom_block_input@ == old(self).custom_block_input@,
            final(self).custom_step_input@ == old(self).custom_step_input@,
            final(self).hex_byte_colors == old(self).hex_byte_colors,
            old(self).is_valid() ==> final(self).is_valid(),
    {
        if let Some(v) = parse_size_input(self.custom_block_input.as_str()) {
            if v > 0 && v != self.block_size {
                self.block_size = v;
                self.needs_recompute = true;
            }
        }
    }

    /// Enter in the custom step field: a positive number other than the
    /// current step is taken.
    pub fn submit_step_input(&mut self)
        ensures
            final(self).step == (match custom_size(old(self).step, old(self).custom_step_input@) {
                Some(v) => v,
                None => old(self).step,
            }),
            final(self).needs_recompute == (old(self).needs_recompute || custom_size(
                old(self).step,
                old(self).custom_step_input@,
            ) is Some),
            final(self).algorithm == old(self).algorithm,
            final(self).block_size == old(self).block_size,
            final(self).theme_index == old(self).theme_index,
            final(self).themes@ == old(self).themes@,
            final(self).custom_block_input@ == old(self).custom_block_input@,
            final(self).custom_step_input@ == old(self).custom_step_input@,
            final(self).hex_byte_colors == old(self).hex_byte_colors,
            old(self).is_valid() ==> final(self).is_valid(),
    {
        if let Some(v) = parse_size_input(self.custom_step_input.as_str()) {
            if v > 0 && v != self.step {
                self.step = v;
                self.needs_recompute = true;
            }
        }
    }

    /// The hint shown in the custom block-size field.
    pub fn block_hint(&self) -> (s: String)
        ensures
            s@ == size_hint(self.block_size),
    {
        size_hint_text(self.block_size)
    }

    /// The hint shown in the custom step field.
    pub fn step_hint(&self) -> (s: String)
        ensures
            s@ == size_hint(self.step),
    {
        size_hint_text(self.step)
    }

    /// Starts a recomputation when the graph is out of date and none is
    /// running; says whether one is to start.
    pub fn take_recompute(&mut self, computing: bool) -> (start: bool)
        ensures
            start == (old(self).needs_recompute && !computing),
            final(self).needs_recompute == (old(self).needs_recompute && computing),
            final(self).algorithm == old(self).algorithm,
            final(self).block_size == old(self).block_size,
            final(self).step == old(self).step,
            final(self).theme_index == old(self).theme_index,
            final(self).themes@ == old(self).themes@,
            final(self).custom_block_input@ == old(self).custom_block_input@,
            final(self).custom_step_input@ == old(self).custom_step_input@,
            final(self).hex_byte_colors == old(self).hex_byte_colors,
            old(self).is_valid() ==> final(self).is_valid(),
    {
        if self.needs_recompute && !computing {
            self.needs_recompute = false;
            true
        } else {
            false
        }
    }
}

fn size_hint_text(current: usize) -> (s: String)
    ensures
        s@ == size_hint(current),
{
    let mut s = String::new();
    if !is_standard_size(current) {
        push_digits(&mut s, current as u64, 10, false);
    }
    s
}

/// Every size the panel can set is positive: each standard size, and each
/// size a custom field is accepted with. So choosing a standard size or
/// submitting a custom field keeps the options valid.
pub proof fn lemma_panel_sizes_positive(current: usize, input: Seq<char>)
    ensures
        forall|i: int| 0 <= i < standard_sizes().len() ==> #[trigger] standard_sizes()[i] > 0,
        custom_size(current, input) matches Some(v) ==> v > 0 && v != current,
{
}

} // verus!
