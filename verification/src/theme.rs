//! Colour themes: colours, the built-in themes, reading colours from theme
//! files, and merging theme files with the built-in themes.

use vstd::prelude::*;

use crate::text::{digit_char, hex_pair};
use vstd::string::StringSliceAdditionalSpecFns;
use vstd::utf8::{encode_utf8, is_ascii_chars, is_ascii_chars_encode_utf8};

verus! {

/// An opaque RGB colour.
#[derive(Clone, Copy, PartialEq, Eq, Structural, Debug)]
pub struct Rgb {
    pub r: u8,
    pub g: u8,
    pub b: u8,
}

/// A colour from its three channels.
pub fn rgb(r: u8, g: u8, b: u8) -> (c: Rgb)
    ensures
        c == (Rgb { r, g, b }),
{
    Rgb { r, g, b }
}

/// Colours of the hex view, by byte class.
#[derive(Clone, Copy, PartialEq, Eq, Structural, Debug)]
pub struct HexPalette {
    pub null: Rgb,
    pub whitespace: Rgb,
    pub printable: Rgb,
    pub control: Rgb,
    pub non_ascii: Rgb,
}

/// `c` lightened by `amount` in every channel, saturating at 255.
pub open spec fn lightened(c: Rgb, amount: u8) -> Rgb {
    Rgb {
        r: if c.r + amount <= 255 { (c.r + amount) as u8 } else { 255 },
        g: if c.g + amount <= 255 { (c.g + amount) as u8 } else { 255 },
        b: if c.b + amount <= 255 { (c.b + amount) as u8 } else { 255 },
    }
}

/// `c` darkened by `amount` in every channel, saturating at 0.
pub open spec fn darkened(c: Rgb, amount: u8) -> Rgb {
    Rgb {
        r: if c.r >= amount { (c.r - amount) as u8 } else { 0 },
        g: if c.g >= amount { (c.g - amount) as u8 } else { 0 },
        b: if c.b >= amount { (c.b - amount) as u8 } else { 0 },
    }
}

/// Lightens every channel by `amount`, saturating.
pub fn lighten(c: Rgb, amount: u8) -> (r: Rgb)
    ensures
        r == lightened(c, amount),
{
    Rgb {
        r: c.r.saturating_add(amount),
        g: c.g.saturating_add(amount),
        b: c.b.saturating_add(amount),
    }
}

/// Darkens every channel by `amount`, saturating.
pub fn darken(c: Rgb, amount: u8) -> (r: Rgb)
    ensures
        r == darkened(c, amount),
{
    Rgb {
        r: c.r.saturating_sub(amount),
        g: c.g.saturating_sub(amount),
        b: c.b.saturating_sub(amount),
    }
}

// ---------------------------------------------------------------------
// Reading colours
// ---------------------------------------------------------------------

/// The value of an ASCII hex digit byte.
pub open spec fn hex_digit_byte(x: u8) -> Option<u8> {
    if 0x30 <= x <= 0x39 {
        Some((x - 0x30) as u8)
    } else if 0x61 <= x <= 0x66 {
        Some((x - 0x57) as u8)
    } else if 0x41 <= x <= 0x46 {
        Some((x - 0x37) as u8)
    } else {
        None
    }
}

/// What `u8::from_str_radix(_, 16)` gives for a two-byte string: two hex
/// digits, or `+` and one hex digit.
pub open spec fn hex_byte_value(x: u8, y: u8) -> Option<u8> {
    if x == 0x2b {
        hex_digit_byte(y)
    } else {
        match (hex_digit_byte(x), hex_digit_byte(y)) {
            (Some(a), Some(b)) => Some((a * 16 + b) as u8),
            _ => None,
        }
    }
}

/// The bytes of a colour text without its optional leading `#`.
pub open spec fn color_digits(b: Seq<u8>) -> Seq<u8> {
    if b.len() > 0 && b[0] == 0x23 {
        b.drop_first()
    } else {
        b
    }
}

/// The colour that the UTF-8 bytes `b` of a text `#RRGGBB` or `RRGGBB` name.
pub open spec fn hex_color_of(b: Seq<u8>) -> Option<Rgb> {
    let t = color_digits(b);
    if t.len() != 6 {
        None
    } else {
        match (hex_byte_value(t[0], t[1]), hex_byte_value(t[2], t[3]), hex_byte_value(t[4], t[5])) {
            (Some(r), Some(g), Some(bl)) => Some(Rgb { r, g, b: bl }),
            _ => None,
        }
    }
}

/// Whether a byte continues a multi-byte UTF-8 character.
pub open spec fn continues_char(x: u8) -> bool {
    0x80 <= x < 0xc0
}

/// The colour text can be cut into its three two-byte fields: slicing a
/// string inside a character panics, so a six-byte text whose field border
/// falls inside a character is not accepted (the second border is reached
/// only when the first field is a number).
pub open spec fn color_text_sliceable(b: Seq<u8>) -> bool {
    let t = color_digits(b);
    t.len() == 6 ==> {
        &&& !continues_char(t[2])
        &&& hex_byte_value(t[0], t[1]) is Some ==> !continues_char(t[4])
    }
}

fn hex_digit_of(x: u8) -> (r: Option<u8>)
    ensures
        r == hex_digit_byte(x),
{
    if 0x30 <= x && x <= 0x39 {
        Some(x - 0x30)
    } else if 0x61 <= x && x <= 0x66 {
        Some(x - 0x57)
    } else if 0x41 <= x && x <= 0x46 {
        Some(x - 0x37)
    } else {
        None
    }
}

fn hex_byte(x: u8, y: u8) -> (r: Option<u8>)
    ensures
        r == hex_byte_value(x, y),
{
    if x == 0x2b {
        hex_digit_of(y)
    } else {
        match (hex_digit_of(x), hex_digit_of(y)) {
            (Some(a), Some(b)) => Some(a * 16 + b),
            _ => None,
        }
    }
}

/// Reads a colour written `#RRGGBB` or `RRGGBB` in hexadecimal.
pub fn parse_hex_color(s: &str) -> (r: Option<Rgb>)
    requires
        color_text_sliceable(s.spec_bytes()),
    ensures
        r == hex_color_of(s.spec_bytes()),
{
    let all = s.as_bytes();
    let start: usize = if all.len() > 0 && all[0] == 0x23 {
        1
    } else {
        0
    };
    let ghost t = color_digits(all@);
    assert(t =~= all@.skip(start as int));
    if all.len() - start != 6 {
        return None;
    }
    let r = match hex_byte(all[start], all[start + 1]) {
        Some(v) => v,
        None => return None,
    };
    let g = match hex_byte(all[start + 2], all[start + 3]) {
        Some(v) => v,
        None => return None,
    };
    let b = match hex_byte(all[start + 4], all[start + 5]) {
        Some(v) => v,
        None => return None,
    };
    Some(Rgb { r, g, b })
}

/// `#RRGGBB` in upper-case hex, the form theme files use.
pub open spec fn color_hex_text(c: Rgb) -> Seq<char> {
    "#"@ + hex_pair(c.r) + hex_pair(c.g) + hex_pair(c.b)
}

// ---------------------------------------------------------------------
// Themes
// ---------------------------------------------------------------------

/// Everything of a theme but its name and graph bands.
#[derive(Clone, Copy, PartialEq, Eq, Structural, Debug)]
pub struct ThemeStyle {
    pub bg: Rgb,
    pub text: Rgb,
    pub grid: Rgb,
    pub caption: Rgb,
    pub error: Rgb,
    /// Whether the interface is built on the dark or the light look.
    pub dark: bool,
    pub hex: HexPalette,
}

/// A colour theme. A band `(t, c)` colours graph values from the fraction
/// `t` of the value range on with `c`; `T` is the number type of those
/// fractions, which this library only carries.
#[derive(Clone)]
pub struct ColorTheme<T> {
    pub name: String,
    pub bands: Vec<(T, Rgb)>,
    pub style: ThemeStyle,
}

/// A theme as values: name, bands, style.
pub type ThemeView<T> = (Seq<char>, Seq<(T, Rgb)>, ThemeStyle);

impl<T> View for ColorTheme<T> {
    type V = ThemeView<T>;

    open spec fn view(&self) -> ThemeView<T> {
        (self.name@, self.bands@, self.style)
    }
}

/// The themes of a list, as values.
pub open spec fn theme_views<T>(v: Seq<ColorTheme<T>>) -> Seq<ThemeView<T>> {
    v.map_values(|t: ColorTheme<T>| t@)
}

pub open spec fn c(r: u8, g: u8, b: u8) -> Rgb {
    Rgb { r, g, b }
}

/// Style of the built-in "Dark" theme.
pub open spec fn dark_style() -> ThemeStyle {
    ThemeStyle {
        bg: c(30, 30, 30),
        text: c(160, 160, 160),
        grid: c(50, 50, 50),
        caption: c(200, 200, 200),
        error: c(255, 80, 80),
        dark: true,
        hex: HexPalette {
            null: c(90, 90, 90),
            whitespace: c(80, 170, 255),
            printable: c(95, 220, 95),
            control: c(190, 115, 255),
            non_ascii: c(255, 120, 80),
        },
    }
}

/// Style of the built-in "Light" theme.
pub open spec fn light_style() -> ThemeStyle {
    ThemeStyle {
        bg: c(245, 245, 245),
        text: c(60, 60, 60),
        grid: c(200, 200, 200),
        caption: c(40, 40, 40),
        error: c(200, 30, 30),
        dark: false,
        hex: HexPalette {
            null: c(140, 140, 140),
            whitespace: c(20, 95, 190),
            printable: c(20, 135, 45),
            control: c(125, 70, 185),
            non_ascii: c(190, 65, 30),
        },
    }
}

/// Style of the built-in "Gruvbox Dark" theme.
pub open spec fn gruvbox_dark_style() -> ThemeStyle {
    ThemeStyle {
        bg: c(40, 40, 40),
        text: c(189, 174, 147),
        grid: c(80, 73, 69),
        caption: c(235, 219, 178),
        error: c(251, 73, 52),
        dark: true,
        hex: HexPalette {
            null: c(102, 92, 84),
            whitespace: c(131, 165, 152),
            printable: c(184, 187, 38),
            control: c(211, 134, 155),
            non_ascii: c(254, 128, 25),
        },
    }
}

/// Style of the built-in "Gruvbox Light" theme.
pub open spec fn gruvbox_light_style() -> ThemeStyle {
    ThemeStyle {
        bg: c(251, 241, 199),
        text: c(80, 73, 69),
        grid: c(213, 196, 161),
        caption: c(60, 56, 54),
        error: c(204, 36, 29),
        dark: false,
        hex: HexPalette {
            null: c(168, 153, 132),
            whitespace: c(7, 102, 120),
            printable: c(121, 116, 14),
            control: c(143, 63, 113),
            non_ascii: c(175, 58, 3),
        },
    }
}

fn dark_style_value() -> (s: ThemeStyle)
    ensures
        s == dark_style(),
{
    ThemeStyle {
        bg: rgb(30, 30, 30),
        text: rgb(160, 160, 160),
        grid: rgb(50, 50, 50),
        caption: rgb(200, 200, 200),
        error: rgb(255, 80, 80),
        dark: true,
        hex: HexPalette {
            null: rgb(90, 90, 90),
            whitespace: rgb(80, 170, 255),
            printable: rgb(95, 220, 95),
            control: rgb(190, 115, 255),
            non_ascii: rgb(255, 120, 80),
        },
    }
}

fn light_style_value() -> (s: ThemeStyle)
    ensures
        s == light_style(),
{
    ThemeStyle {
        bg: rgb(245, 245, 245),
        text: rgb(60, 60, 60),
        grid: rgb(200, 200, 200),
        caption: rgb(40, 40, 40),
        error: rgb(200, 30, 30),
        dark: false,
        hex: HexPalette {
            null: rgb(140, 140, 140),
            whitespace: rgb(20, 95, 190),
            printable: rgb(20, 135, 45),
            control: rgb(125, 70, 185),
            non_ascii: rgb(190, 65, 30),
        },
    }
}

fn gruvbox_dark_style_value() -> (s: ThemeStyle)
    ensures
        s == gruvbox_dark_style(),
{
    ThemeStyle {
        bg: rgb(40, 40, 40),
        text: rgb(189, 174, 147),
        grid: rgb(80, 73, 69),
        caption: rgb(235, 219, 178),
        error: rgb(251, 73, 52),
        dark: true,
        hex: HexPalette {
            null: rgb(102, 92, 84),
            whitespace: rgb(131, 165, 152),
            printable: rgb(184, 187, 38),
            control: rgb(211, 134, 155),
            non_ascii: rgb(254, 128, 25),
        },
    }
}

fn gruvbox_light_style_value() -> (s: ThemeStyle)
    ensures
        s == gruvbox_light_style(),
{
    ThemeStyle {
        bg: rgb(251, 241, 199),
        text: rgb(80, 73, 69),
        grid: rgb(213, 196, 161),
        caption: rgb(60, 56, 54),
        error: rgb(204, 36, 29),
        dark: false,
        hex: HexPalette {
            null: rgb(168, 153, 132),
            whitespace: rgb(7, 102, 120),
            printable: rgb(121, 116, 14),
            control: rgb(143, 63, 113),
            non_ascii: rgb(175, 58, 3),
        },
    }
}

/// Four bands at the given levels.
pub open spec fn banded<T>(levels: Seq<T>, colors: Seq<Rgb>) -> Seq<(T, Rgb)> {
    Seq::new(4, |i: int| (levels[i], colors[i]))
}

fn four_bands<T: Copy>(levels: &[T; 4], c0: Rgb, c1: Rgb, c2: Rgb, c3: Rgb) -> (v: Vec<(T, Rgb)>)
    ensures
        v@ == banded(levels@, seq![c0, c1, c2, c3]),
{
    let mut v: Vec<(T, Rgb)> = Vec::new();
    v.push((levels[0], c0));
    v.push((levels[1], c1));
    v.push((levels[2], c2));
    v.push((levels[3], c3));
    assert(v@ =~= banded(levels@, seq![c0, c1, c2, c3]));
    v
}

impl<T: Copy> ColorTheme<T> {
    /// The built-in "Dark" theme, its four bands (blue, green, orange, red)
    /// starting at `levels`.
    pub fn dark(levels: &[T; 4]) -> (t: Self)
        ensures
            t@ == dark_theme(levels@),
    {
        ColorTheme {
            name: String::from_str("Dark"),
            bands: four_bands(levels, rgb(33, 150, 243), rgb(76, 175, 80), rgb(255, 152, 0), rgb(244, 67, 54)),
            style: dark_style_value(),
        }
    }

    /// The built-in "Light" theme.
    pub fn light(levels: &[T; 4]) -> (t: Self)
        ensures
            t@ == light_theme(levels@),
    {
        ColorTheme {
            name: String::from_str("Light"),
            bands: four_bands(levels, rgb(21, 101, 192), rgb(0, 121, 107), rgb(230, 126, 34), rgb(183, 28, 28)),
            style: light_style_value(),
        }
    }

    /// The built-in "Gruvbox Dark" theme.
    pub fn gruvbox_dark(levels: &[T; 4]) -> (t: Self)
        ensures
            t@ == gruvbox_dark_theme(levels@),
    {
        ColorTheme {
            name: String::from_str("Gruvbox Dark"),
            bands: four_bands(levels, rgb(69, 133, 136), rgb(152, 151, 26), rgb(214, 93, 14), rgb(204, 36, 29)),
            style: gruvbox_dark_style_value(),
        }
    }

    /// The built-in "Gruvbox Light" theme.
    pub fn gruvbox_light(levels: &[T; 4]) -> (t: Self)
        ensures
            t@ == gruvbox_light_theme(levels@),
    {
        ColorTheme {
            name: String::from_str("Gruvbox Light"),
            bands: four_bands(levels, rgb(7, 102, 120), rgb(121, 116, 14), rgb(175, 58, 3), rgb(157, 0, 6)),
            style: gruvbox_light_style_value(),
        }
    }
}

/// The built-in themes, in the order the theme selector lists them.
pub fn builtin_themes<T: Copy>(levels: &[T; 4]) -> (v: Vec<ColorTheme<T>>)
    ensures
        v.len() == 4,
        theme_views(v@) == builtin_views(levels@),
{
    let mut v: Vec<ColorTheme<T>> = Vec::new();
    v.push(ColorTheme::dark(levels));
    v.push(ColorTheme::light(levels));
    v.push(ColorTheme::gruvbox_dark(levels));
    v.push(ColorTheme::gruvbox_light(levels));
    assert(theme_views(v@) =~= builtin_views(levels@));
    v
}

/// The built-in "Dark" theme: blue, green, orange and red bands.
pub open spec fn dark_theme<T>(levels: Seq<T>) -> ThemeView<T> {
    ("Dark"@, banded(levels, seq![c(33, 150, 243), c(76, 175, 80), c(255, 152, 0), c(244, 67, 54)]), dark_style())
}

/// The built-in "Light" theme.
pub open spec fn light_theme<T>(levels: Seq<T>) -> ThemeView<T> {
    ("Light"@, banded(levels, seq![c(21, 101, 192), c(0, 121, 107), c(230, 126, 34), c(183, 28, 28)]), light_style())
}

/// The built-in "Gruvbox Dark" theme.
pub open spec fn gruvbox_dark_theme<T>(levels: Seq<T>) -> ThemeView<T> {
    ("Gruvbox Dark"@, banded(levels, seq![c(69, 133, 136), c(152, 151, 26), c(214, 93, 14), c(204, 36, 29)]), gruvbox_dark_style())
}

/// The built-in "Gruvbox Light" theme.
pub open spec fn gruvbox_light_theme<T>(levels: Seq<T>) -> ThemeView<T> {
    ("Gruvbox Light"@, banded(levels, seq![c(7, 102, 120), c(121, 116, 14), c(175, 58, 3), c(157, 0, 6)]), gruvbox_light_style())
}

/// The built-in themes, in order.
pub open spec fn builtin_views<T>(levels: Seq<T>) -> Seq<ThemeView<T>> {
    seq![dark_theme(levels), light_theme(levels), gruvbox_dark_theme(levels), gruvbox_light_theme(levels)]
}

// ---------------------------------------------------------------------
// Theme files
// ---------------------------------------------------------------------

/// A band of a theme file: where it starts, and its colour text.
pub struct BandEntry<T> {
    pub threshold: T,
    pub color: String,
}

/// The hex-view colours of a theme file, each optional.
pub struct HexPaletteFile {
    pub null: Option<String>,
    pub whitespace: Option<String>,
    pub printable: Option<String>,
    pub control: Option<String>,
    pub non_ascii: Option<String>,
}

/// A theme as a theme file writes it; missing colours come from the
/// built-in "Dark" or "Light" theme.
pub struct ThemeFile<T> {
    pub name: String,
    pub bands: Vec<BandEntry<T>>,
    pub bg: Option<String>,
    pub text: Option<String>,
    pub grid: Option<String>,
    pub caption: Option<String>,
    pub error: Option<String>,
    pub dark: Option<bool>,
    pub hex: Option<HexPaletteFile>,
}

/// The colour that an optional colour text gives, or `fallback` when it is
/// missing or not a colour.
pub open spec fn color_or(text: Option<String>, fallback: Rgb) -> Rgb {
    match text {
        Some(t) => match hex_color_of(encode_utf8(t@)) {
            Some(col) => col,
            None => fallback,
        },
        None => fallback,
    }
}

/// An optional colour text can be read without a slicing panic.
pub open spec fn readable(text: Option<String>) -> bool {
    match text {
        Some(t) => color_text_sliceable(encode_utf8(t@)),
        None => true,
    }
}

/// The bands of a file whose colour reads, in file order.
pub open spec fn kept_bands<T>(b: Seq<BandEntry<T>>) -> Seq<(T, Rgb)>
    decreases b.len(),
{
    if b.len() == 0 {
        Seq::empty()
    } else {
        let rest = kept_bands(b.drop_last());
        match hex_color_of(encode_utf8(b.last().color@)) {
            Some(col) => rest.push((b.last().threshold, col)),
            None => rest,
        }
    }
}

/// Every band colour of a file can be read without a slicing panic.
pub open spec fn bands_readable<T>(b: Seq<BandEntry<T>>) -> bool {
    forall|i: int| 0 <= i < b.len() ==> color_text_sliceable(encode_utf8(#[trigger] b[i].color@))
}

/// The style of a theme file: dark unless it says otherwise, each colour
/// from the file or else from the built-in "Dark" or "Light" style.
pub open spec fn file_style<T>(f: ThemeFile<T>) -> ThemeStyle {
    let dark = match f.dark {
        Some(d) => d,
        None => true,
    };
    let base = if dark { dark_style() } else { light_style() };
    let h = f.hex;
    ThemeStyle {
        bg: color_or(f.bg, base.bg),
        text: color_or(f.text, base.text),
        grid: color_or(f.grid, base.grid),
        caption: color_or(f.caption, base.caption),
        error: color_or(f.error, base.error),
        dark,
        hex: HexPalette {
            null: match h { Some(p) => color_or(p.null, base.hex.null), None => base.hex.null },
            whitespace: match h {
                Some(p) => color_or(p.whitespace, base.hex.whitespace),
                None => base.hex.whitespace,
            },
            printable: match h {
                Some(p) => color_or(p.printable, base.hex.printable),
                None => base.hex.printable,
            },
            control: match h { Some(p) => color_or(p.control, base.hex.control), None => base.hex.control },
            non_ascii: match h {
                Some(p) => color_or(p.non_ascii, base.hex.non_ascii),
                None => base.hex.non_ascii,
            },
        },
    }
}

/// Every optional colour of a file can be read without a slicing panic.
pub open spec fn style_readable<T>(f: ThemeFile<T>) -> bool {
    &&& readable(f.bg)
    &&& readable(f.text)
    &&& readable(f.grid)
    &&& readable(f.caption)
    &&& readable(f.error)
    &&& f.hex matches Some(p) ==> {
        &&& readable(p.null)
        &&& readable(p.whitespace)
        &&& readable(p.printable)
        &&& readable(p.control)
        &&& readable(p.non_ascii)
    }
}

/// Some theme in `acc` is called `name`.
pub open spec fn name_taken<T>(acc: Seq<ThemeView<T>>, name: Seq<char>) -> bool {
    exists|i: int| 0 <= i < acc.len() && (#[trigger] acc[i]).0 == name
}

/// Adding one theme file: a file whose name is taken, or none of whose band
/// colours reads, is skipped.
pub open spec fn with_file<T>(acc: Seq<ThemeView<T>>, f: ThemeFile<T>) -> Seq<ThemeView<T>> {
    if name_taken(acc, f.name@) || kept_bands(f.bands@).len() == 0 {
        acc
    } else {
        acc.push((f.name@, kept_bands(f.bands@), file_style(f)))
    }
}

/// Adding one theme file reads no colour text that would panic.
pub open spec fn file_readable<T>(acc: Seq<ThemeView<T>>, f: ThemeFile<T>) -> bool {
    !name_taken(acc, f.name@) ==> {
        &&& bands_readable(f.bands@)
        &&& kept_bands(f.bands@).len() > 0 ==> style_readable(f)
    }
}

/// The themes after adding the files in order.
pub open spec fn with_files<T>(acc: Seq<ThemeView<T>>, files: Seq<ThemeFile<T>>) -> Seq<ThemeView<T>>
    decreases files.len(),
{
    if files.len() == 0 {
        acc
    } else {
        with_files(with_file(acc, files[0]), files.drop_first())
    }
}

/// Adding the files in order reads no colour text that would panic.
pub open spec fn files_readable<T>(acc: Seq<ThemeView<T>>, files: Seq<ThemeFile<T>>) -> bool
    decreases files.len(),
{
    files.len() == 0 || (file_readable(acc, files[0]) && files_readable(
        with_file(acc, files[0]),
        files.drop_first(),
    ))
}

fn color_or_else(text: &Option<String>, fallback: Rgb) -> (r: Rgb)
    requires
        readable(*text),
    ensures
        r == color_or(*text, fallback),
{
    match text {
        Some(t) => match parse_hex_color(t.as_str()) {
            Some(col) => col,
            None => fallback,
        },
        None => fallback,
    }
}

fn palette_color(h: &Option<HexPaletteFile>, pick: u8, fallback: Rgb) -> (r: Rgb)
    requires
        pick < 5,
        h matches Some(p) ==> readable(
            if pick == 0 { p.null } else if pick == 1 { p.whitespace } else if pick == 2 { p.printable } else if pick == 3 { p.control } else { p.non_ascii },
        ),
    ensures
        r == match *h {
            Some(p) => color_or(
                if pick == 0 { p.null } else if pick == 1 { p.whitespace } else if pick == 2 { p.printable } else if pick == 3 { p.control } else { p.non_ascii },
                fallback,
            ),
            None => fallback,
        },
{
    match h {
        Some(p) => {
            if pick == 0 {
                color_or_else(&p.null, fallback)
            } else if pick == 1 {
                color_or_else(&p.whitespace, fallback)
            } else if pick == 2 {
                color_or_else(&p.printable, fallback)
            } else if pick == 3 {
                color_or_else(&p.control, fallback)
            } else {
                color_or_else(&p.non_ascii, fallback)
            }
        },
        None => fallback,
    }
}

/// The style of a theme file.
fn style_of<T>(f: &ThemeFile<T>) -> (s: ThemeStyle)
    requires
        style_readable(*f),
    ensures
        s == file_style(*f),
{
    let dark = match f.dark {
        Some(d) => d,
        None => true,
    };
    let base = if dark {
        dark_style_value()
    } else {
        light_style_value()
    };
    ThemeStyle {
        bg: color_or_else(&f.bg, base.bg),
        text: color_or_else(&f.text, base.text),
        grid: color_or_else(&f.grid, base.grid),
        caption: color_or_else(&f.caption, base.caption),
        error: color_or_else(&f.error, base.error),
        dark,
        hex: HexPalette {
            null: palette_color(&f.hex, 0, base.hex.null),
            whitespace: palette_color(&f.hex, 1, base.hex.whitespace),
            printable: palette_color(&f.hex, 2, base.hex.printable),
            control: palette_color(&f.hex, 3, base.hex.control),
            non_ascii: palette_color(&f.hex, 4, base.hex.non_ascii),
        },
    }
}

/// The bands of a theme file whose colours read.
fn bands_of<T: Copy>(bands: &Vec<BandEntry<T>>) -> (v: Vec<(T, Rgb)>)
    requires
        bands_readable(bands@),
    ensures
        v@ == kept_bands(bands@),
{
    let mut v: Vec<(T, Rgb)> = Vec::new();
    let mut i: usize = 0;
    while i < bands.len()
        invariant
            i <= bands.len(),
            bands_readable(bands@),
            v@ == kept_bands(bands@.take(i as int)),
        decreases bands.len() - i,
    {
        let ghost before = v@;
        let b = &bands[i];
        assert(bands@.take(i + 1).drop_last() =~= bands@.take(i as int));
        assert(bands@.take(i + 1).last() == bands@[i as int]);
        assert(color_text_sliceable(encode_utf8(bands@[i as int].color@)));
        match parse_hex_color(b.color.as_str()) {
            Some(col) => {
                v.push((b.threshold, col));
            },
            None => {},
        }
        i = i + 1;
    }
    assert(bands@.take(bands.len() as int) =~= bands@);
    v
}

/// Whether a theme of the list is called `name`.
fn has_theme_named<T>(themes: &Vec<ColorTheme<T>>, name: &String) -> (b: bool)
    ensures
        b == name_taken(theme_views(themes@), name@),
{
    let mut i: usize = 0;
    while i < themes.len()
        invariant
            i <= themes.len(),
            forall|j: int| 0 <= j < i ==> themes@[j].name@ != name@,
        decreases themes.len() - i,
    {
        if themes[i].name == *name {
            assert(theme_views(themes@)[i as int].0 == name@);
            return true;
        }
        i = i + 1;
    }
    assert forall|j: int| 0 <= j < themes.len() implies (#[trigger] theme_views(themes@)[j]).0 != name@ by {
        assert(themes@[j].name@ != name@);
    }
    false
}

/// Adds the theme of a theme file to `themes`, unless its name is already
/// taken or none of its band colours reads; colours the file leaves out
/// come from the built-in "Dark" theme, or "Light" for a file that says it
/// is not dark.
pub fn add_theme_file<T: Copy>(themes: &mut Vec<ColorTheme<T>>, file: &ThemeFile<T>)
    requires
        file_readable(theme_views(old(themes)@), *file),
    ensures
        theme_views(final(themes)@) == with_file(theme_views(old(themes)@), *file),
{
    let ghost acc = theme_views(themes@);
    if !has_theme_named(themes, &file.name) {
        let bands = bands_of(&file.bands);
        if bands.len() > 0 {
            let style = style_of(file);
            let t = ColorTheme { name: file.name.clone(), bands, style };
            themes.push(t);
            assert(theme_views(themes@) =~= acc.push((file.name@, kept_bands(file.bands@), file_style(*file))));
        }
    }
}

/// Adds the themes of theme files to `themes`, one file after the other.
pub fn add_theme_files<T: Copy>(themes: &mut Vec<ColorTheme<T>>, files: &Vec<ThemeFile<T>>)
    requires
        files_readable(theme_views(old(themes)@), files@),
    ensures
        theme_views(final(themes)@) == with_files(theme_views(old(themes)@), files@),
{
    let ghost all = files@;
    let mut i: usize = 0;
    let n = files.len();
    assert(all.skip(0) =~= all);
    while i < n
        invariant
            i <= n,
            n == all.len(),
            files@ == all,
            with_files(theme_views(old(themes)@), all) == with_files(theme_views(themes@), all.skip(i as int)),
            files_readable(theme_views(themes@), all.skip(i as int)),
        decreases n - i,
    {
        let ghost rest = all.skip(i as int);
        assert(rest[0] == all[i as int]);
        assert(rest.drop_first() =~= all.skip(i + 1));
        add_theme_file(themes, &files[i]);
        i = i + 1;
    }
}

// ---------------------------------------------------------------------
// Choosing a theme by name
// ---------------------------------------------------------------------

/// A byte with ASCII upper-case letters mapped to lower case.
pub open spec fn ascii_lower(x: u8) -> u8 {
    if 0x41 <= x <= 0x5a {
        (x + 32) as u8
    } else {
        x
    }
}

/// Equality of UTF-8 texts up to ASCII case, as `str::eq_ignore_ascii_case`.
pub open spec fn same_ignoring_ascii_case(a: Seq<u8>, b: Seq<u8>) -> bool {
    a.len() == b.len() && forall|i: int| 0 <= i < a.len() ==> ascii_lower(#[trigger] a[i]) == ascii_lower(b[i])
}

fn eq_ignore_ascii_case(a: &[u8], b: &[u8]) -> (r: bool)
    ensures
        r == same_ignoring_ascii_case(a@, b@),
{
    if a.len() != b.len() {
        return false;
    }
    let mut i: usize = 0;
    while i < a.len()
        invariant
            i <= a.len(),
            a.len() == b.len(),
            forall|j: int| 0 <= j < i ==> ascii_lower(#[trigger] a@[j]) == ascii_lower(b@[j]),
        decreases a.len() - i,
    {
        let x = a[i];
        let y = b[i];
        let lx = if 0x41 <= x && x <= 0x5a {
            x + 32
        } else {
            x
        };
        let ly = if 0x41 <= y && y <= 0x5a {
            y + 32
        } else {
            y
        };
        if lx != ly {
            return false;
        }
        i = i + 1;
    }
    true
}

/// Whether theme `i` of `v` is called `wanted`, ignoring ASCII case.
pub open spec fn theme_named<T>(v: Seq<ColorTheme<T>>, i: int, wanted: Seq<char>) -> bool {
    same_ignoring_ascii_case(encode_utf8(v[i].name@), encode_utf8(wanted))
}

/// The theme asked for on the command line: the first whose name equals
/// `wanted` ignoring ASCII case, else the first theme.
pub fn find_theme<T>(themes: &Vec<ColorTheme<T>>, wanted: &str) -> (i: usize)
    requires
        themes.len() > 0,
    ensures
        i < themes.len(),
        (exists|j: int| 0 <= j < themes.len() && theme_named(themes@, j, wanted@)) ==> {
            &&& theme_named(themes@, i as int, wanted@)
            &&& forall|j: int| 0 <= j < i ==> !theme_named(themes@, j, wanted@)
        },
        (forall|j: int| 0 <= j < themes.len() ==> !theme_named(themes@, j, wanted@)) ==> i == 0,
{
    let w = wanted.as_bytes();
    let mut i: usize = 0;
    while i < themes.len()
        invariant
            i <= themes.len(),
            w@ == encode_utf8(wanted@),
            forall|j: int| 0 <= j < i ==> !theme_named(themes@, j, wanted@),
        decreases themes.len() - i,
    {
        if eq_ignore_ascii_case(themes[i].name.as_str().as_bytes(), w) {
            return i;
        }
        i = i + 1;
    }
    0
}

// ---------------------------------------------------------------------
// Interface colours
// ---------------------------------------------------------------------

/// The interface colours that a theme sets.
#[derive(Clone, Copy, PartialEq, Eq, Structural, Debug)]
pub struct ThemeVisuals {
    /// Whether the dark or the light look is the base.
    pub dark: bool,
    pub panel_fill: Rgb,
    pub window_fill: Rgb,
    pub text: Rgb,
    pub extreme_bg: Rgb,
    pub faint_bg: Rgb,
    pub inactive_bg: Rgb,
    pub inactive_stroke: Rgb,
    pub hovered_bg: Rgb,
    pub hovered_stroke: Rgb,
    pub active_bg: Rgb,
    pub noninteractive_bg: Rgb,
    pub noninteractive_stroke: Rgb,
    pub window_stroke: Rgb,
}

/// The interface colours of a style: panels and windows in the background
/// colour, strokes in the grid colour, and widget backgrounds shifted away
/// from the background (lighter on a dark theme, darker on a light one).
pub open spec fn visuals_of(s: ThemeStyle) -> ThemeVisuals {
    ThemeVisuals {
        dark: s.dark,
        panel_fill: s.bg,
        window_fill: s.bg,
        text: s.text,
        extreme_bg: if s.dark { darkened(s.bg, 10) } else { lightened(s.bg, 10) },
        faint_bg: if s.dark { lightened(s.bg, 5) } else { darkened(s.bg, 5) },
        inactive_bg: if s.dark { lightened(s.bg, 20) } else { darkened(s.bg, 15) },
        inactive_stroke: s.grid,
        hovered_bg: if s.dark { lightened(s.bg, 35) } else { darkened(s.bg, 25) },
        hovered_stroke: if s.dark { lightened(s.grid, 20) } else { darkened(s.grid, 20) },
        active_bg: if s.dark { lightened(s.bg, 45) } else { darkened(s.bg, 35) },
        noninteractive_bg: s.bg,
        noninteractive_stroke: s.grid,
        window_stroke: s.grid,
    }
}

/// The interface colours of a style.
pub fn theme_visuals(s: &ThemeStyle) -> (v: ThemeVisuals)
    ensures
        v == visuals_of(*s),
{
    if s.dark {
        ThemeVisuals {
            dark: true,
            panel_fill: s.bg,
            window_fill: s.bg,
            text: s.text,
            extreme_bg: darken(s.bg, 10),
            faint_bg: lighten(s.bg, 5),
            inactive_bg: lighten(s.bg, 20),
            inactive_stroke: s.grid,
            hovered_bg: lighten(s.bg, 35),
            hovered_stroke: lighten(s.grid, 20),
            active_bg: lighten(s.bg, 45),
            noninteractive_bg: s.bg,
            noninteractive_stroke: s.grid,
            window_stroke: s.grid,
        }
    } else {
        ThemeVisuals {
            dark: false,
            panel_fill: s.bg,
            window_fill: s.bg,
            text: s.text,
            extreme_bg: lighten(s.bg, 10),
            faint_bg: darken(s.bg, 5),
            inactive_bg: darken(s.bg, 15),
            inactive_stroke: s.grid,
            hovered_bg: darken(s.bg, 25),
            hovered_stroke: darken(s.grid, 20),
            active_bg: darken(s.bg, 35),
            noninteractive_bg: s.bg,
            noninteractive_stroke: s.grid,
            window_stroke: s.grid,
        }
    }
}

/// The border of an exported graph: the grid colour lightened by 30.
pub fn border_color(grid: Rgb) -> (c: Rgb)
    ensures
        c == lightened(grid, 30),
{
    lighten(grid, 30)
}

// ---------------------------------------------------------------------
// Laws
// ---------------------------------------------------------------------

proof fn lemma_hex_digit_byte(d: nat)
    requires
        d < 16,
    ensures
        hex_digit_byte((digit_char(d, true) as u32) as u8) == Some(d as u8),
        (digit_char(d, true) as u32) < 128,
        (digit_char(d, true) as u32) != 0x2b,
        (digit_char(d, true) as u32) != 0x23,
{
    if d < 10 {
        assert((((48 + d) as u32) as char) as u32 == 48 + d);
    } else {
        assert((((55 + d) as u32) as char) as u32 == 55 + d);
    }
}

/// The byte that the two upper-case hex digits of `b` read as.
proof fn lemma_hex_pair_reads(b: u8)
    ensures
        hex_byte_value(
            (hex_pair(b)[0] as u32) as u8,
            (hex_pair(b)[1] as u32) as u8,
        ) == Some(b),
        is_ascii_chars(hex_pair(b)),
{
    lemma_hex_digit_byte((b / 16) as nat);
    lemma_hex_digit_byte((b % 16) as nat);
    assert((b / 16) * 16 + b % 16 == b);
}

/// A colour written `#RRGGBB` in upper-case hex, the form of the theme files
/// this program writes, reads back as the same colour; so does `RRGGBB`.
pub proof fn lemma_color_text_reads_back(col: Rgb)
    ensures
        hex_color_of(encode_utf8(color_hex_text(col))) == Some(col),
        hex_color_of(encode_utf8(color_hex_text(col).drop_first())) == Some(col),
        color_text_sliceable(encode_utf8(color_hex_text(col))),
        color_text_sliceable(encode_utf8(color_hex_text(col).drop_first())),
{
    reveal_strlit("#");
    let t = color_hex_text(col);
    let d = t.drop_first();
    lemma_hex_pair_reads(col.r);
    lemma_hex_pair_reads(col.g);
    lemma_hex_pair_reads(col.b);
    assert(d =~= hex_pair(col.r) + hex_pair(col.g) + hex_pair(col.b));
    assert(is_ascii_chars(d)) by {
        assert forall|i: int| 0 <= i < d.len() implies '\0' <= #[trigger] d[i] <= '\u{7f}' by {
            if i < 2 {
                assert(d[i] == hex_pair(col.r)[i]);
            } else if i < 4 {
                assert(d[i] == hex_pair(col.g)[i - 2]);
            } else {
                assert(d[i] == hex_pair(col.b)[i - 4]);
            }
        }
    }
    assert(is_ascii_chars(t)) by {
        assert forall|i: int| 0 <= i < t.len() implies '\0' <= #[trigger] t[i] <= '\u{7f}' by {
            if i > 0 {
                assert(t[i] == d[i - 1]);
            }
        }
    }
    is_ascii_chars_encode_utf8(t);
    is_ascii_chars_encode_utf8(d);
    let bt = encode_utf8(t);
    let bd = encode_utf8(d);
    assert(bt[0] == 0x23u8);
    assert(color_digits(bt) =~= bd) by {
        assert forall|i: int| 0 <= i < bd.len() implies bt.drop_first()[i] == bd[i] by {
            assert(t[i + 1] == d[i]);
        }
    }
    assert(bd[0] != 0x23u8);
    assert(color_digits(bd) =~= bd);
    assert(bd[0] == (hex_pair(col.r)[0] as u32) as u8);
    assert(bd[1] == (hex_pair(col.r)[1] as u32) as u8);
    assert(bd[2] == (hex_pair(col.g)[0] as u32) as u8);
    assert(bd[3] == (hex_pair(col.g)[1] as u32) as u8);
    assert(bd[4] == (hex_pair(col.b)[0] as u32) as u8);
    assert(bd[5] == (hex_pair(col.b)[1] as u32) as u8);
}

/// No two themes share a name.
pub open spec fn names_distinct<T>(v: Seq<ThemeView<T>>) -> bool {
    forall|i: int, j: int| 0 <= i < j < v.len() ==> (#[trigger] v[i]).0 != (#[trigger] v[j]).0
}

/// Adding theme files keeps the themes already there, first and unchanged;
/// every theme added has at least one band; and theme names stay distinct.
pub proof fn lemma_theme_files_extend<T>(acc: Seq<ThemeView<T>>, files: Seq<ThemeFile<T>>)
    ensures
        with_files(acc, files).len() >= acc.len(),
        with_files(acc, files).take(acc.len() as int) == acc,
        forall|i: int|
            acc.len() <= i < with_files(acc, files).len() ==> (#[trigger] with_files(acc, files)[i]).1.len()
                > 0,
        names_distinct(acc) ==> names_distinct(with_files(acc, files)),
    decreases files.len(),
{
    if files.len() > 0 {
        let next = with_file(acc, files[0]);
        lemma_theme_files_extend(next, files.drop_first());
        let all = with_files(acc, files);
        assert(all == with_files(next, files.drop_first()));
        assert(next.take(acc.len() as int) =~= acc);
        assert(all.take(acc.len() as int) =~= acc) by {
            assert(all.take(next.len() as int) == next);
            assert forall|i: int| 0 <= i < acc.len() implies all.take(acc.len() as int)[i] == acc[i] by {
                assert(all.take(next.len() as int)[i] == next[i]);
            }
        }
        assert forall|i: int| acc.len() <= i < all.len() implies (#[trigger] all[i]).1.len() > 0 by {
            if i < next.len() {
                assert(all.take(next.len() as int)[i] == next[i]);
            }
        }
        if names_distinct(acc) {
            assert(names_distinct(next)) by {
                if next.len() > acc.len() {
                    assert forall|i: int, j: int| 0 <= i < j < next.len() implies (#[trigger] next[i]).0
                        != (#[trigger] next[j]).0 by {
                        if j == acc.len() {
                            assert(!name_taken(acc, files[0].name@));
                            assert(next[i] == acc[i]);
                        }
                    }
                }
            }
        }
    } else {
        assert(acc.take(acc.len() as int) =~= acc);
    }
}

/// The built-in themes and the theme files merged into them never show two
/// themes of one name in the theme selector, and the built-in themes come
/// first.
pub proof fn lemma_loaded_names_distinct<T>(levels: Seq<T>, files: Seq<ThemeFile<T>>)
    ensures
        names_distinct(with_files(builtin_views(levels), files)),
        with_files(builtin_views(levels), files).take(4) == builtin_views(levels),
{
    reveal_strlit("Dark");
    reveal_strlit("Light");
    reveal_strlit("Gruvbox Dark");
    reveal_strlit("Gruvbox Light");
    let b = builtin_views(levels);
    assert(names_distinct(b)) by {
        assert forall|i: int, j: int| 0 <= i < j < b.len() implies (#[trigger] b[i]).0 != (#[trigger] b[j]).0 by {
            assert(b[i].0.len() != b[j].0.len());
        }
    }
    lemma_theme_files_extend(b, files);
}

/// The colour an optional colour text reads as, if any.
pub open spec fn color_text_reads(text: Option<String>) -> Option<Rgb> {
    match text {
        Some(t) => hex_color_of(encode_utf8(t@)),
        None => None,
    }
}

/// A colour a theme file sets takes effect; only a missing or unreadable one
/// falls back to the base style.
pub open spec fn takes_color(text: Option<String>, got: Rgb, fallback: Rgb) -> bool {
    &&& color_text_reads(text) matches Some(c) ==> got == c
    &&& color_text_reads(text) is None ==> got == fallback
}

/// A theme file that is added (its name is new and a band colour reads)
/// becomes the last theme, with the file's name and readable bands, and
/// every colour it sets as `#RRGGBB` in effect: background, text, grid,
/// caption, error and each hex-view colour. A colour the file leaves out or
/// writes unreadably comes from the built-in "Light" theme when the file
/// says `dark = false`, else from the built-in "Dark" theme.
pub proof fn lemma_file_colours_take_effect<T>(acc: Seq<ThemeView<T>>, f: ThemeFile<T>)
    requires
        !name_taken(acc, f.name@),
        kept_bands(f.bands@).len() > 0,
    ensures
        with_file(acc, f).len() == acc.len() + 1,
        with_file(acc, f).take(acc.len() as int) == acc,
        with_file(acc, f).last().0 == f.name@,
        with_file(acc, f).last().1 == kept_bands(f.bands@),
        ({
            let st = with_file(acc, f).last().2;
            let base = if f.dark == Some(false) { light_style() } else { dark_style() };
            &&& st.dark == (f.dark != Some(false))
            &&& takes_color(f.bg, st.bg, base.bg)
            &&& takes_color(f.text, st.text, base.text)
            &&& takes_color(f.grid, st.grid, base.grid)
            &&& takes_color(f.caption, st.caption, base.caption)
            &&& takes_color(f.error, st.error, base.error)
            &&& f.hex is None ==> st.hex == base.hex
            &&& f.hex matches Some(p) ==> {
                &&& takes_color(p.null, st.hex.null, base.hex.null)
                &&& takes_color(p.whitespace, st.hex.whitespace, base.hex.whitespace)
                &&& takes_color(p.printable, st.hex.printable, base.hex.printable)
                &&& takes_color(p.control, st.hex.control, base.hex.control)
                &&& takes_color(p.non_ascii, st.hex.non_ascii, base.hex.non_ascii)
            }
        }),
{
    assert(with_file(acc, f).take(acc.len() as int) =~= acc);
}

} // verus!
