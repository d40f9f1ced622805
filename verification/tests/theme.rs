use graphtropy::theme::{
    add_theme_file, add_theme_files, border_color, builtin_themes, darken, find_theme, lighten,
    parse_hex_color, rgb, theme_visuals, BandEntry, ColorTheme, HexPaletteFile, Rgb, ThemeFile,
};

const LEVELS: [f64; 4] = [0.0, 0.25, 0.5, 0.75];

fn file(name: &str, bands: &[(f64, &str)]) -> ThemeFile<f64> {
    ThemeFile {
        name: name.to_string(),
        bands: bands
            .iter()
            .map(|&(threshold, color)| BandEntry { threshold, color: color.to_string() })
            .collect(),
        bg: None,
        text: None,
        grid: None,
        caption: None,
        error: None,
        dark: None,
        hex: None,
    }
}

fn names(themes: &[ColorTheme<f64>]) -> Vec<String> {
    themes.iter().map(|t| t.name.clone()).collect()
}

#[test]
fn parse_colors() {
    assert_eq!(parse_hex_color("#FF8000"), Some(rgb(255, 128, 0)));
    assert_eq!(parse_hex_color("ff8000"), Some(rgb(255, 128, 0)));
    assert_eq!(parse_hex_color("#1e1E1e"), Some(rgb(30, 30, 30)));
    assert_eq!(parse_hex_color("#000000"), Some(rgb(0, 0, 0)));
    // Each field is read as `u8::from_str_radix` reads it, so a sign is accepted.
    assert_eq!(parse_hex_color("+F+F+F"), Some(rgb(15, 15, 15)));
    assert_eq!(parse_hex_color("-10000"), None);
    assert_eq!(parse_hex_color("#12345"), None);
    assert_eq!(parse_hex_color("#1234567"), None);
    assert_eq!(parse_hex_color("##FFFFFF"), None);
    assert_eq!(parse_hex_color("GG0000"), None);
    assert_eq!(parse_hex_color(""), None);
    assert_eq!(parse_hex_color("#"), None);
    assert_eq!(parse_hex_color("#é1234"), None);
}

#[test]
fn colors_written_by_format_read_back() {
    for (r, g, b) in [(0u8, 0u8, 0u8), (255, 255, 255), (18, 52, 86), (171, 205, 239)] {
        let text = format!("#{r:02X}{g:02X}{b:02X}");
        assert_eq!(parse_hex_color(&text), Some(rgb(r, g, b)));
    }
}

#[test]
fn lighten_and_darken_saturate() {
    assert_eq!(lighten(rgb(10, 250, 128), 10), rgb(20, 255, 138));
    assert_eq!(darken(rgb(10, 250, 128), 20), rgb(0, 230, 108));
    assert_eq!(border_color(rgb(50, 50, 50)), rgb(80, 80, 80));
    assert_eq!(border_color(rgb(240, 0, 226)), rgb(255, 30, 255));
}

#[test]
fn builtin_theme_list() {
    let themes = builtin_themes(&LEVELS);
    assert_eq!(names(&themes), ["Dark", "Light", "Gruvbox Dark", "Gruvbox Light"]);
    let dark = &themes[0];
    assert_eq!(
        dark.bands,
        vec![
            (0.0, rgb(33, 150, 243)),
            (0.25, rgb(76, 175, 80)),
            (0.5, rgb(255, 152, 0)),
            (0.75, rgb(244, 67, 54)),
        ]
    );
    assert_eq!(dark.style.bg, rgb(30, 30, 30));
    assert!(dark.style.dark);
    assert!(!themes[1].style.dark);
    assert_eq!(themes[1].style.bg, rgb(245, 245, 245));
    assert_eq!(themes[2].style.hex.printable, rgb(184, 187, 38));
    assert_eq!(themes[3].bands[3].1, rgb(157, 0, 6));
}

#[test]
fn theme_file_fills_missing_colours_from_base() {
    let mut themes = builtin_themes(&LEVELS);
    let mut f = file("Ocean", &[(0.0, "#000080"), (0.5, "#0000FF")]);
    f.grid = Some("#123456".to_string());
    f.hex = Some(HexPaletteFile {
        null: Some("#010101".to_string()),
        whitespace: None,
        printable: Some("not a colour".to_string()),
        control: None,
        non_ascii: None,
    });
    add_theme_file(&mut themes, &f);
    assert_eq!(themes.len(), 5);
    let t = &themes[4];
    assert_eq!(t.name, "Ocean");
    assert_eq!(t.bands, vec![(0.0, rgb(0, 0, 128)), (0.5, rgb(0, 0, 255))]);
    assert!(t.style.dark);
    assert_eq!(t.style.grid, rgb(0x12, 0x34, 0x56));
    assert_eq!(t.style.bg, themes[0].style.bg);
    assert_eq!(t.style.hex.null, rgb(1, 1, 1));
    assert_eq!(t.style.hex.printable, themes[0].style.hex.printable);
    assert_eq!(t.style.hex.control, themes[0].style.hex.control);
}

#[test]
fn light_theme_file_uses_light_base() {
    let mut themes = builtin_themes(&LEVELS);
    let mut f = file("Paper", &[(0.0, "#FFFFFF")]);
    f.dark = Some(false);
    add_theme_file(&mut themes, &f);
    let t = &themes[4];
    assert!(!t.style.dark);
    assert_eq!(t.style, themes[1].style);
}

#[test]
fn theme_files_skipped_when_name_taken_or_no_band_reads() {
    let mut themes = builtin_themes(&LEVELS);
    let files = vec![
        file("Dark", &[(0.0, "#FFFFFF")]),
        file("Broken", &[(0.0, "nope"), (0.5, "#GGGGGG")]),
        file("Empty", &[]),
        file("Mixed", &[(0.0, "bad"), (0.3, "#102030")]),
        file("Mixed", &[(0.0, "#FFFFFF")]),
        file("dark", &[(0.0, "#FFFFFF")]),
    ];
    add_theme_files(&mut themes, &files);
    assert_eq!(names(&themes), ["Dark", "Light", "Gruvbox Dark", "Gruvbox Light", "Mixed", "dark"]);
    assert_eq!(themes[4].bands, vec![(0.3, rgb(16, 32, 48))]);
    assert_eq!(themes[0].bands[0].1, rgb(33, 150, 243));
}

#[test]
fn loaded_names_stay_distinct() {
    let mut themes = builtin_themes(&LEVELS);
    let files: Vec<ThemeFile<f64>> = ["A", "B", "A", "Light", "B", "C"]
        .iter()
        .map(|n| file(n, &[(0.0, "#ABCDEF")]))
        .collect();
    add_theme_files(&mut themes, &files);
    let mut seen = names(&themes);
    assert_eq!(seen.len(), 7);
    seen.sort();
    seen.dedup();
    assert_eq!(seen.len(), 7);
}

#[test]
fn find_theme_ignores_ascii_case() {
    let themes = builtin_themes(&LEVELS);
    assert_eq!(find_theme(&themes, "Dark"), 0);
    assert_eq!(find_theme(&themes, "light"), 1);
    assert_eq!(find_theme(&themes, "GRUVBOX DARK"), 2);
    assert_eq!(find_theme(&themes, "gruvbox light"), 3);
    assert_eq!(find_theme(&themes, "Solarized"), 0);
    assert_eq!(find_theme(&themes, ""), 0);
    assert_eq!(find_theme(&themes, "gruvbox"), 0);
}

#[test]
fn interface_colours_of_dark_and_light() {
    let themes = builtin_themes(&LEVELS);
    let v = theme_visuals(&themes[0].style);
    assert!(v.dark);
    assert_eq!(v.panel_fill, rgb(30, 30, 30));
    assert_eq!(v.window_fill, rgb(30, 30, 30));
    assert_eq!(v.text, rgb(160, 160, 160));
    assert_eq!(v.extreme_bg, rgb(20, 20, 20));
    assert_eq!(v.faint_bg, rgb(35, 35, 35));
    assert_eq!(v.inactive_bg, rgb(50, 50, 50));
    assert_eq!(v.hovered_bg, rgb(65, 65, 65));
    assert_eq!(v.hovered_stroke, rgb(70, 70, 70));
    assert_eq!(v.active_bg, rgb(75, 75, 75));
    assert_eq!(v.window_stroke, rgb(50, 50, 50));
    let v = theme_visuals(&themes[1].style);
    assert!(!v.dark);
    assert_eq!(v.extreme_bg, rgb(255, 255, 255));
    assert_eq!(v.faint_bg, rgb(240, 240, 240));
    assert_eq!(v.inactive_bg, rgb(230, 230, 230));
    assert_eq!(v.hovered_bg, rgb(220, 220, 220));
    assert_eq!(v.hovered_stroke, rgb(180, 180, 180));
    assert_eq!(v.active_bg, rgb(210, 210, 210));
    let _: Rgb = v.noninteractive_stroke;
}
