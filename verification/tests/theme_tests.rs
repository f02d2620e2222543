use amdgpu_top_nvitop::theme::{
    parse_color, search_dirs, theme_names, theme_path, to_rgb, Color, Gradient, SectionBox, Theme,
    UtilKind, DEFAULT_THEME,
};

#[test]
fn parses_hex_colors() {
    assert_eq!(parse_color("#ff0000"), Some(Color::Rgb(255, 0, 0)));
    assert_eq!(parse_color("  #A0b1C2 "), Some(Color::Rgb(0xa0, 0xb1, 0xc2)));
    assert_eq!(parse_color("#12345"), None);
    assert_eq!(parse_color("#gg0000"), None);
    assert_eq!(parse_color("#1234567"), None);
}

#[test]
fn parses_two_digit_greys() {
    assert_eq!(parse_color("#ff"), Some(Color::Rgb(255, 255, 255)));
    assert_eq!(parse_color("#0a"), Some(Color::Rgb(10, 10, 10)));
    // `from_str_radix` takes a leading plus sign
    assert_eq!(parse_color("#+f"), Some(Color::Rgb(15, 15, 15)));
    assert_eq!(parse_color("#x1"), None);
}

#[test]
fn parses_decimal_triples() {
    assert_eq!(parse_color("10 20 30"), Some(Color::Rgb(10, 20, 30)));
    assert_eq!(parse_color("10 20"), None);
    // exactly three words, each a byte
    assert_eq!(parse_color("10 20 300"), None);
    assert_eq!(parse_color("1 x 2 3"), None);
    assert_eq!(parse_color("256 1 2 3"), None);
    assert_eq!(parse_color("1 2 3 4"), None);
    assert_eq!(parse_color(" +1\t2  3 "), Some(Color::Rgb(1, 2, 3)));
}

#[test]
fn empty_color_is_none() {
    assert_eq!(parse_color(""), None);
    assert_eq!(parse_color("   "), None);
}

#[test]
fn converts_palette_entries_to_rgb() {
    assert_eq!(to_rgb(Color::Rgb(1, 2, 3)), (1, 2, 3));
    assert_eq!(to_rgb(Color::Indexed(16)), (200, 200, 200));
    assert_eq!(to_rgb(Color::Indexed(216)), (36, 36, 36));
    assert_eq!(to_rgb(Color::Indexed(220)), (36, 36, 240));
    assert_eq!(to_rgb(Color::Indexed(231)), (36, 138, 189));
    assert_eq!(to_rgb(Color::Indexed(232)), (8, 8, 8));
    assert_eq!(to_rgb(Color::Indexed(255)), (238, 238, 238));
    assert_eq!(to_rgb(Color::Named), (200, 200, 200));
}

#[test]
fn later_theme_lines_override_earlier_ones() {
    let text = "theme[main_fg]=\"#010203\"\n# theme[hi_fg]=\"#ffffff\"\n  theme[main_fg] = \"#040506\"  \ntheme[hi_fg]=#070809\nnot a setting\n";
    let t = Theme::parse(text);
    assert_eq!(t.main_fg(), Color::Rgb(4, 5, 6));
    assert_eq!(t.hi_fg(), Color::Rgb(7, 8, 9));
    // title and graph text default to the main foreground
    assert_eq!(t.title(), Color::Rgb(4, 5, 6));
    assert_eq!(t.graph_text(), Color::Rgb(4, 5, 6));
}

#[test]
fn unset_keys_use_the_built_in_defaults() {
    let t = Theme::parse("");
    assert_eq!(t.main_bg(), None);
    assert_eq!(t.main_fg(), Color::Rgb(0xd3, 0xc6, 0xaa));
    assert_eq!(t.title(), Color::Rgb(0xd3, 0xc6, 0xaa));
    assert_eq!(t.hi_fg(), Color::Rgb(0xe6, 0x7e, 0x80));
    assert_eq!(t.selected_bg(), Color::Rgb(0x37, 0x41, 0x45));
    assert_eq!(t.selected_fg(), Color::Rgb(0xdb, 0xbc, 0x7f));
    assert_eq!(t.inactive_fg(), Color::Rgb(0x50, 0x49, 0x45));
    assert_eq!(t.proc_misc(), Color::Rgb(0xa7, 0xc0, 0x80));
    assert_eq!(t.div_line(), Color::Rgb(0x37, 0x41, 0x45));
    assert_eq!(
        t.cpu(),
        Gradient { start: Color::Rgb(0xa7, 0xc0, 0x80), mid: None, end: None }
    );
}

#[test]
fn box_color_falls_back_to_div_line() {
    let t = Theme::parse("theme[div_line]=\"#112233\"\ntheme[proc_box]=\"#445566\"");
    assert_eq!(t.box_color(SectionBox::Cpu), Color::Rgb(0x11, 0x22, 0x33));
    assert_eq!(t.box_color(SectionBox::Proc), Color::Rgb(0x44, 0x55, 0x66));
    assert_eq!(t.color("div_line"), Some(Color::Rgb(0x11, 0x22, 0x33)));
    assert_eq!(t.color("nothing"), None);
    assert_eq!(t.color_or("nothing", Color::Named), Color::Named);
}

#[test]
fn gradients_read_start_mid_end() {
    let t = Theme::parse("theme[temp_start]=\"#000000\"\ntheme[temp_end]=\"255 255 255\"");
    assert_eq!(
        t.temp(),
        Gradient { start: Color::Rgb(0, 0, 0), mid: None, end: Some(Color::Rgb(255, 255, 255)) }
    );
    assert_eq!(t.gradient("temp"), t.temp());
}

#[test]
fn fallback_palette_is_everforest() {
    let t = Theme::fallback();
    assert_eq!(t.main_bg(), Some(Color::Rgb(0x27, 0x2e, 0x33)));
    assert_eq!(t.inactive_fg(), Color::Rgb(0x27, 0x2e, 0x33));
    assert_eq!(t.box_color(SectionBox::Net), Color::Rgb(0x37, 0x41, 0x45));
    assert_eq!(
        t.process(),
        Gradient {
            start: Color::Rgb(0xa7, 0xc0, 0x80),
            mid: Some(Color::Rgb(0xf8, 0x55, 0x52)),
            end: Some(Color::Rgb(0xcc, 0x24, 0x1d)),
        }
    );
    assert_eq!(
        t.free(),
        Gradient {
            start: Color::Rgb(0xf8, 0x55, 0x52),
            mid: Some(Color::Rgb(0xdb, 0xbc, 0x7f)),
            end: Some(Color::Rgb(0xa7, 0xc0, 0x80)),
        }
    );
    assert_eq!(t.cached().mid, None);
    assert_eq!(t.available().start, Color::Rgb(0xa7, 0xc0, 0x80));
}

#[test]
fn util_gradients_by_kind() {
    let t = Theme::fallback();
    assert_eq!(t.util_gradient(UtilKind::Gpu), t.cpu());
    assert_eq!(t.util_gradient(UtilKind::Mem), t.used());
    assert_eq!(t.util_gradient(UtilKind::Npu), t.process());
}

#[test]
fn non_ascii_six_byte_hex_names_no_color() {
    assert_eq!(parse_color("#1é234"), None);
    assert_eq!(parse_color("#aé000"), None);
    let t = Theme::parse("theme[main_fg]=\"#aé000\"\ntheme[hi_fg]=\"#010203\"");
    assert_eq!(t.main_fg(), Color::Rgb(0xd3, 0xc6, 0xaa));
    assert_eq!(t.hi_fg(), Color::Rgb(1, 2, 3));
}

#[test]
fn theme_names_are_sorted_unique_with_default() {
    let files: Vec<String> = ["b.theme", "a.theme", "x.txt", ".theme", "a.theme", "c.d.theme", "noext"]
        .iter()
        .map(|s| s.to_string())
        .collect();
    assert_eq!(theme_names(&files), vec!["a", "b", "c.d", DEFAULT_THEME]);
    assert_eq!(theme_names(&Vec::new()), vec![DEFAULT_THEME]);
}

#[test]
fn search_dirs_in_order() {
    assert_eq!(
        search_dirs(Some("/x"), Some("/home/u/")),
        vec![
            "/x/btop/themes",
            "/home/u/.config/btop/themes",
            "/usr/local/share/btop/themes",
            "/usr/share/btop/themes",
        ]
    );
    assert_eq!(
        search_dirs(None, None),
        vec!["/usr/local/share/btop/themes", "/usr/share/btop/themes"]
    );
    assert_eq!(search_dirs(Some(""), None)[0], "btop/themes");
}

#[test]
fn theme_file_path() {
    assert_eq!(theme_path("/usr/share/btop/themes", "nord"), "/usr/share/btop/themes/nord.theme");
    assert_eq!(theme_path("/t/", "nord"), "/t/nord.theme");
    // an absolute name replaces the directory, as `Path::join` does
    assert_eq!(theme_path("/t", "/etc/x"), "/etc/x.theme");
}

#[test]
fn first_found_theme_file_wins() {
    let found = vec![
        None,
        Some("theme[main_fg]=\"#010101\"".to_string()),
        Some("theme[main_fg]=\"#020202\"".to_string()),
    ];
    assert_eq!(Theme::load_from(&found).main_fg(), Color::Rgb(1, 1, 1));
}

#[test]
fn no_theme_file_gives_the_fallback() {
    let t = Theme::load_from(&vec![None, None]);
    assert_eq!(t.main_bg(), Some(Color::Rgb(0x27, 0x2e, 0x33)));
    let d = Theme::default_theme(&Vec::new());
    assert_eq!(d.hi_fg(), Color::Rgb(0xe6, 0x7e, 0x80));
    assert_eq!(d.main_bg(), Some(Color::Rgb(0x27, 0x2e, 0x33)));
}

#[test]
fn second_part_of_a_theme_overrides_the_first() {
    let a = "theme[main_fg]=\"#010101\"\ntheme[hi_fg]=\"#020202\"\r";
    let b = "theme[hi_fg]=\"#030303\"\ntheme[div_line]=\"#040404\"";
    let joined = format!("{a}\n{b}");
    let t = Theme::parse(&joined);
    assert_eq!(t.main_fg(), Color::Rgb(1, 1, 1));
    assert_eq!(t.hi_fg(), Color::Rgb(3, 3, 3));
    assert_eq!(t.div_line(), Color::Rgb(4, 4, 4));
    assert_eq!(Theme::parse(a).hi_fg(), Color::Rgb(2, 2, 2));
}
