use std::path::PathBuf;

use gsty::color::Color;
use gsty::theme::{
    filter_themes, listing_line, parse_palette_entry, parse_theme_content, sort_themes, Theme,
    ThemeColors, ThemeFilter,
};

fn theme(name: &str, is_dark: bool) -> Theme {
    Theme::new(
        name.to_string(),
        PathBuf::from(format!("/themes/{name}")),
        parse_theme_content(""),
        is_dark,
    )
}

#[test]
fn theme_content_handles_inline_comments() {
    let colors = parse_theme_content(
        "background = #111111 # dark\nforeground = #eeeeee # light\npalette = 1=#ff0000 # red\n",
    );
    assert_eq!(colors.background, Color::Rgb(0x11, 0x11, 0x11));
    assert_eq!(colors.foreground, Color::Rgb(0xee, 0xee, 0xee));
    assert_eq!(colors.palette[1], Color::Rgb(0xff, 0x00, 0x00));
}

#[test]
fn theme_content_accepts_multiple_palette_entries() {
    let colors = parse_theme_content("palette = 0=#000000, 1=#111111 2=#222222\nbackground = #fafafa\n");
    assert_eq!(colors.palette[0], Color::Rgb(0x00, 0x00, 0x00));
    assert_eq!(colors.palette[1], Color::Rgb(0x11, 0x11, 0x11));
    assert_eq!(colors.palette[2], Color::Rgb(0x22, 0x22, 0x22));
    assert_eq!(colors.background, Color::Rgb(0xfa, 0xfa, 0xfa));
}

#[test]
fn theme_content_handles_inline_comments_without_space() {
    let colors = parse_theme_content(
        "background = #111111#dark\nforeground = #eeeeee#light\npalette = 1=#ff0000#red\n",
    );
    assert_eq!(colors.background, Color::Rgb(0x11, 0x11, 0x11));
    assert_eq!(colors.foreground, Color::Rgb(0xee, 0xee, 0xee));
    assert_eq!(colors.palette[1], Color::Rgb(0xff, 0x00, 0x00));
}

#[test]
fn theme_content_defaults_and_ignored_lines() {
    let colors = parse_theme_content(
        "# background = #123456\n\nbackground\ncursor-color = #abcdef\nforeground = nothing\r\n  palette = 15=#0f0f0f  \npalette = 16=#ffffff\n",
    );
    assert_eq!(colors.background, Color::Black);
    assert_eq!(colors.foreground, Color::White);
    assert_eq!(colors.palette[15], Color::Rgb(15, 15, 15));
    for i in 0..15 {
        assert_eq!(colors.palette[i], Color::Black);
    }
}

#[test]
fn theme_content_later_lines_win() {
    let colors = parse_theme_content("background = #010101\nbackground = #020202\npalette = 3=#030303\npalette = 3 = #040404");
    assert_eq!(colors.background, Color::Rgb(2, 2, 2));
    assert_eq!(colors.palette[3], Color::Rgb(3, 3, 3));
}

#[test]
fn palette_entries() {
    assert_eq!(parse_palette_entry("4=#89b4fa"), Some((4, Color::Rgb(0x89, 0xb4, 0xfa))));
    assert_eq!(parse_palette_entry(" 15 = 000001 "), Some((15, Color::Rgb(0, 0, 1))));
    assert_eq!(parse_palette_entry("+7=#070707"), Some((7, Color::Rgb(7, 7, 7))));
    assert_eq!(parse_palette_entry("007=#070707"), Some((7, Color::Rgb(7, 7, 7))));
    assert_eq!(parse_palette_entry("16=#000000"), None);
    assert_eq!(parse_palette_entry("-1=#000000"), None);
    assert_eq!(parse_palette_entry("+=#000000"), None);
    assert_eq!(parse_palette_entry("=#000000"), None);
    assert_eq!(parse_palette_entry("99999999999999999999999=#000000"), None);
    assert_eq!(parse_palette_entry("4#89b4fa"), None);
    assert_eq!(parse_palette_entry("4=#89b4"), None);
}

#[test]
fn filter_cycles_and_labels() {
    assert_eq!(ThemeFilter::All.next(), ThemeFilter::Dark);
    assert_eq!(ThemeFilter::Dark.next(), ThemeFilter::Light);
    assert_eq!(ThemeFilter::Light.next(), ThemeFilter::All);
    assert_eq!(ThemeFilter::All.label(), "all");
    assert_eq!(ThemeFilter::Dark.label(), "dark");
    assert_eq!(ThemeFilter::Light.label(), "light");
}

#[test]
fn new_theme_lower_cases_name() {
    let colors = ThemeColors {
        palette: [Color::Red; 16],
        background: Color::Rgb(1, 2, 3),
        foreground: Color::Blue,
    };
    let t = Theme::new("Catppuccin Mocha".to_string(), PathBuf::from("/x"), colors, true);
    assert_eq!(t.name, "Catppuccin Mocha");
    assert_eq!(t.name_lower, "catppuccin mocha");
    assert_eq!(t.background, Color::Rgb(1, 2, 3));
    assert_eq!(t.palette[7], Color::Red);
    assert!(t.is_dark);
}

#[test]
fn filter_by_darkness_and_search() {
    let themes = vec![
        theme("Dracula", true),
        theme("GitHub Light", false),
        theme("Solarized Dark", true),
        theme("Solarized Light", false),
    ];
    assert_eq!(filter_themes(&themes, ThemeFilter::All, ""), vec![0, 1, 2, 3]);
    assert_eq!(filter_themes(&themes, ThemeFilter::Dark, ""), vec![0, 2]);
    assert_eq!(filter_themes(&themes, ThemeFilter::Light, ""), vec![1, 3]);
    assert_eq!(filter_themes(&themes, ThemeFilter::All, "SOLAR"), vec![2, 3]);
    assert_eq!(filter_themes(&themes, ThemeFilter::Light, "solar"), vec![3]);
    assert_eq!(filter_themes(&themes, ThemeFilter::All, "zzz"), Vec::<usize>::new());
    assert_eq!(filter_themes(&themes, ThemeFilter::Dark, "t l"), Vec::<usize>::new());
}

#[test]
fn sort_is_by_lower_case_name_and_stable() {
    let themes = vec![
        theme("b", true),
        theme("A", true),
        theme("a", false),
        theme("C", true),
        theme("ab", true),
    ];
    let sorted = sort_themes(themes);
    let names: Vec<&str> = sorted.iter().map(|t| t.name.as_str()).collect();
    assert_eq!(names, vec!["A", "a", "ab", "b", "C"]);
}

#[test]
fn listing_pads_name() {
    let t = theme("Nord", true);
    assert_eq!(
        listing_line(&t, "/themes/Nord"),
        format!("  {:<30} [dark] /themes/Nord", "Nord")
    );
    let long = theme("An Extremely Long Theme Name Over Thirty", false);
    assert_eq!(
        listing_line(&long, "/p"),
        "  An Extremely Long Theme Name Over Thirty [light] /p"
    );
}

#[test]
fn cloned_theme_keeps_its_path() {
    let t = theme("Everforest", true);
    let c = t.clone();
    assert_eq!(c.path, PathBuf::from("/themes/Everforest"));
    assert_eq!(c.name, t.name);
}

#[test]
fn idle_lines_change_nothing() {
    let plain = parse_theme_content("background = #101010\npalette = 2=#020202\n");
    let busy = parse_theme_content(
        "# header\n\nbackground = #101010\nfont-family = Mono\njust words\n  # = x\npalette = 2=#020202\n\n",
    );
    assert_eq!(plain.background, busy.background);
    assert_eq!(plain.foreground, busy.foreground);
    assert_eq!(plain.palette, busy.palette);
}

#[test]
fn search_ignores_case_and_narrows() {
    let themes = vec![theme("Tokyo Night", true), theme("tokyonight", true), theme("Night Owl", true)];
    assert_eq!(
        filter_themes(&themes, ThemeFilter::All, "NIGHT"),
        filter_themes(&themes, ThemeFilter::All, "night")
    );
    assert_eq!(filter_themes(&themes, ThemeFilter::All, "night"), vec![0, 1, 2]);
    assert_eq!(filter_themes(&themes, ThemeFilter::All, "o night"), vec![0]);
    assert_eq!(filter_themes(&themes, ThemeFilter::All, ""), vec![0, 1, 2]);
}
