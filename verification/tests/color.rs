use gsty::color::{format_hex, parse_color, Color};
use gsty::text::{is_ascii_hexdigit, is_whitespace};

#[test]
fn parse_color_valid() {
    assert_eq!(parse_color("#ffffff"), Some(Color::Rgb(255, 255, 255)));
    assert_eq!(parse_color("000000"), Some(Color::Rgb(0, 0, 0)));
}

#[test]
fn parse_color_with_trailing_comments() {
    assert_eq!(
        parse_color("#ff0000 # Red comment"),
        Some(Color::Rgb(255, 0, 0))
    );
}

#[test]
fn parse_color_invalid() {
    assert!(parse_color("#fff").is_none());
    assert!(parse_color("invalid_hex").is_none());
}

#[test]
fn parse_color_edge_cases() {
    assert_eq!(parse_color("  #1E1e2E  "), Some(Color::Rgb(0x1e, 0x1e, 0x2e)));
    assert_eq!(parse_color("#ff0000#red"), Some(Color::Rgb(255, 0, 0)));
    assert_eq!(parse_color(""), None);
    assert_eq!(parse_color("   "), None);
    assert_eq!(parse_color("##ff0000"), None);
    assert_eq!(parse_color("#ffffff00"), None);
    assert_eq!(parse_color("#abcdeg"), None);
    assert_eq!(parse_color("\u{3000}#010203"), Some(Color::Rgb(1, 2, 3)));
}

#[test]
fn format_hex_writes_lower_case() {
    assert_eq!(format_hex(Color::Rgb(0x1e, 0xAB, 0x02)), "#1eab02");
    assert_eq!(format_hex(Color::Black), "#000000");
    assert_eq!(format_hex(Color::Red), "#ff0000");
    assert_eq!(format_hex(Color::Green), "#00ff00");
    assert_eq!(format_hex(Color::Yellow), "#ffff00");
    assert_eq!(format_hex(Color::Blue), "#0000ff");
    assert_eq!(format_hex(Color::Magenta), "#ff00ff");
    assert_eq!(format_hex(Color::Cyan), "#00ffff");
    assert_eq!(format_hex(Color::White), "#ffffff");
    assert_eq!(format_hex(Color::Gray), "unknown");
    assert_eq!(format_hex(Color::Indexed(3)), "unknown");
}

#[test]
fn format_then_parse_round_trips() {
    for (r, g, b) in [(0u8, 0u8, 0u8), (255, 255, 255), (0x12, 0xab, 0xf0), (7, 200, 99)] {
        let text = format_hex(Color::Rgb(r, g, b));
        assert_eq!(parse_color(&text), Some(Color::Rgb(r, g, b)));
    }
}

#[test]
fn whitespace_matches_std() {
    for u in 0u32..=0x10FFFF {
        if let Some(c) = char::from_u32(u) {
            assert_eq!(is_whitespace(c), c.is_whitespace(), "{u:#x}");
            assert_eq!(is_ascii_hexdigit(c), c.is_ascii_hexdigit(), "{u:#x}");
        }
    }
}
