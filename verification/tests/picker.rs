use std::path::PathBuf;

use gsty::cli::{parse_args, unknown_args_message, Command};
use gsty::color::Color;
use gsty::picker::{exit_plan, ExitPlan, Key, Picker, PickerAction, PreviewOutcome};
use gsty::preview::{fallback_color, preview_colors, preview_is_compact};
use gsty::theme::{parse_theme_content, Theme, ThemeFilter};

fn themes() -> Vec<Theme> {
    ["Alpha", "Beta Dark", "Gamma", "Delta Dark"]
        .iter()
        .map(|n| {
            Theme::new(
                n.to_string(),
                PathBuf::from(n),
                parse_theme_content(""),
                n.ends_with("Dark"),
            )
        })
        .collect()
}

#[test]
fn picker_starts_on_first_theme() {
    let themes = themes();
    let p = Picker::new(&themes);
    assert_eq!(p.filtered, vec![0, 1, 2, 3]);
    assert_eq!(p.selected, Some(0));
    assert_eq!(p.filter, ThemeFilter::All);
    assert!(!p.search_active);
}

#[test]
fn picker_moves_and_confirms() {
    let themes = themes();
    let mut p = Picker::new(&themes);
    assert_eq!(p.handle_key(&themes, Key::Char('j')), PickerAction::Continue);
    assert_eq!(p.handle_key(&themes, Key::Down), PickerAction::Continue);
    assert_eq!(p.selected, Some(2));
    p.handle_key(&themes, Key::Up);
    assert_eq!(p.selected, Some(1));
    p.handle_key(&themes, Key::Char('G'));
    assert_eq!(p.selected, Some(usize::MAX));
    assert_eq!(p.handle_key(&themes, Key::Enter), PickerAction::Continue);
    assert_eq!(p.begin_frame(), usize::MAX);
    assert_eq!(p.selected, Some(3));
    assert_eq!(p.handle_key(&themes, Key::Char('y')), PickerAction::Confirm(3));
    p.handle_key(&themes, Key::Home);
    assert_eq!(p.selected, Some(0));
    p.handle_key(&themes, Key::Char('k'));
    assert_eq!(p.selected, Some(0));
    assert_eq!(p.handle_key(&themes, Key::Char('q')), PickerAction::Cancel);
    assert_eq!(p.handle_key(&themes, Key::Esc), PickerAction::Cancel);
}

#[test]
fn picker_filters_and_searches() {
    let themes = themes();
    let mut p = Picker::new(&themes);
    p.handle_key(&themes, Key::Char('f'));
    assert_eq!(p.filter, ThemeFilter::Dark);
    assert_eq!(p.filtered, vec![1, 3]);
    p.handle_key(&themes, Key::Char('f'));
    assert_eq!(p.filtered, vec![0, 2]);
    p.handle_key(&themes, Key::Char('f'));
    assert_eq!(p.filtered, vec![0, 1, 2, 3]);
    p.handle_key(&themes, Key::Char('/'));
    assert!(p.search_active);
    for c in "DEL".chars() {
        assert_eq!(p.handle_key(&themes, Key::Char(c)), PickerAction::Continue);
    }
    assert_eq!(p.search, "DEL");
    assert_eq!(p.filtered, vec![3]);
    assert_eq!(p.search_line(), "Search: DEL|");
    p.handle_key(&themes, Key::Char('x'));
    assert_eq!(p.filtered, Vec::<usize>::new());
    p.handle_key(&themes, Key::Backspace);
    assert_eq!(p.filtered, vec![3]);
    assert_eq!(p.handle_key(&themes, Key::Char('q')), PickerAction::Continue);
    assert_eq!(p.search, "DELq");
    p.handle_key(&themes, Key::Enter);
    assert!(!p.search_active);
    assert_eq!(p.search_line(), "Search: DELq");
    p.handle_key(&themes, Key::Backspace);
    assert_eq!(p.search, "");
    assert_eq!(p.filtered, vec![0, 1, 2, 3]);
    assert_eq!(p.search_line(), "Search: (press / to start, Backspace to clear)");
    p.handle_key(&themes, Key::Char('/'));
    assert_eq!(p.search_line(), "Search: |");
    p.handle_key(&themes, Key::Backspace);
    assert_eq!(p.search, "");
}

#[test]
fn frame_clamps_selection_and_lists() {
    let themes = themes();
    let mut p = Picker::new(&themes);
    p.handle_key(&themes, Key::Char('j'));
    p.handle_key(&themes, Key::Char('j'));
    p.handle_key(&themes, Key::Char('j'));
    p.handle_key(&themes, Key::Char('f'));
    assert_eq!(p.filtered, vec![1, 3]);
    let current = p.begin_frame();
    assert_eq!(current, 3);
    assert_eq!(p.selected, Some(1));
    assert_eq!(p.list_lines(&themes, current), vec!["  Beta Dark", "  Delta Dark"]);
    assert_eq!(p.preview_target(&themes, current, true), None);
    let current = p.begin_frame();
    assert_eq!(current, 1);
    assert_eq!(p.list_lines(&themes, current), vec!["  Beta Dark", "> Delta Dark"]);
    p.handle_key(&themes, Key::Char('/'));
    p.handle_key(&themes, Key::Char('z'));
    assert_eq!(p.begin_frame(), 1);
    assert_eq!(p.selected, Some(0));
    assert_eq!(p.list_lines(&themes, 0), vec!["  (no matching themes)"]);
}

#[test]
fn previews_follow_selection() {
    let themes = themes();
    let mut p = Picker::new(&themes);
    let current = p.begin_frame();
    assert_eq!(p.preview_target(&themes, current, false), None);
    assert_eq!(p.preview_target(&themes, current, true), Some(0));
    p.record_preview(&themes[0].name, PreviewOutcome::Acknowledged);
    assert!(p.preview_applied);
    assert_eq!(p.previewed, Some("Alpha".to_string()));
    assert_eq!(p.warning, None);
    assert_eq!(p.footer_line(), "Live preview on (debounced). Enter keep, q/Esc cancel");
    assert_eq!(p.preview_target(&themes, current, true), None);
    p.handle_key(&themes, Key::Down);
    let current = p.begin_frame();
    assert_eq!(p.preview_target(&themes, current, true), Some(1));
    p.record_preview(&themes[1].name, PreviewOutcome::NotAcknowledged);
    assert_eq!(p.footer_line(), "Live preview warning: reload signal not acknowledged");
    p.record_preview(&themes[1].name, PreviewOutcome::ReloadFailed("boom".to_string()));
    assert_eq!(p.warning, Some("reload error: boom".to_string()));
    p.record_preview(&themes[2].name, PreviewOutcome::ApplyFailed("disk".to_string()));
    assert_eq!(p.warning, Some("preview apply error: disk".to_string()));
    assert_eq!(p.previewed, Some("Beta Dark".to_string()));
    assert_eq!(p.filter_line(), "[Filter: all]");
}

#[test]
fn exit_restores_or_clears_after_cancel() {
    assert!(matches!(exit_plan(Some(2), true, None), ExitPlan::Apply(2)));
    assert!(matches!(exit_plan(Some(0), false, Some("X".to_string())), ExitPlan::Apply(0)));
    match exit_plan(None, true, Some("Nord".to_string())) {
        ExitPlan::Restore(name) => assert_eq!(name, "Nord"),
        other => panic!("unexpected {other:?}"),
    }
    assert!(matches!(exit_plan(None, true, None), ExitPlan::Clear));
    assert!(matches!(exit_plan(None, false, Some("Nord".to_string())), ExitPlan::Nothing));
}

#[test]
fn command_line() {
    let args = |v: &[&str]| v.iter().map(|s| s.to_string()).collect::<Vec<String>>();
    assert!(matches!(parse_args(&args(&[])), Command::Run { list_only: false }));
    assert!(matches!(parse_args(&args(&["-l"])), Command::Run { list_only: true }));
    assert!(matches!(parse_args(&args(&["--list", "--list"])), Command::Run { list_only: true }));
    assert!(matches!(parse_args(&args(&["--list", "-V"])), Command::Version));
    assert!(matches!(parse_args(&args(&["-h", "--bogus"])), Command::Help));
    assert!(matches!(parse_args(&args(&["--help", "--version"])), Command::Version));
    match parse_args(&args(&["--bogus", "-l", "x"])) {
        Command::Unknown(u) => {
            assert_eq!(u, vec!["--bogus", "x"]);
            assert_eq!(unknown_args_message(&u), "unknown argument(s): --bogus x");
        }
        other => panic!("unexpected {other:?}"),
    }
}

#[test]
fn preview_decisions() {
    assert!(preview_is_compact(39, 20));
    assert!(preview_is_compact(80, 11));
    assert!(!preview_is_compact(40, 12));
    assert_eq!(fallback_color(Color::Black, Color::Red), Color::Red);
    assert_eq!(fallback_color(Color::Blue, Color::Red), Color::Blue);
    let colors = parse_theme_content("palette = 1=#010101 9=#090909 12=#0c0c0c 8=#080808\nforeground = #ffffff");
    let t = Theme::new("T".to_string(), PathBuf::from("t"), colors, true);
    let c = preview_colors(&t);
    assert_eq!(c.keyword, Color::Rgb(1, 1, 1));
    assert_eq!(c.function, Color::Rgb(12, 12, 12));
    assert_eq!(c.type_ident, Color::Black);
    assert_eq!(c.text, Color::Rgb(255, 255, 255));
    assert_eq!(c.comment, Color::Rgb(8, 8, 8));
    assert_eq!(c.line_number, Color::Rgb(8, 8, 8));
}

#[test]
fn slash_toggles_search_mode() {
    let themes = themes();
    let mut p = Picker::new(&themes);
    p.handle_key(&themes, Key::Char('/'));
    assert!(p.search_active);
    p.handle_key(&themes, Key::Char('g'));
    assert_eq!(p.search, "g");
    assert_eq!(p.handle_key(&themes, Key::Char('/')), PickerAction::Continue);
    assert!(!p.search_active);
    assert_eq!(p.search, "g");
    assert_eq!(p.filtered, vec![2]);
    p.handle_key(&themes, Key::Char('/'));
    assert!(p.search_active);
    assert_eq!(p.search, "g");
}
