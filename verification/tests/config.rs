use gsty::config::{active_theme_name, theme_file_contents};
use gsty::process::ghostty_pids;

#[test]
fn theme_file_holds_one_line() {
    assert_eq!(theme_file_contents("Dracula"), "theme = Dracula\n");
}

#[test]
fn active_theme_is_read_back() {
    assert_eq!(active_theme_name("theme = Dracula\n"), Some("Dracula".to_string()));
    assert_eq!(
        active_theme_name("# comment\n\nfont-size = 12\n  theme=  Nord Light  \ntheme = Other\n"),
        Some("Nord Light".to_string())
    );
    assert_eq!(active_theme_name("theme = \ntheme = Second"), Some("Second".to_string()));
    assert_eq!(active_theme_name("#theme = X\nthemes = Y\n"), None);
    assert_eq!(active_theme_name(""), None);
    assert_eq!(active_theme_name("theme = a=b"), Some("a=b".to_string()));
}

#[test]
fn written_theme_reads_back() {
    for name in ["Dracula", "Catppuccin Mocha", "a=b", " padded "] {
        let text = theme_file_contents(name);
        assert_eq!(active_theme_name(&text), Some(name.trim().to_string()));
    }
}

#[test]
fn ghostty_processes_are_found() {
    let output = "  101 /Applications/Ghostty.app/Contents/MacOS/ghostty\n\
                  202 ghostty\n\
                  303 /usr/bin/ghostty --config x\n\
                  404 /usr/local/bin/ghostty\n\
                  505 vim ghostty.txt\n\
                  606\n\
                  \n\
                  707\tghostty  \r\n\
                  808 /opt/ghostty";
    assert_eq!(ghostty_pids(output), vec!["101", "202", "404", "707", "808"]);
    assert_eq!(ghostty_pids(""), Vec::<String>::new());
}
