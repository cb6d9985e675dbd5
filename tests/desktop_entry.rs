use applauncher::desktop_entry::{parse_desktop_entry, ParseError};

#[test]
fn parses_name_command_and_arguments() {
    let text = "[Desktop Entry]\nName=Firefox\nExec=firefox --new-window %u\nIcon=firefox\n";
    let app = parse_desktop_entry("firefox.desktop", text).unwrap();
    assert_eq!(app.name, "Firefox");
    assert_eq!(app.command, "firefox");
    assert_eq!(app.args, vec!["--new-window".to_string()]);
    assert_eq!(app.icon, "\u{f269}");
    assert!(!app.terminal);
    assert_eq!(app.id, "firefox.desktop");
}

#[test]
fn terminal_flag_defaults_to_false() {
    let app = parse_desktop_entry("a.desktop", "[Desktop Entry]\nName=A\nExec=a\n").unwrap();
    assert!(!app.terminal);
}

#[test]
fn terminal_flag_true_is_read() {
    let app = parse_desktop_entry("htop.desktop", "[Desktop Entry]\nName=htop\nExec=htop\nTerminal=true\n")
        .unwrap();
    assert!(app.terminal);
}

#[test]
fn missing_name_is_rejected() {
    let r = parse_desktop_entry("a.desktop", "[Desktop Entry]\nExec=a\n");
    assert_eq!(r.err(), Some(ParseError::MissingName));
}

#[test]
fn empty_name_is_rejected() {
    let r = parse_desktop_entry("a.desktop", "[Desktop Entry]\nName=\nExec=a\n");
    assert_eq!(r.err(), Some(ParseError::MissingName));
}

#[test]
fn missing_command_is_rejected() {
    let r = parse_desktop_entry("a.desktop", "[Desktop Entry]\nName=A\n");
    assert_eq!(r.err(), Some(ParseError::MissingCommand));
}

#[test]
fn command_of_field_codes_only_is_rejected() {
    let r = parse_desktop_entry("a.desktop", "[Desktop Entry]\nName=A\nExec= %F  %u\n");
    assert_eq!(r.err(), Some(ParseError::MissingCommand));
}

#[test]
fn hidden_entry_is_rejected() {
    let r = parse_desktop_entry("a.desktop", "[Desktop Entry]\nName=A\nExec=a\nHidden=true\n");
    assert_eq!(r.err(), Some(ParseError::Hidden));
}

#[test]
fn no_display_entry_is_rejected() {
    let r = parse_desktop_entry("a.desktop", "[Desktop Entry]\nName=A\nExec=a\nNoDisplay=true\n");
    assert_eq!(r.err(), Some(ParseError::Hidden));
}

#[test]
fn no_display_false_is_accepted() {
    let r = parse_desktop_entry("a.desktop", "[Desktop Entry]\nName=A\nExec=a\nNoDisplay=false\n");
    assert!(r.is_ok());
}

#[test]
fn text_without_entry_group_is_malformed() {
    let r = parse_desktop_entry("a.desktop", "[Other]\nName=A\nExec=a\n");
    assert_eq!(r.err(), Some(ParseError::Malformed));
}

#[test]
fn key_before_any_group_is_malformed() {
    let r = parse_desktop_entry("a.desktop", "Name=A\n[Desktop Entry]\nName=A\nExec=a\n");
    assert_eq!(r.err(), Some(ParseError::Malformed));
}

#[test]
fn line_without_equals_is_malformed() {
    let r = parse_desktop_entry("a.desktop", "[Desktop Entry]\nName=A\nExec=a\ngarbage\n");
    assert_eq!(r.err(), Some(ParseError::Malformed));
}

#[test]
fn comments_blanks_and_other_groups_are_skipped() {
    let text = "# comment\n\n[Desktop Entry]\n  Name = Files \nExec=nautilus\n\n[Desktop Action new]\nName=New Window\nExec=nautilus --new-window\n";
    let app = parse_desktop_entry("files.desktop", text).unwrap();
    assert_eq!(app.name, "Files");
    assert_eq!(app.command, "nautilus");
    assert!(app.args.is_empty());
}

#[test]
fn localized_keys_do_not_replace_the_name() {
    let text = "[Desktop Entry]\nName=Terminal\nName[de]=Konsole\nExec=kitty\nIcon=kitty\n";
    let app = parse_desktop_entry("kitty.desktop", text).unwrap();
    assert_eq!(app.name, "Terminal");
    assert_eq!(app.icon, "\u{f489}");
}

#[test]
fn unknown_icon_gets_generic_glyph() {
    let text = "[Desktop Entry]\nName=Thing\nExec=thing\nIcon=something-else\n";
    let app = parse_desktop_entry("thing.desktop", text).unwrap();
    assert_eq!(app.icon, "\u{f2d0}");
    let bare = parse_desktop_entry("thing.desktop", "[Desktop Entry]\nName=Thing\nExec=thing\n").unwrap();
    assert_eq!(bare.icon, "\u{f2d0}");
}

#[test]
fn crlf_line_ends_are_accepted() {
    let app = parse_desktop_entry("a.desktop", "[Desktop Entry]\r\nName=Alpha\r\nExec=alpha -x %f\r\n").unwrap();
    assert_eq!(app.name, "Alpha");
    assert_eq!(app.command, "alpha");
    assert_eq!(app.args, vec!["-x".to_string()]);
}
