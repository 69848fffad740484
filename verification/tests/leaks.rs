use std::sync::{Mutex, MutexGuard};

use colored::control::set_override;
use tomcat_manager::leaks::{bullet_lines, cmd_find_leakers, parse_leakers};
use tomcat_manager::output::OutputFmt;

/// Held while a test has colours on or off: the switch is one for the whole process.
static COLOURS: Mutex<()> = Mutex::new(());

fn colours(on: bool) -> MutexGuard<'static, ()> {
    let guard = COLOURS.lock().unwrap_or_else(|e| e.into_inner());
    set_override(on);
    guard
}

const BODY: &str = "OK - Found potential memory leaks\n/a\n\n /b \n";

#[test]
fn leakers_are_the_lines_that_are_not_blank() {
    assert_eq!(parse_leakers(BODY), ["/a", " /b "]);
    assert!(parse_leakers("OK").is_empty());
    assert!(parse_leakers("").is_empty());
}

#[test]
fn leakers_in_machine_formats() {
    for fmt in [OutputFmt::Plain, OutputFmt::Tsv] {
        let out = cmd_find_leakers(BODY, &fmt);
        assert_eq!((out.out.as_str(), out.err.as_str()), ("/a\n /b \n", ""));
        let out = cmd_find_leakers("OK", &fmt);
        assert_eq!((out.out.as_str(), out.err.as_str()), ("", ""));
    }
    let out = cmd_find_leakers("OK\n/a\n/\"b\"", &OutputFmt::Json);
    assert_eq!(
        (out.out.as_str(), out.err.as_str()),
        (
            "[\n  { \"path\": \"/a\" },\n  { \"path\": \"/\\\"b\\\"\" }\n]\n",
            ""
        )
    );
    let out = cmd_find_leakers("OK", &OutputFmt::Json);
    assert_eq!((out.out.as_str(), out.err.as_str()), ("[\n\n]\n", ""));
}

#[test]
fn leakers_for_people() {
    let _colours = colours(false);
    let out = cmd_find_leakers(BODY, &OutputFmt::Table);
    assert_eq!(out.out, "  ● /a\n  ●  /b \n");
    assert_eq!(out.err, "Memory leaking applications:\n");
    let out = cmd_find_leakers("OK", &OutputFmt::Table);
    assert_eq!((out.out.as_str(), out.err.as_str()), ("", "✓ No memory leakers found.\n"));
}

#[test]
fn leakers_in_colour() {
    let _colours = colours(true);
    let out = cmd_find_leakers("OK\n/a", &OutputFmt::Table);
    assert_eq!(out.out, "  ● \u{1b}[33m/a\u{1b}[0m\n");
    assert_eq!(out.err, "\u{1b}[1;31mMemory leaking applications:\u{1b}[0m\n");
    let out = cmd_find_leakers("OK", &OutputFmt::Table);
    assert_eq!(out.err, "\u{1b}[1;32m✓\u{1b}[0m No memory leakers found.\n");
}

#[test]
fn bullets_stand_before_the_text_as_shown() {
    let shown = vec!["x".to_string(), String::new()];
    assert_eq!(bullet_lines(&shown), ["  ● x", "  ● "]);
}

#[test]
fn machine_leak_reports_have_no_colour() {
    let _colours = colours(true);
    for fmt in [OutputFmt::Plain, OutputFmt::Tsv, OutputFmt::Json] {
        let out = cmd_find_leakers(BODY, &fmt);
        assert!(!out.out.contains('\u{1b}'));
        assert_eq!(out.err, "");
    }
}

#[test]
fn each_line_of_the_report_is_one_application() {
    let out = cmd_find_leakers("OK\n/a\r\n\n/b\r\r\n", &OutputFmt::Plain).out;
    assert_eq!(out, "/a\n/b\r\n");
    assert_eq!(out.lines().collect::<Vec<&str>>(), ["/a", "/b"]);
}

#[test]
fn leakers_are_added_line_by_line() {
    assert_eq!(parse_leakers(&format!("{}\n/c", BODY)), ["/a", " /b ", "/c"]);
}
