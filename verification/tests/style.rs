use std::sync::{Mutex, MutexGuard};

use colored::control::set_override;
use tomcat_manager::commands::{die, die_as, print_ok, print_ok_as};
use tomcat_manager::output::OutputFmt;
use tomcat_manager::style::{colorize_status, status_colour, Colour};

/// Held while a test has colours on or off: the switch is one for the whole process.
static COLOURS: Mutex<()> = Mutex::new(());

fn colours(on: bool) -> MutexGuard<'static, ()> {
    let guard = COLOURS.lock().unwrap_or_else(|e| e.into_inner());
    set_override(on);
    guard
}

#[test]
fn status_is_plain_without_colours() {
    let _colours = colours(false);
    assert_eq!(colorize_status("running"), "running");
    assert_eq!(colorize_status("stopped"), "stopped");
    assert_eq!(colorize_status("failed"), "failed");
}

#[test]
fn status_is_painted_by_what_it_is() {
    let _colours = colours(true);
    assert_eq!(colorize_status("running"), "\u{1b}[32mrunning\u{1b}[0m");
    assert_eq!(colorize_status("stopped"), "\u{1b}[31mstopped\u{1b}[0m");
    assert_eq!(colorize_status("Running"), "\u{1b}[33mRunning\u{1b}[0m");
    assert_eq!(colorize_status(""), "\u{1b}[33m\u{1b}[0m");
}

#[test]
fn a_style_goes_on_after_a_reset_inside() {
    let _colours = colours(true);
    assert_eq!(
        colorize_status("a\u{1b}[0mb\u{1b}[0m"),
        "\u{1b}[33ma\u{1b}[0m\u{1b}[33mb\u{1b}[0m\u{1b}[33m\u{1b}[0m"
    );
}

#[test]
fn marks_are_bold() {
    let _colours = colours(true);
    assert_eq!(print_ok("OK - done\n"), "\u{1b}[1;32m✓\u{1b}[0m done\n");
    assert_eq!(die("no"), "\u{1b}[1;31m✗\u{1b}[0m no\n");
}

#[test]
fn marks_without_colours() {
    let _colours = colours(false);
    assert_eq!(print_ok("OK - Started application at [/a]\nx"), "✓ Started application at [/a]\n");
    assert_eq!(print_ok("OK\n"), "✓ OK\n");
    assert_eq!(print_ok(""), "✓ OK\n");
    assert_eq!(print_ok("  OK - indented"), "✓ OK\n");
    assert_eq!(die("no attempts"), "✗ no attempts\n");
}

#[test]
fn each_status_has_its_colour() {
    assert_eq!(status_colour("running"), Colour::Green);
    assert_eq!(status_colour("stopped"), Colour::Red);
    assert_eq!(status_colour("Running"), Colour::Yellow);
    assert_eq!(status_colour(""), Colour::Yellow);
}

#[test]
fn reports_to_machines_have_no_colour() {
    let _colours = colours(true);
    for fmt in [OutputFmt::Plain, OutputFmt::Tsv, OutputFmt::Json] {
        assert_eq!(print_ok_as("OK - done\n", &fmt), "✓ done\n");
        assert_eq!(die_as("no", &fmt), "✗ no\n");
    }
    assert_eq!(print_ok_as("OK - done\n", &OutputFmt::Table), "\u{1b}[1;32m✓\u{1b}[0m done\n");
    assert_eq!(die_as("no", &OutputFmt::Table), "\u{1b}[1;31m✗\u{1b}[0m no\n");
}
