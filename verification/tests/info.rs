use std::sync::{Mutex, MutexGuard};

use colored::control::set_override;
use tomcat_manager::commands::cmd_info;
use tomcat_manager::info::{info_rows, parse_info, print_kv};
use tomcat_manager::output::OutputFmt;

/// Held while a test has colours on or off: the switch is one for the whole process.
static COLOURS: Mutex<()> = Mutex::new(());

fn colours(on: bool) -> MutexGuard<'static, ()> {
    let guard = COLOURS.lock().unwrap_or_else(|e| e.into_inner());
    set_override(on);
    guard
}

const BODY: &str = "OK - Server info\n\
Tomcat Version: [Apache Tomcat/10.1]\n\
nothing here\n\
OS Name : [Linux: x]\n";

#[test]
fn pairs_are_cut_at_the_first_colon() {
    let pairs = parse_info(BODY);
    assert_eq!(pairs.len(), 2);
    assert_eq!(pairs[0], ("Tomcat Version".to_string(), "[Apache Tomcat/10.1]".to_string()));
    assert_eq!(pairs[1], ("OS Name".to_string(), "[Linux: x]".to_string()));
    assert!(parse_info("a: b").is_empty());
}

#[test]
fn info_in_machine_formats() {
    assert_eq!(
        cmd_info(BODY, &OutputFmt::Plain),
        "Tomcat Version=[Apache Tomcat/10.1]\nOS Name=[Linux: x]\n"
    );
    assert_eq!(
        cmd_info(BODY, &OutputFmt::Tsv),
        "Tomcat Version\t[Apache Tomcat/10.1]\nOS Name\t[Linux: x]\n"
    );
    assert_eq!(
        cmd_info("OK\nk: \"v\"\nl:", &OutputFmt::Json),
        "[\n  { \"key\": \"k\", \"value\": \"\\\"v\\\"\" },\n  { \"key\": \"l\", \"value\": \"\" }\n]\n"
    );
    assert_eq!(cmd_info("OK", &OutputFmt::Json), "[\n\n]\n");
    assert_eq!(cmd_info("OK", &OutputFmt::Table), "");
}

#[test]
fn keys_stand_in_a_field() {
    let _colours = colours(false);
    assert_eq!(
        cmd_info("OK\nOS Name: Linux", &OutputFmt::Table),
        "  OS Name:                       Linux\n"
    );
    let long = "k".repeat(40);
    assert_eq!(
        cmd_info(&format!("OK\n{}: v", long), &OutputFmt::Table),
        format!("  {}: v\n", long)
    );
}

#[test]
fn keys_are_bold() {
    let _colours = colours(true);
    assert_eq!(
        cmd_info("OK\nOS Name: Linux", &OutputFmt::Table),
        "  \u{1b}[1mOS Name:                      \u{1b}[0m Linux\n"
    );
}

#[test]
fn a_style_inside_a_key_fills_its_field() {
    let _colours = colours(true);
    assert_eq!(
        cmd_info("OK\na\u{1b}[0mb: v", &OutputFmt::Table),
        format!("  \u{1b}[1m{:<30}\u{1b}[0m v\n", "a\u{1b}[0m\u{1b}[1mb:")
    );
}

#[test]
fn rows_take_the_key_as_shown() {
    let pairs = vec![("a".to_string(), "1".to_string()), ("b".to_string(), "2".to_string())];
    let fields = vec!["<a>".to_string(), "<b>".to_string()];
    assert_eq!(info_rows(&pairs, &fields), ["  <a> 1", "  <b> 2"]);
}

#[test]
fn a_tsv_pair_splits_into_columns() {
    let pairs = vec![("key".to_string(), "v\tw".to_string())];
    let text = print_kv(&pairs, &OutputFmt::Tsv);
    let columns: Vec<&str> = text.trim_end_matches('\n').splitn(2, '\t').collect();
    assert_eq!(columns, ["key", "v\tw"]);
}

#[test]
fn machine_info_has_no_colour() {
    let _colours = colours(true);
    for fmt in [OutputFmt::Plain, OutputFmt::Tsv, OutputFmt::Json] {
        assert!(!cmd_info(BODY, &fmt).contains('\u{1b}'));
    }
}

#[test]
fn each_line_of_info_is_one_pair() {
    let body = "OK\na: 1\r\r\nb:\n";
    assert_eq!(cmd_info(body, &OutputFmt::Plain).lines().collect::<Vec<&str>>(), ["a=1", "b="]);
    assert_eq!(cmd_info(body, &OutputFmt::Tsv).lines().collect::<Vec<&str>>(), ["a\t1", "b\t"]);
}

#[test]
fn pairs_are_added_line_by_line() {
    let pairs = parse_info(&format!("{}k: v", BODY));
    assert_eq!(pairs.len(), 3);
    assert_eq!(pairs[2], ("k".to_string(), "v".to_string()));
}
