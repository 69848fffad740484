use std::sync::{Mutex, MutexGuard};

use colored::control::set_override;
use tomcat_manager::apps::{app_rows, app_status, parse_app_list, print_app_list, AppEntry};
use tomcat_manager::commands::cmd_list;
use tomcat_manager::output::OutputFmt;

/// Held while a test has colours on or off: the switch is one for the whole process.
static COLOURS: Mutex<()> = Mutex::new(());

fn colours(on: bool) -> MutexGuard<'static, ()> {
    let guard = COLOURS.lock().unwrap_or_else(|e| e.into_inner());
    set_override(on);
    guard
}

const BODY: &str = "OK - Listed applications for virtual host [localhost]\n\
/:running:0:ROOT\n\
\n\
/manager:stopped:2:manager##1:2\n";

fn fields(a: &AppEntry) -> [&str; 4] {
    [&a.path, &a.status, &a.sessions, &a.description]
}

#[test]
fn applications_are_read_line_by_line() {
    let apps = parse_app_list(BODY);
    assert_eq!(apps.len(), 2);
    assert_eq!(fields(&apps[0]), ["/", "running", "0", "ROOT"]);
    assert_eq!(fields(&apps[1]), ["/manager", "stopped", "2", "manager##1:2"]);
}

#[test]
fn missing_parts_have_defaults() {
    let apps = parse_app_list("OK\n/a\n/b:running\n/c:running:3\n :\n");
    assert_eq!(apps.len(), 4);
    assert_eq!(fields(&apps[0]), ["/a", "", "0", ""]);
    assert_eq!(fields(&apps[1]), ["/b", "running", "0", ""]);
    assert_eq!(fields(&apps[2]), ["/c", "running", "3", ""]);
    assert_eq!(fields(&apps[3]), [" ", "", "0", ""]);
}

#[test]
fn an_empty_response_lists_nothing() {
    assert!(parse_app_list("").is_empty());
    assert!(parse_app_list("/a:running:0:a").is_empty());
    assert!(parse_app_list("OK\n \n\t\n").is_empty());
}

#[test]
fn a_listed_application_reads_back() {
    let line = "/x:stopped:12:a:b:c";
    let apps = parse_app_list(&format!("OK\r\n{}\r\n", line));
    assert_eq!(fields(&apps[0]).join(":"), line);
}

#[test]
fn the_first_application_at_a_path_gives_the_status() {
    let apps = parse_app_list("OK\n/a:stopped:0:x\n/b:running:0:x\n/a:running:0:x");
    assert_eq!(app_status(&apps, "/a"), Some("stopped".to_string()));
    assert_eq!(app_status(&apps, "/b"), Some("running".to_string()));
    assert_eq!(app_status(&apps, "/c"), None);
    assert_eq!(app_status(&[], "/a"), None);
}

#[test]
fn applications_in_machine_formats() {
    let out = cmd_list(BODY, &OutputFmt::Plain);
    assert_eq!(out.out, "/ running 0 ROOT\n/manager stopped 2 manager##1:2\n");
    assert_eq!(out.err, "");
    let out = cmd_list(BODY, &OutputFmt::Tsv);
    assert_eq!(out.out, "/\trunning\t0\tROOT\n/manager\tstopped\t2\tmanager##1:2\n");
    let out = cmd_list("OK\n/a:running:1:say \"hi\"\n/b:x:2:y", &OutputFmt::Json);
    assert_eq!(
        out.out,
        "[\n  { \"path\": \"/a\", \"status\": \"running\", \"sessions\": \"1\", \
         \"description\": \"say \\\"hi\\\"\" },\n  { \"path\": \"/b\", \"status\": \"x\", \
         \"sessions\": \"2\", \"description\": \"y\" }\n]\n"
    );
}

#[test]
fn a_tsv_application_splits_into_columns() {
    let out = cmd_list("OK\n/a:running:1:x\ty", &OutputFmt::Tsv).out;
    let columns: Vec<&str> = out.trim_end_matches('\n').splitn(4, '\t').collect();
    assert_eq!(columns, ["/a", "running", "1", "x\ty"]);
}

#[test]
fn applications_as_a_table() {
    let _colours = colours(false);
    assert_eq!(
        cmd_list(BODY, &OutputFmt::Table).out,
        "+----------+---------+----------+--------------+\n\
         | Path     | Status  | Sessions | Description  |\n\
         +----------+---------+----------+--------------+\n\
         | /        | running | 0        | ROOT         |\n\
         +----------+---------+----------+--------------+\n\
         | /manager | stopped | 2        | manager##1:2 |\n\
         +----------+---------+----------+--------------+\n"
    );
}

#[test]
fn the_table_shows_the_status_in_colour() {
    let _colours = colours(true);
    let out = cmd_list(BODY, &OutputFmt::Table).out;
    assert!(out.contains("| \u{1b}[32mrunning\u{1b}[0m |"));
    assert!(out.contains("| \u{1b}[31mstopped\u{1b}[0m |"));
}

#[test]
fn rows_take_the_status_as_shown() {
    let apps = parse_app_list(BODY);
    let shown = vec!["up".to_string(), "down".to_string()];
    assert_eq!(
        app_rows(&apps, &shown),
        [
            ["Path", "Status", "Sessions", "Description"],
            ["/", "up", "0", "ROOT"],
            ["/manager", "down", "2", "manager##1:2"],
        ]
    );
}

#[test]
fn a_table_of_nothing_has_its_header() {
    assert_eq!(
        print_app_list(&[], &OutputFmt::Table),
        "+------+--------+----------+-------------+\n\
         | Path | Status | Sessions | Description |\n\
         +------+--------+----------+-------------+\n"
    );
}

#[test]
fn no_applications_tells_people_or_gives_an_empty_list() {
    let _colours = colours(false);
    let out = cmd_list("OK\n", &OutputFmt::Table);
    assert_eq!((out.out.as_str(), out.err.as_str()), ("", "No applications deployed.\n"));
    let out = cmd_list("OK\n", &OutputFmt::Plain);
    assert_eq!((out.out.as_str(), out.err.as_str()), ("", ""));
    let out = cmd_list("OK\n", &OutputFmt::Json);
    assert_eq!((out.out.as_str(), out.err.as_str()), ("[\n\n]\n", ""));
}

#[test]
fn no_applications_is_told_in_yellow() {
    let _colours = colours(true);
    assert_eq!(
        cmd_list("OK\n", &OutputFmt::Table).err,
        "\u{1b}[33mNo applications deployed.\u{1b}[0m\n"
    );
}

#[test]
fn machine_lists_have_no_colour() {
    let _colours = colours(true);
    for fmt in [OutputFmt::Plain, OutputFmt::Tsv, OutputFmt::Json] {
        assert!(!cmd_list(BODY, &fmt).out.contains('\u{1b}'));
    }
}

#[test]
fn each_line_of_the_list_is_one_application() {
    let body = "OK\n/a:running:0:x\r\r\n\n/b:stopped:1:y\n";
    let out = cmd_list(body, &OutputFmt::Tsv).out;
    assert_eq!(out, "/a\trunning\t0\tx\r\n/b\tstopped\t1\ty\n");
    assert_eq!(out.lines().collect::<Vec<&str>>(), ["/a\trunning\t0\tx", "/b\tstopped\t1\ty"]);
    assert_eq!(cmd_list(body, &OutputFmt::Plain).out.lines().count(), 2);
}

#[test]
fn applications_are_added_line_by_line() {
    let apps = parse_app_list(&format!("{}\n/x:running:1:x", BODY));
    assert_eq!(apps.len(), 3);
    assert_eq!(fields(&apps[2]), ["/x", "running", "1", "x"]);
}
