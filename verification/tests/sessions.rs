use std::sync::{Mutex, MutexGuard};

use colored::control::set_override;
use tomcat_manager::commands::cmd_sessions;
use tomcat_manager::output::OutputFmt;
use tomcat_manager::sessions::{bucket_rows, parse_sessions, print_session_buckets, SessionBucket};

/// Held while a test has colours on or off: the switch is one for the whole process.
static COLOURS: Mutex<()> = Mutex::new(());

fn colours(on: bool) -> MutexGuard<'static, ()> {
    let guard = COLOURS.lock().unwrap_or_else(|e| e.into_inner());
    set_override(on);
    guard
}

const BODY: &str = "OK - Session information for application at context path /myapp\n\
Default maximum session inactive interval 30 minutes\n\
<1 minutes: 5 sessions\n\
1 - 5 minutes: 12 sessions\n\
5 - 10 minutes: 3 sessions\n\
10 - 20 minutes: 1 sessions\n";

fn rows(body: &str) -> Vec<(u64, u64)> {
    parse_sessions(body, "/myapp").iter().map(|b| (b.idle_min, b.count)).collect()
}

fn row(line: &str) -> Option<(u64, u64)> {
    let found = rows(&format!("OK\n{}\n", line));
    assert!(found.len() <= 1);
    found.first().copied()
}

#[test]
fn the_histogram_is_read_in_order() {
    assert_eq!(rows(BODY), [(0, 5), (1, 12), (5, 3), (10, 1)]);
    assert!(parse_sessions(BODY, "/myapp").iter().all(|b| b.path == "/myapp"));
}

#[test]
fn a_labelled_row_counts_like_a_bare_one() {
    assert_eq!(row("Session idle times histogram: 10 - 20 minutes: 3 sessions"), Some((10, 3)));
    assert_eq!(row("Session idle times histogram: 30+ minutes: 3 sessions"), Some((30, 3)));
    assert_eq!(row("10 - 20 minutes: 3 sessions"), Some((10, 3)));
}

#[test]
fn lower_bounds() {
    assert_eq!(row("<1: 1 session"), Some((0, 1)));
    assert_eq!(row("<5: 1 session"), Some((0, 1)));
    assert_eq!(row("<0: 1 session"), Some((0, 1)));
    assert_eq!(row("<5 minutes: 1 session"), Some((0, 1)));
    assert_eq!(row("< 7 : 1 session"), Some((0, 1)));
    assert_eq!(row("1 - 5: 2 sessions"), Some((1, 2)));
    assert_eq!(row("x - 5 minutes: 2 sessions"), Some((0, 2)));
    assert_eq!(row("30+: 2 sessions"), Some((30, 2)));
    assert_eq!(row("30+ minutes: 2 sessions"), Some((30, 2)));
    assert_eq!(row("45 minutes: 2 sessions"), Some((45, 2)));
    assert_eq!(row("45: 2 sessions"), Some((45, 2)));
    assert_eq!(row("some time: 2 sessions"), Some((0, 2)));
    assert_eq!(row("18446744073709551615+: 2 sessions"), Some((u64::MAX, 2)));
}

#[test]
fn lines_that_hold_no_row() {
    assert_eq!(row(""), None);
    assert_eq!(row("Default maximum session inactive interval 30 minutes"), None);
    assert_eq!(row("1 - 5 minutes: 0 sessions"), None);
    assert_eq!(row("1 - 5 minutes: many sessions"), None);
    assert_eq!(row("1 - 5 minutes:3 sessions"), None);
    assert_eq!(row("1 - 5 minutes: -3 sessions"), None);
    assert_eq!(row("1 - 5 minutes: 3 users"), None);
    assert_eq!(row("1 - 5 minutes: 3 sessions expired"), None);
    assert_eq!(row("1 - 5 minutes: 3 session expired"), None);
    assert_eq!(row("1 - 5 minutes: 3 sessionss"), None);
    assert_eq!(row("1 - 5 minutes: 18446744073709551616 sessions"), None);
}

#[test]
fn rows_may_be_indented_and_say_session() {
    assert_eq!(row("   1 - 5 minutes:  +3  session  "), Some((1, 3)));
    assert_eq!(row("\t10 - 20 minutes: 1 session"), Some((10, 1)));
}

#[test]
fn the_first_line_holds_no_row() {
    assert_eq!(rows("1 - 5 minutes: 3 sessions\n5 - 10 minutes: 4 sessions"), [(5, 4)]);
    assert_eq!(rows(""), []);
}

#[test]
fn sessions_in_machine_formats() {
    let buckets = parse_sessions("OK\n1 - 5 minutes: 12 sessions\n30+: 1 session", "/a\"b");
    assert_eq!(
        print_session_buckets(&buckets, &OutputFmt::Plain),
        "idle=1 count=12 path=/a\"b\nidle=30 count=1 path=/a\"b\n"
    );
    assert_eq!(
        print_session_buckets(&buckets, &OutputFmt::Tsv),
        "1\t12\t/a\"b\n30\t1\t/a\"b\n"
    );
    assert_eq!(
        print_session_buckets(&buckets, &OutputFmt::Json),
        "[\n  { \"idle_minutes\": 1, \"count\": 12, \"path\": \"/a\\\"b\" },\n  \
         { \"idle_minutes\": 30, \"count\": 1, \"path\": \"/a\\\"b\" }\n]\n"
    );
}

#[test]
fn sessions_as_a_table() {
    let buckets = parse_sessions("OK\n1 - 5 minutes: 12 sessions\n10 - 20 minutes: 1 session", "/a");
    assert_eq!(
        bucket_rows(&buckets),
        [["Idle (min)", "Sessions"], ["1", "12"], ["10", "1"]]
    );
    assert_eq!(
        print_session_buckets(&buckets, &OutputFmt::Table),
        "+------------+----------+\n\
         | Idle (min) | Sessions |\n\
         +------------+----------+\n\
         | 1          | 12       |\n\
         +------------+----------+\n\
         | 10         | 1        |\n\
         +------------+----------+\n"
    );
}

#[test]
fn a_tsv_row_splits_into_columns() {
    let bucket = SessionBucket { idle_min: 60, count: 7, path: "/my\tapp".to_string() };
    let text = print_session_buckets(&[bucket], &OutputFmt::Tsv);
    let columns: Vec<&str> = text.trim_end_matches('\n').splitn(3, '\t').collect();
    assert_eq!(columns, ["60", "7", "/my\tapp"]);
}

#[test]
fn each_line_of_output_is_one_row() {
    for fmt in [OutputFmt::Plain, OutputFmt::Tsv] {
        let out = cmd_sessions(BODY, "/myapp", &fmt);
        assert_eq!(out.out.lines().count(), 4);
        assert_eq!(out.err, "");
    }
}

#[test]
fn no_sessions_tells_people_only() {
    let body = "OK - Session information\nDefault maximum session inactive interval 30 minutes";
    let out = cmd_sessions(body, "/myapp", &OutputFmt::Table);
    assert_eq!((out.out.as_str(), out.err.as_str()), ("", "No active sessions for /myapp\n"));
    for fmt in [OutputFmt::Plain, OutputFmt::Tsv, OutputFmt::Json] {
        let out = cmd_sessions(body, "/myapp", &fmt);
        assert_eq!((out.out.as_str(), out.err.as_str()), ("", ""));
    }
}

#[test]
fn machine_sessions_have_no_colour() {
    let _colours = colours(true);
    for fmt in [OutputFmt::Plain, OutputFmt::Tsv, OutputFmt::Json] {
        assert!(!cmd_sessions(BODY, "/myapp", &fmt).out.contains('\u{1b}'));
    }
}

#[test]
fn rows_are_read_line_by_line() {
    let more = "20 - 30 minutes: 2 sessions\n";
    let mut all = rows(BODY);
    all.push((20, 2));
    assert_eq!(rows(&format!("{}{}", BODY, more)), all);
}
