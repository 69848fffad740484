use tomcat_manager::connection::{Connection, TomcatClient};
use tomcat_manager::error::TomcatError;
use tomcat_manager::expire::{cmd_expire_from_stdin, ExpireLine, ExpireRun};
use tomcat_manager::retry::{take_answer, take_page, Outcome, RetryStep};
use tomcat_manager::trace::{trace_answer, trace_get, trace_put};
use tomcat_manager::wait::{cmd_wait, wait_notice, WaitStep};

fn client(retries: u32) -> TomcatClient {
    let conn = Connection {
        url: "http://h".to_string(),
        username: "n".to_string(),
        password: "p".to_string(),
    };
    TomcatClient::new(&conn, "/manager", false, retries, 3)
}

fn answered(text: &str) -> Outcome {
    take_answer(200, "200 OK", text.to_string())
}

fn unreachable(message: &str) -> Outcome {
    Outcome::Unreachable(message.to_string())
}

fn run(retries: u32, outcomes: Vec<Outcome>) -> (u32, Result<String, String>, Vec<String>) {
    let c = client(retries);
    let mut step = c.with_retry();
    let mut outcomes = outcomes.into_iter();
    let mut made = 0;
    let mut notices = Vec::new();
    loop {
        let attempt = match step {
            RetryStep::Attempt(n) => n,
            RetryStep::Wait { attempt, seconds, notice } => {
                assert_eq!(seconds, 3);
                notices.push(notice);
                attempt
            }
            RetryStep::Done(answer) => return (made, Ok(answer), notices),
            RetryStep::Fail(message) => return (made, Err(message), notices),
        };
        assert_eq!(attempt, made);
        made += 1;
        step = c.after_attempt(attempt, outcomes.next().unwrap());
    }
}

#[test]
fn no_attempt_is_made_where_none_is_allowed() {
    assert_eq!(run(0, vec![]), (0, Err("no attempts".to_string()), vec![]));
}

#[test]
fn a_request_is_tried_until_it_succeeds() {
    let (made, result, notices) = run(3, vec![unreachable("down"), answered("OK - up")]);
    assert_eq!((made, result), (2, Ok("OK - up".to_string())));
    assert_eq!(notices, ["↺ attempt 1/3 failed: down — retrying in 3s…\n"]);
    let (made, result, notices) = run(1, vec![answered("up")]);
    assert_eq!((made, result, notices.len()), (1, Ok("up".to_string()), 0));
}

#[test]
fn a_request_that_never_gets_through_fails_with_its_last_error() {
    let (made, result, notices) =
        run(3, vec![unreachable("a"), unreachable("b"), unreachable("c")]);
    assert_eq!((made, result), (3, Err("c".to_string())));
    assert_eq!(
        notices,
        [
            "↺ attempt 1/3 failed: a — retrying in 3s…\n",
            "↺ attempt 2/3 failed: b — retrying in 3s…\n",
        ]
    );
    let (made, result, notices) = run(1, vec![unreachable("a")]);
    assert_eq!((made, result, notices.len()), (1, Err("a".to_string()), 0));
}

#[test]
fn an_answered_error_is_final() {
    let (made, result, notices) =
        run(3, vec![take_answer(401, "401 Unauthorized", "no\n".to_string())]);
    assert_eq!((made, result), (1, Err("HTTP 401 Unauthorized: no".to_string())));
    assert!(notices.is_empty());
    let (made, result, notices) = run(3, vec![unreachable("down"), answered("FAIL - busy\n")]);
    assert_eq!((made, result, notices.len()), (2, Err("busy".to_string()), 1));
}

#[test]
fn waiting_looks_for_running() {
    assert_eq!(wait_notice("/a", 60), "Waiting for /a to be running (timeout 60s)…\n");
    for expired in [false, true] {
        match cmd_wait("OK\n/b:running:0:b\n/a:running:0:a", "/a", 60, expired) {
            WaitStep::Done(report) => assert_eq!(report, "running\n"),
            _ => panic!("it is running"),
        }
    }
    match cmd_wait("OK\n/a:stopped:0:a\n/a:running:0:a", "/a", 60, false) {
        WaitStep::Sleep(notice) => assert_eq!(notice, "  status: stopped…\n"),
        _ => panic!("the first one is stopped"),
    }
    match cmd_wait("OK\n/b:running:0:b", "/a", 60, false) {
        WaitStep::Sleep(notice) => assert_eq!(notice, "  not found yet…\n"),
        _ => panic!("it is not there"),
    }
}

#[test]
fn waiting_ends_with_the_time() {
    match cmd_wait("OK\n/a:stopped:0:a", "/a", 60, true) {
        WaitStep::Fail { notice, error } => {
            assert_eq!(notice, "  status: stopped…\n");
            assert_eq!(error.message(), "timeout: /a did not reach 'running' in 60s");
        }
        _ => panic!("the time is over"),
    }
}

fn wait(rounds: &[(&str, bool)]) -> Option<(usize, bool)> {
    for (i, (body, expired)) in rounds.iter().enumerate() {
        match cmd_wait(body, "/a", 1, *expired) {
            WaitStep::Done(_) => return Some((i, true)),
            WaitStep::Fail { .. } => return Some((i, false)),
            WaitStep::Sleep(_) => {}
        }
    }
    None
}

#[test]
fn the_first_round_that_decides_ends_the_wait() {
    let up = "OK\n/a:running:0:a";
    let down = "OK\n/a:stopped:0:a";
    assert_eq!(wait(&[(down, false), (up, false), (up, true)]), Some((1, true)));
    assert_eq!(wait(&[(down, false), (up, true)]), Some((1, true)));
    assert_eq!(wait(&[(down, true), (up, false)]), Some((0, false)));
    assert_eq!(wait(&[(down, false), (down, false)]), None);
}

fn asked(line: &str) -> Option<(String, i32)> {
    match cmd_expire_from_stdin(line) {
        ExpireLine::Expire { path, idle } => Some((path, idle)),
        _ => None,
    }
}

#[test]
fn a_line_asks_for_a_path_and_an_idle_time() {
    assert_eq!(asked("/myapp 60"), Some(("/myapp".to_string(), 60)));
    assert_eq!(asked("  /myapp \t +60 \r"), Some(("/myapp".to_string(), 60)));
    assert_eq!(asked("/\u{3000}-1"), Some(("/".to_string(), -1)));
    for idle in [0, 7, -2147483648, 2147483647] {
        assert_eq!(asked(&format!("/a {}", idle)), Some(("/a".to_string(), idle)));
    }
}

#[test]
fn blank_lines_and_comments_ask_for_nothing() {
    for line in ["", "   ", "\t", "# x", "  #/a 60", "#"] {
        assert!(matches!(cmd_expire_from_stdin(line), ExpireLine::Skip));
    }
}

#[test]
fn a_line_without_an_idle_time_is_skipped_with_a_warning() {
    match cmd_expire_from_stdin(" /myapp ") {
        ExpireLine::Malformed(w) => assert_eq!(w, "warn: skipping malformed line: /myapp\n"),
        _ => panic!("no idle time"),
    }
}

#[test]
fn an_idle_time_that_is_no_number_fails() {
    for (line, value, text) in [
        ("/a x", "x", "/a x"),
        (" /a  1 2 ", " 1 2", "/a  1 2"),
        ("/a 2147483648", "2147483648", "/a 2147483648"),
        ("/a 1.5", "1.5", "/a 1.5"),
    ] {
        match cmd_expire_from_stdin(line) {
            ExpireLine::Invalid(TomcatError::InvalidIdle { value: v, line: l }) => {
                assert_eq!((v.as_str(), l.as_str()), (value, text));
            }
            _ => panic!("not a number"),
        }
    }
}

fn work_through(lines: &[&str]) -> (Vec<(String, i32)>, String, String) {
    let mut state = ExpireRun::new();
    let mut requests = Vec::new();
    let mut out = String::new();
    let mut err = String::new();
    for line in lines {
        match cmd_expire_from_stdin(line) {
            ExpireLine::Skip => {}
            ExpireLine::Malformed(warning) => err.push_str(&warning),
            ExpireLine::Invalid(e) => {
                err.push_str(&e.message());
                return (requests, out, err);
            }
            ExpireLine::Expire { path, idle } => {
                let answer = format!("OK - answer {}\nmore", requests.len());
                requests.push((path, idle));
                out.push_str(&state.answered(&answer));
            }
        }
    }
    err.push_str(&state.finish());
    (requests, out, err)
}

#[test]
fn a_list_is_worked_through_in_order() {
    let (requests, out, err) = work_through(&["/a 1", "", "# no", "/b", "/c 3"]);
    assert_eq!(requests, [("/a".to_string(), 1), ("/c".to_string(), 3)]);
    assert_eq!(out, "OK - answer 0\nOK - answer 1\n");
    assert_eq!(
        err,
        "warn: skipping malformed line: /b\nProcessed 2 expire-session requests.\n"
    );
    assert_eq!(work_through(&[]).2, "Processed 0 expire-session requests.\n");
}

#[test]
fn a_list_stops_at_an_idle_time_that_is_no_number() {
    let (requests, out, err) = work_through(&["/a 1", "/b x", "/c 3"]);
    assert_eq!(requests, [("/a".to_string(), 1)]);
    assert_eq!(out, "OK - answer 0\n");
    assert_eq!(err, "invalid idle value 'x' on line: /b x");
}

#[test]
fn a_page_is_handed_out_as_it_is() {
    for page in ["<html>", "FAIL - no", ""] {
        let (made, result, _) = run(2, vec![take_page(page.to_string())]);
        assert_eq!((made, result), (1, Ok(page.to_string())));
    }
}

#[test]
fn requests_and_answers_are_told() {
    assert_eq!(trace_get("http://h/list", "[]"), "[http] GET http://h/list  []\n");
    assert_eq!(trace_put("http://h/deploy", 1024), "[http] PUT http://h/deploy  bytes=1024\n");
    assert_eq!(trace_answer("200 OK", " OK - x\ny \n"), "[http] 200 OK body: OK - x\ny\n");
}
