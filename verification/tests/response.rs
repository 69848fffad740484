use tomcat_manager::error::TomcatError;
use tomcat_manager::response::{check_tomcat_response, confirmation, read_answer};

fn refused(body: &str) -> Option<String> {
    match check_tomcat_response(body) {
        Ok(()) => None,
        Err(TomcatError::Refused(reason)) => Some(reason),
        Err(_) => panic!("another error"),
    }
}

#[test]
fn a_refusal_is_told_by_its_reason() {
    assert_eq!(refused("FAIL - No context exists\nmore").as_deref(), Some("No context exists"));
    assert_eq!(refused("FAIL - No context exists \r\n").as_deref(), Some("No context exists"));
    assert_eq!(refused("  FAIL - x").as_deref(), Some("x"));
    assert_eq!(refused("FAIL").as_deref(), Some("FAIL"));
    assert_eq!(refused("FAILED").as_deref(), Some("FAILED"));
    assert_eq!(refused("FAIL - ").as_deref(), Some("FAIL -"));
}

#[test]
fn other_answers_are_no_refusal() {
    assert_eq!(refused(""), None);
    assert_eq!(refused("OK - Started"), None);
    assert_eq!(refused("OK - FAIL"), None);
    assert_eq!(refused("OK\nFAIL - later"), None);
    assert_eq!(refused("fail - x"), None);
}

#[test]
fn an_answer_is_checked_status_first() {
    assert_eq!(read_answer(200, "200 OK", "OK - x\n".to_string()).unwrap(), "OK - x\n");
    assert_eq!(read_answer(299, "299", "".to_string()).unwrap(), "");
    let e = read_answer(401, "401 Unauthorized", " FAIL - no \n".to_string()).unwrap_err();
    assert_eq!(e.message(), "HTTP 401 Unauthorized: FAIL - no");
    for code in [100, 199, 300, 404, 500] {
        let e = read_answer(code, "s", "OK".to_string()).unwrap_err();
        assert!(matches!(e, TomcatError::Http { .. }));
    }
    let e = read_answer(200, "200 OK", "FAIL - no\n".to_string()).unwrap_err();
    assert_eq!(e.message(), "no");
}

#[test]
fn a_confirmation_is_what_follows_ok() {
    assert_eq!(confirmation("OK - Undeployed\nx"), "Undeployed");
    assert_eq!(confirmation("OK - "), "");
    assert_eq!(confirmation("OK"), "OK");
    assert_eq!(confirmation("done"), "OK");
    assert_eq!(refused("OK - Undeployed\nx"), None);
}

#[test]
fn errors_have_messages() {
    let text = |s: &str| s.to_string();
    assert_eq!(TomcatError::ProfileNotFound(text("p")).message(), "profile 'p' not found");
    assert_eq!(TomcatError::ProfilesNotWritten.message(), "failed to write profiles");
    assert_eq!(
        TomcatError::ConnectionFailed(text("http://h")).message(),
        "connection failed: http://h"
    );
    assert_eq!(TomcatError::UnreadableFile(text("a.war")).message(), "cannot read a.war");
    assert_eq!(TomcatError::StdinUnreadable.message(), "stdin read error");
    assert_eq!(
        TomcatError::WaitTimeout { path: text("/a"), timeout: 60 }.message(),
        "timeout: /a did not reach 'running' in 60s"
    );
    assert_eq!(
        TomcatError::InvalidIdle { value: text("x"), line: text("/a x") }.message(),
        "invalid idle value 'x' on line: /a x"
    );
}
