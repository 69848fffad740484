//! What the manager answers.

use vstd::prelude::*;

use crate::error::{TomcatError, TomcatErrorView};
use crate::text::{
    after_prefix, chars_of, chomped, first_line, first_line_of, lemma_first_at_is,
    lemma_trimmed_end_append, lemma_trimmed_end_first, starts_with, strip_prefix, text_of, trim,
    trimmed, trimmed_end, trimmed_start,
};

verus! {

/// The reason of a refusal. The manager refuses with a first line that starts with
/// `FAIL`, and the reason stands after `FAIL - `; a line of another shape is itself
/// the reason.
pub open spec fn refusal(body: Seq<char>) -> Option<Seq<char>> {
    let first = trimmed(first_line_of(body));
    if "FAIL"@.is_prefix_of(first) {
        match after_prefix(first, "FAIL - "@) {
            Some(reason) => Some(reason),
            None => Some(first),
        }
    } else {
        None
    }
}

/// Tells whether the manager carried out the request, from the text of its answer.
pub fn check_tomcat_response(body: &str) -> (r: Result<(), TomcatError>)
    ensures
        match r {
            Ok(_) => refusal(body@) is None,
            Err(e) => refusal(body@) is Some && e@ == TomcatErrorView::Refused(refusal(body@)->0),
        },
{
    let cs = chars_of(body);
    let first = trim(first_line(cs.as_slice()));
    let fail = chars_of("FAIL");
    if starts_with(first, fail.as_slice()) {
        let mark = chars_of("FAIL - ");
        let reason = match strip_prefix(first, mark.as_slice()) {
            Some(rest) => rest,
            None => first,
        };
        return Err(TomcatError::Refused(text_of(reason)));
    }
    Ok(())
}

/// A status code of success.
pub open spec fn is_success(code: u16) -> bool {
    200 <= code < 300
}

/// The error that an answer stands for, if any: a status other than success comes
/// first, then a refusal.
pub open spec fn answer_error(code: u16, status: Seq<char>, body: Seq<char>) -> Option<
    TomcatErrorView,
> {
    if !is_success(code) {
        Some(TomcatErrorView::Http { status, body: trimmed(body) })
    } else {
        match refusal(body) {
            Some(reason) => Some(TomcatErrorView::Refused(reason)),
            None => None,
        }
    }
}

/// Takes an answer with its status code, the text of its status and its body: gives
/// the body back, or the error that the answer stands for.
pub fn read_answer(code: u16, status: &str, body: String) -> (r: Result<String, TomcatError>)
    ensures
        match r {
            Ok(text) => answer_error(code, status@, body@) is None && text@ == body@,
            Err(e) => answer_error(code, status@, body@) == Some(e@),
        },
        code < 200 || code >= 300 ==> (r matches Err(e) && e@ == (TomcatErrorView::Http {
            status: status@,
            body: trimmed(body@),
        })),
        200 <= code < 300 && refusal(body@) is None ==> (r matches Ok(text) && text@ == body@),
        200 <= code < 300 && refusal(body@) is Some ==> (r matches Err(e) && e@
            == TomcatErrorView::Refused(refusal(body@)->0)),
{
    if !(200 <= code && code < 300) {
        let cs = chars_of(body.as_str());
        return Err(
            TomcatError::Http { status: status.to_owned(), body: text_of(trim(cs.as_slice())) },
        );
    }
    match check_tomcat_response(body.as_str()) {
        Ok(_) => Ok(body),
        Err(e) => Err(e),
    }
}

/// The message of an answer that confirms a request.
pub open spec fn ok_message(body: Seq<char>) -> Seq<char> {
    match after_prefix(first_line_of(body), "OK - "@) {
        Some(message) => message,
        None => "OK"@,
    }
}

/// The message of an answer that confirms a request: what follows `OK - ` in its
/// first line, or `OK`.
pub fn confirmation(body: &str) -> (r: String)
    ensures
        r@ == ok_message(body@),
{
    let cs = chars_of(body);
    let mark = chars_of("OK - ");
    match strip_prefix(first_line(cs.as_slice()), mark.as_slice()) {
        Some(message) => text_of(message),
        None => "OK".to_owned(),
    }
}

/// An answer that confirms a request is not a refusal: no first line starts with both
/// `OK - ` and `FAIL`.
pub proof fn lemma_confirmation_is_no_refusal(body: Seq<char>)
    requires
        "OK - "@.is_prefix_of(first_line_of(body)),
    ensures
        refusal(body) is None,
{
    reveal_strlit("OK - ");
    reveal_strlit("FAIL");
    let line = first_line_of(body);
    assert("OK - "@[0] == line[0]);
    lemma_trimmed_end_first(line);
    let first = trimmed(line);
    if "FAIL"@.is_prefix_of(first) {
        assert("FAIL"@[0] == first[0]);
    }
}

/// A refusal is told by its reason: an answer whose first line is `FAIL - ` and a
/// reason that is not blank gives that reason, up to the white space at its end,
/// whatever lines follow.
pub proof fn lemma_refusal_reason(reason: Seq<char>, rest: Seq<char>)
    requires
        !reason.contains('\n'),
        trimmed_end(reason).len() > 0,
    ensures
        refusal("FAIL - "@ + reason) == Some(trimmed_end(reason)),
        refusal("FAIL - "@ + reason + seq!['\n'] + rest) == Some(trimmed_end(reason)),
{
    reveal_strlit("FAIL");
    reveal_strlit("FAIL - ");
    let line = "FAIL - "@ + reason;
    let first = "FAIL - "@ + trimmed_end(reason);
    lemma_trimmed_end_append("FAIL - "@, reason);
    assert(trimmed_start(line) == line);
    assert(trimmed(line) == first);
    assert(trimmed(chomped(line)) == first) by {
        if line.last() == '\r' {
            assert(trimmed_start(line.drop_last()) == line.drop_last());
            assert(trimmed_end(line) == trimmed_end(line.drop_last()));
        }
    }
    assert("FAIL"@.is_prefix_of(first));
    assert("FAIL - "@.is_prefix_of(first));
    assert(first.skip(7) == trimmed_end(reason));
    assert forall|i: int| 0 <= i < line.len() implies line[i] != '\n' by {
        if i >= 7 {
            assert(line[i] == reason[i - 7]);
            assert(reason.contains(reason[i - 7]));
        }
    }
    lemma_first_at_is(line, '\n', line.len() as int);
    let body = line + seq!['\n'] + rest;
    assert(body[line.len() as int] == '\n');
    assert forall|i: int| 0 <= i < line.len() implies body[i] != '\n' by {
        assert(body[i] == line[i]);
    }
    lemma_first_at_is(body, '\n', line.len() as int);
    assert(body.take(line.len() as int) == line);
}

} // verus!
