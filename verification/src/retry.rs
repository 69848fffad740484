//! Trying a request again.
//!
//! The caller makes the attempts and waits between them; what to do next is decided
//! here from how the last attempt went.

use vstd::prelude::*;
use vstd::string::*;

use crate::connection::TomcatClient;
use crate::error::error_message;
use crate::number::{decimal_text, u64_text};
use crate::response::{answer_error, read_answer, refusal};
use crate::text::trimmed;

verus! {

/// What to do next.
#[derive(Debug)]
pub enum RetryStep {
    /// Make the attempt with this number, counted from 0.
    Attempt(u32),
    /// Tell `notice`, wait, and make the attempt with this number.
    Wait { attempt: u32, seconds: u64, notice: String },
    /// Hand out this answer.
    Done(String),
    /// Fail with this message.
    Fail(String),
}

/// The contents of a `RetryStep`.
pub enum RetryStepView {
    Attempt(u32),
    Wait { attempt: u32, seconds: u64, notice: Seq<char> },
    Done(Seq<char>),
    Fail(Seq<char>),
}

impl View for RetryStep {
    type V = RetryStepView;

    open spec fn view(&self) -> RetryStepView {
        match self {
            RetryStep::Attempt(n) => RetryStepView::Attempt(*n),
            RetryStep::Wait { attempt, seconds, notice } => RetryStepView::Wait {
                attempt: *attempt,
                seconds: *seconds,
                notice: notice@,
            },
            RetryStep::Done(answer) => RetryStepView::Done(answer@),
            RetryStep::Fail(message) => RetryStepView::Fail(message@),
        }
    }
}

/// How an attempt went.
#[derive(Debug)]
pub enum Outcome {
    /// The server gave this answer.
    Answered(String),
    /// The connection failed, with this message.
    Unreachable(String),
    /// The server answered with an error, which has this message.
    Rejected(String),
}

/// The contents of an `Outcome`.
pub enum OutcomeView {
    Answered(Seq<char>),
    Unreachable(Seq<char>),
    Rejected(Seq<char>),
}

impl View for Outcome {
    type V = OutcomeView;

    open spec fn view(&self) -> OutcomeView {
        match self {
            Outcome::Answered(answer) => OutcomeView::Answered(answer@),
            Outcome::Unreachable(message) => OutcomeView::Unreachable(message@),
            Outcome::Rejected(message) => OutcomeView::Rejected(message@),
        }
    }
}

/// How an attempt went that got an answer.
pub open spec fn answer_outcome(code: u16, status: Seq<char>, body: Seq<char>) -> OutcomeView {
    match answer_error(code, status, body) {
        Some(e) => OutcomeView::Rejected(error_message(e)),
        None => OutcomeView::Answered(body),
    }
}

/// Takes an answer with its status code, the text of its status and its body: tells
/// how the attempt went.
pub fn take_answer(code: u16, status: &str, body: String) -> (r: Outcome)
    ensures
        r@ == answer_outcome(code, status@, body@),
        code < 200 || code >= 300 ==> r@ == OutcomeView::Rejected(
            "HTTP "@ + status@ + ": "@ + trimmed(body@),
        ),
        200 <= code < 300 ==> r@ == match refusal(body@) {
            Some(reason) => OutcomeView::Rejected(reason),
            None => OutcomeView::Answered(body@),
        },
{
    match read_answer(code, status, body) {
        Ok(text) => Outcome::Answered(text),
        Err(e) => Outcome::Rejected(e.message()),
    }
}

/// Takes a page: it is handed out as it is, whatever its status.
pub fn take_page(body: String) -> (r: Outcome)
    ensures
        r@ == OutcomeView::Answered(body@),
{
    Outcome::Answered(body)
}

/// The line that announces another attempt.
pub open spec fn retry_notice(
    attempt: u32,
    retries: u32,
    message: Seq<char>,
    seconds: u64,
) -> Seq<char> {
    "↺ attempt "@ + decimal_text((attempt + 1) as nat) + "/"@ + decimal_text(retries as nat)
        + " failed: "@ + message + " — retrying in "@ + decimal_text(seconds as nat)
        + "s…\n"@
}

/// The step to start with.
pub open spec fn retry_start(retries: u32) -> RetryStepView {
    if retries == 0 {
        RetryStepView::Fail("no attempts"@)
    } else {
        RetryStepView::Attempt(0)
    }
}

/// The step after an attempt. An answer is handed out, and an error that the server
/// answers with is final. A failed connection leads to another attempt unless this was
/// the last one.
pub open spec fn retry_next(
    retries: u32,
    seconds: u64,
    attempt: u32,
    outcome: OutcomeView,
) -> RetryStepView {
    match outcome {
        OutcomeView::Answered(answer) => RetryStepView::Done(answer),
        OutcomeView::Rejected(message) => RetryStepView::Fail(message),
        OutcomeView::Unreachable(message) => if attempt + 1 < retries {
            RetryStepView::Wait {
                attempt: (attempt + 1) as u32,
                seconds,
                notice: retry_notice(attempt, retries, message, seconds),
            }
        } else {
            RetryStepView::Fail(message)
        },
    }
}

impl TomcatClient {
    /// The step to start a request with.
    pub fn with_retry(&self) -> (r: RetryStep)
        ensures
            r@ == retry_start(self.retries),
    {
        if self.retries == 0 {
            RetryStep::Fail("no attempts".to_owned())
        } else {
            RetryStep::Attempt(0)
        }
    }

    /// The step after the attempt with the given number.
    pub fn after_attempt(&self, attempt: u32, outcome: Outcome) -> (r: RetryStep)
        requires
            attempt < self.retries,
        ensures
            r@ == retry_next(self.retries, self.retry_delay, attempt, outcome@),
    {
        match outcome {
            Outcome::Answered(answer) => RetryStep::Done(answer),
            Outcome::Rejected(message) => RetryStep::Fail(message),
            Outcome::Unreachable(message) => {
                if attempt + 1 < self.retries {
                    let mut notice = "↺ attempt ".to_owned();
                    notice.append(u64_text((attempt + 1) as u64).as_str());
                    notice.append("/");
                    notice.append(u64_text(self.retries as u64).as_str());
                    notice.append(" failed: ");
                    notice.append(message.as_str());
                    notice.append(" — retrying in ");
                    notice.append(u64_text(self.retry_delay).as_str());
                    notice.append("s…\n");
                    RetryStep::Wait { attempt: attempt + 1, seconds: self.retry_delay, notice }
                } else {
                    RetryStep::Fail(message)
                }
            },
        }
    }
}

/// How a request ends: after how many attempts, and with an answer or with the message
/// of an error.
pub struct RetryEnd {
    pub attempts: nat,
    pub result: Result<Seq<char>, Seq<char>>,
}

/// How a request ends that follows the steps from the attempt `attempt` on, where the
/// attempt with number `k` goes as `outcomes[k]` says.
pub open spec fn retry_run(
    retries: u32,
    seconds: u64,
    attempt: u32,
    outcomes: Seq<OutcomeView>,
) -> RetryEnd
    decreases retries - attempt,
{
    match retry_next(retries, seconds, attempt, outcomes[attempt as int]) {
        RetryStepView::Done(answer) => RetryEnd {
            attempts: (attempt + 1) as nat,
            result: Ok(answer),
        },
        RetryStepView::Fail(message) => RetryEnd {
            attempts: (attempt + 1) as nat,
            result: Err(message),
        },
        RetryStepView::Wait { attempt: next, .. } => retry_run(retries, seconds, next, outcomes),
        RetryStepView::Attempt(_) => arbitrary(),
    }
}

/// What an outcome says of the request: its answer, or the message of its error.
pub open spec fn outcome_result(outcome: OutcomeView) -> Result<Seq<char>, Seq<char>> {
    match outcome {
        OutcomeView::Answered(answer) => Ok(answer),
        OutcomeView::Unreachable(message) => Err(message),
        OutcomeView::Rejected(message) => Err(message),
    }
}

proof fn lemma_run(
    retries: u32,
    seconds: u64,
    attempt: u32,
    outcomes: Seq<OutcomeView>,
    k: u32,
)
    requires
        attempt <= k < retries,
        retries <= outcomes.len(),
        !(outcomes[k as int] is Unreachable) || k + 1 == retries,
        forall|i: int| attempt <= i < k ==> (#[trigger] outcomes[i]) is Unreachable,
    ensures
        retry_run(retries, seconds, attempt, outcomes) == (RetryEnd {
            attempts: (k + 1) as nat,
            result: outcome_result(outcomes[k as int]),
        }),
    decreases k - attempt,
{
    if attempt < k {
        assert(outcomes[attempt as int] is Unreachable);
        lemma_run(retries, seconds, (attempt + 1) as u32, outcomes, k);
    }
}

/// A request is tried until the server answers: with the first answer at attempt `k`
/// of those allowed, it ends there, with that answer or with the error that the
/// answer stands for.
pub proof fn lemma_retry_stops_at_answer(
    retries: u32,
    seconds: u64,
    outcomes: Seq<OutcomeView>,
    k: u32,
)
    requires
        k < retries,
        retries <= outcomes.len(),
        !(outcomes[k as int] is Unreachable),
        forall|i: int| 0 <= i < k ==> (#[trigger] outcomes[i]) is Unreachable,
    ensures
        retry_run(retries, seconds, 0, outcomes) == (RetryEnd {
            attempts: (k + 1) as nat,
            result: outcome_result(outcomes[k as int]),
        }),
{
    lemma_run(retries, seconds, 0, outcomes, k);
}

/// A request that never reaches the server is tried as often as allowed, and fails
/// with the error of its last attempt.
pub proof fn lemma_retry_gives_up(retries: u32, seconds: u64, outcomes: Seq<OutcomeView>)
    requires
        0 < retries,
        retries <= outcomes.len(),
        forall|i: int| 0 <= i < retries ==> (#[trigger] outcomes[i]) is Unreachable,
    ensures
        retry_run(retries, seconds, 0, outcomes) == (RetryEnd {
            attempts: retries as nat,
            result: outcome_result(outcomes[retries - 1]),
        }),
{
    lemma_run(retries, seconds, 0, outcomes, (retries - 1) as u32);
}

/// An error that the server answers with is final: a status other than success, or a
/// refusal, is asked for once, however many attempts are allowed.
pub proof fn lemma_answered_error_is_final(
    retries: u32,
    seconds: u64,
    outcomes: Seq<OutcomeView>,
    code: u16,
    status: Seq<char>,
    body: Seq<char>,
)
    requires
        0 < retries,
        retries <= outcomes.len(),
        outcomes[0] == answer_outcome(code, status, body),
        answer_error(code, status, body) is Some,
    ensures
        retry_run(retries, seconds, 0, outcomes) == (RetryEnd {
            attempts: 1,
            result: Err(error_message(answer_error(code, status, body)->0)),
        }),
{
    lemma_run(retries, seconds, 0, outcomes, 0);
}

/// No attempt is made where none is allowed; otherwise the first one is.
pub proof fn lemma_retry_start(retries: u32)
    ensures
        retries == 0 ==> retry_start(retries) == RetryStepView::Fail("no attempts"@),
        retries > 0 ==> retry_start(retries) == RetryStepView::Attempt(0),
{
}

/// What follows an attempt. Another attempt, the one after it, follows just where the
/// connection failed and one is left, after the seconds that were asked for; an answer
/// and an error are handed on as they are.
pub proof fn lemma_retry_next(retries: u32, seconds: u64, attempt: u32, outcome: OutcomeView)
    requires
        attempt < retries,
    ensures
        retry_next(retries, seconds, attempt, outcome) is Wait <==> outcome is Unreachable
            && attempt + 1 < retries,
        retry_next(retries, seconds, attempt, outcome) matches RetryStepView::Wait {
            attempt: next,
            seconds: wait,
            notice,
        } ==> next == attempt + 1 && wait == seconds && notice == "↺ attempt "@ + decimal_text(
            (attempt + 1) as nat,
        ) + "/"@ + decimal_text(retries as nat) + " failed: "@ + outcome->Unreachable_0
            + " — retrying in "@ + decimal_text(seconds as nat) + "s…\n"@,
        outcome matches OutcomeView::Answered(answer) ==> retry_next(
            retries,
            seconds,
            attempt,
            outcome,
        ) == RetryStepView::Done(answer),
        outcome matches OutcomeView::Rejected(message) ==> retry_next(
            retries,
            seconds,
            attempt,
            outcome,
        ) == RetryStepView::Fail(message),
        outcome matches OutcomeView::Unreachable(message) ==> attempt + 1 == retries ==> retry_next(
            retries,
            seconds,
            attempt,
            outcome,
        ) == RetryStepView::Fail(message),
{
}

/// How an attempt went that got an answer: one with a status below 200 or from 300 on
/// is rejected, and so is a refusal; any other is the answer, as it is.
pub proof fn lemma_answer_outcome(code: u16, status: Seq<char>, body: Seq<char>)
    ensures
        code < 200 || code >= 300 ==> answer_outcome(code, status, body) == OutcomeView::Rejected(
            "HTTP "@ + status + ": "@ + trimmed(body),
        ),
        200 <= code < 300 ==> answer_outcome(code, status, body) == match refusal(body) {
            Some(reason) => OutcomeView::Rejected(reason),
            None => OutcomeView::Answered(body),
        },
{
}

} // verus!
