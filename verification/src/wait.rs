//! Waiting for an application to come up.
//!
//! The caller asks the server, looks at the clock and sleeps; what an answer means and
//! whether to go on is decided here.

use vstd::prelude::*;
use vstd::string::*;

use crate::apps::{app_status, listed_apps, parse_app_list, status_at};
use crate::error::{TomcatError, TomcatErrorView};
use crate::number::{decimal_text, u64_text};
use crate::reading::lemma_status_at;
use crate::text::same_text;

verus! {

/// What to do after an answer.
#[derive(Debug)]
pub enum WaitStep {
    /// The application is running: report this, and stop.
    Done(String),
    /// It is not running yet: tell this, sleep, and ask again.
    Sleep(String),
    /// It is not running, and the time is over: tell this, and fail.
    Fail { notice: String, error: TomcatError },
}

/// The contents of a `WaitStep`.
pub enum WaitStepView {
    Done(Seq<char>),
    Sleep(Seq<char>),
    Fail { notice: Seq<char>, error: TomcatErrorView },
}

impl View for WaitStep {
    type V = WaitStepView;

    open spec fn view(&self) -> WaitStepView {
        match self {
            WaitStep::Done(report) => WaitStepView::Done(report@),
            WaitStep::Sleep(notice) => WaitStepView::Sleep(notice@),
            WaitStep::Fail { notice, error } => WaitStepView::Fail {
                notice: notice@,
                error: error@,
            },
        }
    }
}

/// What to tell before waiting.
pub open spec fn wait_text(path: Seq<char>, timeout: u64) -> Seq<char> {
    "Waiting for "@ + path + " to be running (timeout "@ + decimal_text(timeout as nat) + "s)…\n"@
}

/// What to tell before waiting.
pub fn wait_notice(path: &str, timeout: u64) -> (r: String)
    ensures
        r@ == wait_text(path@, timeout),
        r@ == "Waiting for "@ + path@ + " to be running (timeout "@ + decimal_text(timeout as nat)
            + "s)…\n"@,
{
    let mut out = "Waiting for ".to_owned();
    out.append(path);
    out.append(" to be running (timeout ");
    out.append(u64_text(timeout).as_str());
    out.append("s)…\n");
    out
}

/// The application at `path` is running, as the `/list` response says.
pub open spec fn is_running(body: Seq<char>, path: Seq<char>) -> bool {
    status_at(listed_apps(body), path) == Some("running"@)
}

/// What to tell of an application that is not running.
pub open spec fn pending_text(status: Option<Seq<char>>) -> Seq<char> {
    match status {
        Some(s) => "  status: "@ + s + "…\n"@,
        None => "  not found yet…\n"@,
    }
}

/// The step after a `/list` response, where `expired` tells whether the time is over.
/// An application that is running is found so even then.
pub open spec fn wait_next(
    body: Seq<char>,
    path: Seq<char>,
    timeout: u64,
    expired: bool,
) -> WaitStepView {
    if is_running(body, path) {
        WaitStepView::Done("running\n"@)
    } else {
        let notice = pending_text(status_at(listed_apps(body), path));
        if expired {
            WaitStepView::Fail {
                notice,
                error: TomcatErrorView::WaitTimeout { path, timeout },
            }
        } else {
            WaitStepView::Sleep(notice)
        }
    }
}

/// Decides what to do after a `/list` response.
pub fn cmd_wait(body: &str, path: &str, timeout: u64, expired: bool) -> (r: WaitStep)
    ensures
        r@ == wait_next(body@, path@, timeout, expired),
        r is Done <==> is_running(body@, path@),
        r is Fail <==> !is_running(body@, path@) && expired,
{
    let apps = parse_app_list(body);
    let notice = match app_status(apps.as_slice(), path) {
        Some(s) => {
            if same_text(s.as_str(), "running") {
                return WaitStep::Done("running\n".to_owned());
            }
            let mut notice = "  status: ".to_owned();
            notice.append(s.as_str());
            notice.append("…\n");
            notice
        },
        None => "  not found yet…\n".to_owned(),
    };
    if expired {
        WaitStep::Fail {
            notice,
            error: TomcatError::WaitTimeout { path: path.to_owned(), timeout },
        }
    } else {
        WaitStep::Sleep(notice)
    }
}

/// One round of waiting: the `/list` response, and whether the time was over after it.
pub struct Round {
    pub body: Seq<char>,
    pub expired: bool,
}

/// How waiting ends: in which round, and with what.
pub struct WaitEnd {
    pub round: int,
    pub result: Result<Seq<char>, TomcatErrorView>,
}

/// How waiting ends that follows the steps from round `i` on, if it ends within the
/// given rounds.
pub open spec fn wait_run(
    rounds: Seq<Round>,
    path: Seq<char>,
    timeout: u64,
    i: int,
) -> Option<WaitEnd>
    decreases rounds.len() - i,
{
    if i >= rounds.len() {
        None
    } else {
        match wait_next(rounds[i].body, path, timeout, rounds[i].expired) {
            WaitStepView::Done(report) => Some(WaitEnd { round: i, result: Ok(report) }),
            WaitStepView::Fail { error, .. } => Some(WaitEnd { round: i, result: Err(error) }),
            WaitStepView::Sleep(_) => wait_run(rounds, path, timeout, i + 1),
        }
    }
}

proof fn lemma_wait_from(rounds: Seq<Round>, path: Seq<char>, timeout: u64, i: int, k: int)
    requires
        0 <= i <= k < rounds.len(),
        forall|j: int|
            i <= j < k ==> !is_running((#[trigger] rounds[j]).body, path) && !rounds[j].expired,
        is_running(rounds[k].body, path) || rounds[k].expired,
    ensures
        wait_run(rounds, path, timeout, i) == Some(
            WaitEnd {
                round: k,
                result: if is_running(rounds[k].body, path) {
                    Ok("running\n"@)
                } else {
                    Err(TomcatErrorView::WaitTimeout { path, timeout })
                },
            },
        ),
    decreases k - i,
{
    if i < k {
        assert(!is_running(rounds[i].body, path) && !rounds[i].expired);
        lemma_wait_from(rounds, path, timeout, i + 1, k);
    }
}

/// Waiting ends in the first round that finds the application running or the time
/// over, and succeeds if that round finds it running, even if the time is over too.
pub proof fn lemma_wait_run(rounds: Seq<Round>, path: Seq<char>, timeout: u64, k: int)
    requires
        0 <= k < rounds.len(),
        forall|j: int|
            0 <= j < k ==> !is_running((#[trigger] rounds[j]).body, path) && !rounds[j].expired,
        is_running(rounds[k].body, path) || rounds[k].expired,
    ensures
        wait_run(rounds, path, timeout, 0) == Some(
            WaitEnd {
                round: k,
                result: if is_running(rounds[k].body, path) {
                    Ok("running\n"@)
                } else {
                    Err(TomcatErrorView::WaitTimeout { path, timeout })
                },
            },
        ),
{
    lemma_wait_from(rounds, path, timeout, 0, k);
}

/// Waiting goes on as long as no round finds the application running or the time over.
pub proof fn lemma_wait_goes_on(rounds: Seq<Round>, path: Seq<char>, timeout: u64, i: int)
    requires
        0 <= i,
        forall|j: int|
            i <= j < rounds.len() ==> !is_running((#[trigger] rounds[j]).body, path)
                && !rounds[j].expired,
    ensures
        wait_run(rounds, path, timeout, i) is None,
    decreases rounds.len() - i,
{
    if i < rounds.len() {
        assert(!is_running(rounds[i].body, path) && !rounds[i].expired);
        lemma_wait_goes_on(rounds, path, timeout, i + 1);
    }
}

/// An application is running when the first one listed at exactly its path says so.
pub proof fn lemma_is_running(body: Seq<char>, path: Seq<char>)
    ensures
        is_running(body, path) <==> exists|k: int|
            0 <= k < listed_apps(body).len() && (#[trigger] listed_apps(body)[k]).path == path
                && listed_apps(body)[k].status == "running"@ && (forall|j: int|
                0 <= j < k ==> (#[trigger] listed_apps(body)[j]).path != path),
{
    let v = listed_apps(body);
    lemma_status_at(v, path);
    if exists|k: int|
        0 <= k < v.len() && (#[trigger] v[k]).path == path && v[k].status == "running"@ && (forall|
            j: int,
        | 0 <= j < k ==> (#[trigger] v[j]).path != path) {
        let k = choose|k: int|
            0 <= k < v.len() && (#[trigger] v[k]).path == path && v[k].status == "running"@ && (
            forall|j: int| 0 <= j < k ==> (#[trigger] v[j]).path != path);
        let s = status_at(v, path)->0;
        let m = choose|m: int|
            0 <= m < v.len() && (#[trigger] v[m]).path == path && v[m].status == s && (forall|
                j: int,
            | 0 <= j < m ==> (#[trigger] v[j]).path != path);
        assert(v[k].path == path && v[m].path == path);
        assert(k == m);
    }
}

/// What a step of waiting does: an application that is running ends it with `running`,
/// whatever the clock says; another is told by its status, or as not found, and then
/// the clock decides between sleeping and failing.
pub proof fn lemma_wait_next(body: Seq<char>, path: Seq<char>, timeout: u64, expired: bool)
    ensures
        is_running(body, path) ==> wait_next(body, path, timeout, expired) == WaitStepView::Done(
            "running\n"@,
        ),
        !is_running(body, path) && !expired ==> (wait_next(
            body,
            path,
            timeout,
            expired,
        ) matches WaitStepView::Sleep(notice) && is_told(notice, body, path)),
        !is_running(body, path) && expired ==> (wait_next(
            body,
            path,
            timeout,
            expired,
        ) matches WaitStepView::Fail { notice, error } && is_told(notice, body, path) && error == (
        TomcatErrorView::WaitTimeout { path, timeout })),
{
    let v = listed_apps(body);
    lemma_status_at(v, path);
}

/// `notice` tells the status of the first application at `path`, or that there is none.
pub open spec fn is_told(notice: Seq<char>, body: Seq<char>, path: Seq<char>) -> bool {
    let v = listed_apps(body);
    ||| exists|k: int|
        0 <= k < v.len() && (#[trigger] v[k]).path == path && (forall|j: int|
            0 <= j < k ==> (#[trigger] v[j]).path != path) && notice == "  status: "@ + v[k].status
            + "…\n"@
    ||| (forall|k: int| 0 <= k < v.len() ==> (#[trigger] v[k]).path != path) && notice
        == "  not found yet…\n"@
}

} // verus!
