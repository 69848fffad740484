//! The commands: the request that each one makes, and what it reports of the answer.

use vstd::prelude::*;
use vstd::string::*;

use crate::apps::{is_apps_text, listed_apps, parse_app_list, print_app_list};
use crate::connection::{pair_views, Method, Request, RequestView, TomcatClient};
use crate::error::{TomcatError, TomcatErrorView};
use crate::html::{page_text, strip_html};
use crate::info::{info_pairs, is_pairs_text, parse_info, print_kv};
use crate::number::{i32_text, integer_text};
use crate::output::{after, end_line, Output, OutputFmt};
use crate::response::{confirmation, ok_message};
use crate::sessions::{buckets_text, parse_sessions, print_session_buckets, session_buckets};
use crate::style::{green_bold, is_marked, is_painted_before, red_bold, yellow};
use crate::text::{chars_of, first_line, first_line_of, text_of, trim, trimmed};

verus! {

/// A request, and what to tell before it is made.
#[derive(Debug)]
pub struct Step {
    pub notice: String,
    pub request: Request,
}

/// The contents of a `Step`.
pub struct StepView {
    pub notice: Seq<char>,
    pub request: RequestView,
}

impl View for Step {
    type V = StepView;

    open spec fn view(&self) -> StepView {
        StepView { notice: self.notice@, request: self.request@ }
    }
}

/// Query parameters in their order.
pub type QueryView = Seq<(Seq<char>, Seq<char>)>;

fn no_query() -> (r: Vec<(String, String)>)
    ensures
        pair_views(r@) == QueryView::empty(),
{
    let query: Vec<(String, String)> = Vec::new();
    assert(pair_views(query@) == QueryView::empty());
    query
}

fn with_param(query: Vec<(String, String)>, key: &str, value: &str) -> (r: Vec<
    (String, String),
>)
    ensures
        pair_views(r@) == pair_views(query@).push((key@, value@)),
{
    let mut all = query;
    all.push((key.to_owned(), value.to_owned()));
    assert(pair_views(all@) == pair_views(query@).push((key@, value@)));
    all
}

fn path_query(path: &str) -> (r: Vec<(String, String)>)
    ensures
        pair_views(r@) == seq![("path"@, path@)],
{
    with_param(no_query(), "path", path)
}

/// A verb and a path, as a command announces itself.
pub open spec fn announcement(verb: Seq<char>, path: Seq<char>) -> Seq<char> {
    verb + path + "…\n"@
}

fn announce(verb: &str, path: &str) -> (r: String)
    ensures
        r@ == announcement(verb@, path@),
{
    let mut out = verb.to_owned();
    out.append(path);
    out.append("…\n");
    out
}

/// Removes an application from the server.
pub fn cmd_undeploy(client: &TomcatClient, path: &str) -> (r: Step)
    ensures
        r@ == (StepView {
            notice: announcement("Undeploying "@, path@),
            request: client.command(Method::Get, "/undeploy"@, seq![("path"@, path@)]),
        }),
        r.notice@ == "Undeploying "@ + path@ + "…\n"@,
        r.request.method == Method::Get,
        r.request.url@ == client.base_url@ + "/undeploy"@,
        pair_views(r.request.query@) == seq![("path"@, path@)],
        r.request.username@ == client.username@,
        r.request.password@ == client.password@,
{
    Step {
        notice: announce("Undeploying ", path),
        request: client.get("/undeploy", path_query(path)),
    }
}

/// Starts a stopped application.
pub fn cmd_start(client: &TomcatClient, path: &str) -> (r: Step)
    ensures
        r@ == (StepView {
            notice: announcement("Starting "@, path@),
            request: client.command(Method::Get, "/start"@, seq![("path"@, path@)]),
        }),
        r.notice@ == "Starting "@ + path@ + "…\n"@,
        r.request.method == Method::Get,
        r.request.url@ == client.base_url@ + "/start"@,
        pair_views(r.request.query@) == seq![("path"@, path@)],
        r.request.username@ == client.username@,
        r.request.password@ == client.password@,
{
    Step { notice: announce("Starting ", path), request: client.get("/start", path_query(path)) }
}

/// Stops a running application.
pub fn cmd_stop(client: &TomcatClient, path: &str) -> (r: Step)
    ensures
        r@ == (StepView {
            notice: announcement("Stopping "@, path@),
            request: client.command(Method::Get, "/stop"@, seq![("path"@, path@)]),
        }),
        r.notice@ == "Stopping "@ + path@ + "…\n"@,
        r.request.method == Method::Get,
        r.request.url@ == client.base_url@ + "/stop"@,
        pair_views(r.request.query@) == seq![("path"@, path@)],
        r.request.username@ == client.username@,
        r.request.password@ == client.password@,
{
    Step { notice: announce("Stopping ", path), request: client.get("/stop", path_query(path)) }
}

/// Stops an application and starts it again.
pub fn cmd_reload(client: &TomcatClient, path: &str) -> (r: Step)
    ensures
        r@ == (StepView {
            notice: announcement("Reloading "@, path@),
            request: client.command(Method::Get, "/reload"@, seq![("path"@, path@)]),
        }),
        r.notice@ == "Reloading "@ + path@ + "…\n"@,
        r.request.method == Method::Get,
        r.request.url@ == client.base_url@ + "/reload"@,
        pair_views(r.request.query@) == seq![("path"@, path@)],
        r.request.username@ == client.username@,
        r.request.password@ == client.password@,
{
    Step { notice: announce("Reloading ", path), request: client.get("/reload", path_query(path)) }
}

/// Triggers a garbage collection.
pub fn cmd_gc(client: &TomcatClient) -> (r: Step)
    ensures
        r@ == (StepView {
            notice: "Requesting garbage collection…\n"@,
            request: client.command(Method::Get, "/gc"@, QueryView::empty()),
        }),
{
    Step {
        notice: "Requesting garbage collection…\n".to_owned(),
        request: client.get("/gc", no_query()),
    }
}

/// A file to deploy: its name as shown, and its size as shown.
#[derive(Debug)]
pub struct WarFile {
    pub name: String,
    pub size: String,
}

/// The parameter that says whether a deployment replaces what is there.
pub open spec fn update_text(update: bool) -> Seq<char> {
    if update {
        "true"@
    } else {
        "false"@
    }
}

/// The step of a deployment: a file is uploaded, and otherwise the server fetches
/// from a URL. With neither there is none.
pub open spec fn deploy_step(
    client: TomcatClient,
    path: Seq<char>,
    file: Option<WarFile>,
    war_url: Option<String>,
    update: bool,
) -> Option<StepView> {
    match (file, war_url) {
        (Some(f), _) => Some(
            StepView {
                notice: "Deploying "@ + path + " from file "@ + f.name@ + " ("@ + f.size@
                    + ")…\n"@,
                request: client.command(
                    Method::Put,
                    "/deploy"@,
                    seq![("path"@, path), ("update"@, update_text(update))],
                ),
            },
        ),
        (None, Some(u)) => Some(
            StepView {
                notice: "Deploying "@ + path + " from URL "@ + u@ + "…\n"@,
                request: client.command(
                    Method::Get,
                    "/deploy"@,
                    seq![("path"@, path), ("war"@, u@), ("update"@, update_text(update))],
                ),
            },
        ),
        (None, None) => None,
    }
}

/// Deploys an application from a file or a URL.
pub fn cmd_deploy(
    client: &TomcatClient,
    path: &str,
    file: &Option<WarFile>,
    war_url: &Option<String>,
    update: bool,
) -> (r: Result<Step, TomcatError>)
    ensures
        match deploy_step(*client, path@, *file, *war_url, update) {
            Some(step) => r matches Ok(s) && s@ == step,
            None => r matches Err(e) && e@ == TomcatErrorView::NoWarSource,
        },
        r is Err <==> file is None && war_url is None,
        r matches Ok(s) ==> {
            &&& s.request.url@ == client.base_url@ + "/deploy"@
            &&& s.request.username@ == client.username@
            &&& s.request.password@ == client.password@
            &&& file is Some <==> s.request.method == Method::Put
            &&& file is Some ==> pair_views(s.request.query@) == seq![
                ("path"@, path@),
                (
                    "update"@,
                    if update {
                        "true"@
                    } else {
                        "false"@
                    },
                ),
            ]
            &&& file is None ==> pair_views(s.request.query@) == seq![
                ("path"@, path@),
                ("war"@, war_url->0@),
                (
                    "update"@,
                    if update {
                        "true"@
                    } else {
                        "false"@
                    },
                ),
            ]
        },
{
    let upd = if update {
        "true"
    } else {
        "false"
    };
    let query = path_query(path);
    let mut notice = "Deploying ".to_owned();
    notice.append(path);
    if let Some(f) = file {
        notice.append(" from file ");
        notice.append(f.name.as_str());
        notice.append(" (");
        notice.append(f.size.as_str());
        notice.append(")…\n");
        let query = with_param(query, "update", upd);
        assert(pair_views(query@) == seq![("path"@, path@), ("update"@, update_text(update))]);
        return Ok(Step { notice, request: client.put_war("/deploy", query) });
    }
    if let Some(u) = war_url {
        notice.append(" from URL ");
        notice.append(u.as_str());
        notice.append("…\n");
        let query = with_param(with_param(query, "war", u.as_str()), "update", upd);
        assert(pair_views(query@) == seq![
            ("path"@, path@),
            ("war"@, u@),
            ("update"@, update_text(update)),
        ]);
        return Ok(Step { notice, request: client.get("/deploy", query) });
    }
    Err(TomcatError::NoWarSource)
}

/// The request for the list of applications.
pub fn list_request(client: &TomcatClient) -> (r: Request)
    ensures
        r@ == client.command(Method::Get, "/list"@, QueryView::empty()),
{
    client.get("/list", no_query())
}

/// The request for server information.
pub fn info_request(client: &TomcatClient) -> (r: Request)
    ensures
        r@ == client.command(Method::Get, "/serverinfo"@, QueryView::empty()),
{
    client.get("/serverinfo", no_query())
}

/// The request for the server's status page.
pub fn status_request(client: &TomcatClient) -> (r: Request)
    ensures
        r@ == (RequestView {
            method: Method::Get,
            url: client.status_url@,
            query: QueryView::empty(),
            username: client.username@,
            password: client.password@,
        }),
{
    client.get_raw(client.status_url.as_str())
}

/// The request for the session histogram of an application.
pub fn sessions_request(client: &TomcatClient, path: &str) -> (r: Request)
    ensures
        r@ == client.command(Method::Get, "/sessions"@, seq![("path"@, path@)]),
{
    client.get("/sessions", path_query(path))
}

/// The request that expires the sessions of an application that have been idle for
/// `idle` minutes or more, or all of them for -1.
pub fn expire_request(client: &TomcatClient, path: &str, idle: i32) -> (r: Request)
    ensures
        r@ == client.command(
            Method::Get,
            "/expire"@,
            seq![("path"@, path@), ("idle"@, integer_text(idle as int))],
        ),
{
    let query = with_param(path_query(path), "idle", i32_text(idle).as_str());
    assert(pair_views(query@) == seq![("path"@, path@), ("idle"@, integer_text(idle as int))]);
    client.get("/expire", query)
}

/// The request for applications that leak memory.
pub fn leaks_request(client: &TomcatClient) -> (r: Request)
    ensures
        r@ == client.command(Method::Get, "/findleaks"@, seq![("statusLine"@, "true"@)]),
{
    client.get("/findleaks", with_param(no_query(), "statusLine", "true"))
}

/// The request for the ciphers of the TLS connectors.
pub fn ssl_request(client: &TomcatClient) -> (r: Request)
    ensures
        r@ == client.command(Method::Get, "/sslConnectorCiphers"@, QueryView::empty()),
{
    client.get("/sslConnectorCiphers", no_query())
}

/// Reports that a request was carried out: a check mark, and the message of the
/// answer.
pub fn print_ok(body: &str) -> (r: String)
    ensures
        is_painted_before(r@, "✓"@, "1;32"@, " "@ + ok_message(body@) + "\n"@),
{
    let mut rest = " ".to_owned();
    rest.append(confirmation(body).as_str());
    rest.append("\n");
    after(green_bold("✓"), rest.as_str())
}

/// Reports that a request was carried out, in the given format: a machine gets no
/// colour.
pub fn print_ok_as(body: &str, fmt: &OutputFmt) -> (r: String)
    ensures
        is_marked(r@, "✓"@, "1;32"@, " "@ + ok_message(body@) + "\n"@, *fmt),
        *fmt != OutputFmt::Table ==> r@ == "✓"@ + " "@ + ok_message(body@) + "\n"@,
{
    if !fmt.is_machine() {
        return print_ok(body);
    }
    let mut out = "✓".to_owned();
    out.append(" ");
    out.append(confirmation(body).as_str());
    out.append("\n");
    assert(out@ == "✓"@ + (" "@ + ok_message(body@) + "\n"@));
    out
}

/// Reports that a command failed: a cross, and the message of the error.
pub fn die(message: &str) -> (r: String)
    ensures
        is_painted_before(r@, "✗"@, "1;31"@, " "@ + message@ + "\n"@),
{
    let mut rest = " ".to_owned();
    rest.append(message);
    rest.append("\n");
    after(red_bold("✗"), rest.as_str())
}

/// Reports that a command failed, in the given format: a machine gets no colour.
pub fn die_as(message: &str, fmt: &OutputFmt) -> (r: String)
    ensures
        is_marked(r@, "✗"@, "1;31"@, " "@ + message@ + "\n"@, *fmt),
        *fmt != OutputFmt::Table ==> r@ == "✗"@ + " "@ + message@ + "\n"@,
{
    if !fmt.is_machine() {
        return die(message);
    }
    let mut out = "✗".to_owned();
    out.append(" ");
    out.append(message);
    out.append("\n");
    assert(out@ == "✗"@ + (" "@ + message@ + "\n"@));
    out
}

/// Lists the applications of the `/list` response. Where there are none, people are
/// told so, and a machine gets an empty list.
pub fn cmd_list(body: &str, fmt: &OutputFmt) -> (r: Output)
    ensures
        if listed_apps(body@).len() == 0 && *fmt == OutputFmt::Table {
            &&& r.out@ == Seq::<char>::empty()
            &&& is_painted_before(r.err@, "No applications deployed."@, "33"@, "\n"@)
        } else {
            &&& is_apps_text(r.out@, listed_apps(body@), *fmt)
            &&& r.err@ == Seq::<char>::empty()
        },
{
    let apps = parse_app_list(body);
    assert(listed_apps(body@).len() == apps@.len());
    if apps.len() == 0 && !fmt.is_machine() {
        Output { out: String::new(), err: after(yellow("No applications deployed."), "\n") }
    } else {
        Output { out: print_app_list(apps.as_slice(), fmt), err: String::new() }
    }
}

/// Lists the server information of the `/serverinfo` response.
pub fn cmd_info(body: &str, fmt: &OutputFmt) -> (r: String)
    ensures
        is_pairs_text(r@, info_pairs(body@), *fmt),
{
    let pairs = parse_info(body);
    print_kv(pairs.as_slice(), fmt)
}

/// Shows the status page as text.
pub fn cmd_status(body: &str) -> (r: String)
    ensures
        r@ == trimmed(page_text(body@)).push('\n'),
{
    let text = strip_html(body);
    let cs = chars_of(text.as_str());
    end_line(text_of(trim(cs.as_slice())))
}

/// Lists the session histogram of the `/sessions` response for the application at
/// `path`. Where there are no sessions, people are told so, and a machine gets
/// nothing.
pub fn cmd_sessions(body: &str, path: &str, fmt: &OutputFmt) -> (r: Output)
    ensures
        if session_buckets(body@, path@).len() == 0 {
            &&& r.out@ == Seq::<char>::empty()
            &&& r.err@ == if *fmt == OutputFmt::Table {
                "No active sessions for "@ + path@ + "\n"@
            } else {
                Seq::<char>::empty()
            }
        } else {
            &&& r.out@ == buckets_text(session_buckets(body@, path@), *fmt)
            &&& r.err@ == Seq::<char>::empty()
        },
{
    let buckets = parse_sessions(body, path);
    assert(session_buckets(body@, path@).len() == buckets@.len());
    if buckets.len() == 0 {
        let mut err = String::new();
        if !fmt.is_machine() {
            err.append("No active sessions for ");
            err.append(path);
            err.append("\n");
            assert(err@ == "No active sessions for "@ + path@ + "\n"@);
        }
        Output { out: String::new(), err }
    } else {
        Output { out: print_session_buckets(buckets.as_slice(), fmt), err: String::new() }
    }
}

/// The line that reports the answer to an expiry: the first line of the answer.
pub open spec fn expire_report(body: Seq<char>) -> Seq<char> {
    trimmed(first_line_of(body))
}

/// Reports the answer to an expiry.
pub fn cmd_expire_sessions(body: &str) -> (r: String)
    ensures
        r@ == expire_report(body@).push('\n'),
{
    let cs = chars_of(body);
    end_line(text_of(trim(first_line(cs.as_slice()))))
}

/// Shows the ciphers of the TLS connectors.
pub fn cmd_ssl_connectors(body: &str) -> (r: String)
    ensures
        r@ == trimmed(body@).push('\n'),
{
    let cs = chars_of(body);
    end_line(text_of(trim(cs.as_slice())))
}

/// A parameter occurs in a query with a value, and no other parameter has its name.
pub open spec fn has_once(query: QueryView, name: Seq<char>, value: Seq<char>) -> bool {
    exists|k: int|
        0 <= k < query.len() && #[trigger] query[k] == (name, value) && (forall|j: int|
            0 <= j < query.len() && j != k ==> (#[trigger] query[j]).0 != name)
}

/// Whatever the source of a deployment, its request says once where to deploy and once
/// whether to replace what is there, as was asked; with a URL it says that URL, and a
/// file is uploaded. A file comes before a URL, and with neither there is no request.
pub proof fn lemma_deploy_request(
    client: TomcatClient,
    path: Seq<char>,
    file: Option<WarFile>,
    war_url: Option<String>,
    update: bool,
)
    ensures
        deploy_step(client, path, file, war_url, update) is None <==> file is None && war_url
            is None,
        deploy_step(client, path, file, war_url, update) matches Some(step) ==> {
            &&& has_once(step.request.query, "path"@, path)
            &&& update ==> has_once(step.request.query, "update"@, "true"@)
            &&& !update ==> has_once(step.request.query, "update"@, "false"@)
            &&& file is None ==> has_once(step.request.query, "war"@, war_url->0@)
            &&& file is Some ==> forall|k: int|
                0 <= k < step.request.query.len() ==> (#[trigger] step.request.query[k]).0
                    != "war"@
            &&& step.request.method == if file is Some {
                Method::Put
            } else {
                Method::Get
            }
            &&& step.request.url == client.base_url@ + "/deploy"@
            &&& file matches Some(f) ==> step.notice == "Deploying "@ + path + " from file "@
                + f.name@ + " ("@ + f.size@ + ")…\n"@
            &&& file is None ==> step.notice == "Deploying "@ + path + " from URL "@ + war_url->0@
                + "…\n"@
        },
{
    reveal_strlit("path");
    reveal_strlit("war");
    reveal_strlit("update");
    assert("path"@.len() == 4 && "war"@.len() == 3 && "update"@.len() == 6);
    if let Some(step) = deploy_step(client, path, file, war_url, update) {
        let query = step.request.query;
        assert(query[0] == ("path"@, path));
        if file is Some {
            assert(query.len() == 2);
            assert(query[1] == ("update"@, update_text(update)));
        } else {
            assert(query.len() == 3);
            assert(query[1] == ("war"@, war_url->0@));
            assert(query[2] == ("update"@, update_text(update)));
        }
    }
}

} // verus!
