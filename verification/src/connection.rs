//! Where requests go, and as whom.

use vstd::prelude::*;
use vstd::string::*;

use crate::error::{TomcatError, TomcatErrorView};
use crate::profiles::{
    all_storable, distinct_names, empty_entry, entry_map, is_storable_entry, lemma_saved_is_found,
    profiles_of, profiles_text, with_entry, NamedEntries, ProfileEntry, ProfileEntryView, Profiles,
};
use crate::text::{
    all_are, chars_of, lemma_trimmed_end_of_parts, text_of, trim_end_of, trimmed_end_of,
};

verus! {

/// What the command line and the environment say of the connection.
#[derive(Debug)]
pub struct Cli {
    /// Base URL of the server.
    pub url: Option<String>,
    /// Manager user name.
    pub username: Option<String>,
    /// Manager password.
    pub password: Option<String>,
    /// Name of a saved profile.
    pub profile: Option<String>,
}

/// The contents of a `Cli`.
pub struct CliView {
    pub url: Option<Seq<char>>,
    pub username: Option<Seq<char>>,
    pub password: Option<Seq<char>>,
    pub profile: Option<Seq<char>>,
}

/// The text of an option.
pub open spec fn option_text(o: Option<String>) -> Option<Seq<char>> {
    match o {
        Some(s) => Some(s@),
        None => None,
    }
}

impl View for Cli {
    type V = CliView;

    open spec fn view(&self) -> CliView {
        CliView {
            url: option_text(self.url),
            username: option_text(self.username),
            password: option_text(self.password),
            profile: option_text(self.profile),
        }
    }
}

/// A server and the credentials for its manager.
#[derive(Debug)]
pub struct Connection {
    pub url: String,
    pub username: String,
    pub password: String,
}

/// The contents of a `Connection`.
pub struct ConnectionView {
    pub url: Seq<char>,
    pub username: Seq<char>,
    pub password: Seq<char>,
}

impl View for Connection {
    type V = ConnectionView;

    open spec fn view(&self) -> ConnectionView {
        ConnectionView { url: self.url@, username: self.username@, password: self.password@ }
    }
}

/// The first of three texts that says something: what is given, if not empty, then
/// what is saved, if not empty, then the default.
pub open spec fn preferred(
    given: Option<Seq<char>>,
    saved: Seq<char>,
    default: Seq<char>,
) -> Seq<char> {
    match given {
        Some(s) => if s.len() > 0 {
            s
        } else if saved.len() > 0 {
            saved
        } else {
            default
        },
        None => if saved.len() > 0 {
            saved
        } else {
            default
        },
    }
}

/// The profile that a connection falls back on: the one that is named, or an empty
/// one where none is named. A name under which nothing is saved has none.
pub open spec fn fallback_profile(
    cli: CliView,
    profiles: Map<Seq<char>, ProfileEntryView>,
) -> Option<ProfileEntryView> {
    match cli.profile {
        Some(name) => if profiles.contains_key(name) {
            Some(profiles[name])
        } else {
            None
        },
        None => Some(empty_entry()),
    }
}

/// The connection for what is given and what is saved. What is given comes first. A
/// password may be given as empty; an empty URL or user name counts as not given.
pub open spec fn connection_for(cli: CliView, saved: ProfileEntryView) -> ConnectionView {
    ConnectionView {
        url: preferred(cli.url, saved.url, "http://localhost:8080"@),
        username: preferred(cli.username, saved.username, "admin"@),
        password: match cli.password {
            Some(p) => p,
            None => saved.password,
        },
    }
}

fn prefer(given: &Option<String>, saved: &str, default: &str) -> (r: String)
    ensures
        r@ == preferred(option_text(*given), saved@, default@),
{
    if let Some(s) = given {
        if !s.as_str().is_empty() {
            return s.clone();
        }
    }
    if !saved.is_empty() {
        saved.to_owned()
    } else {
        default.to_owned()
    }
}

/// Settles the connection: what is given first, then the named profile, then the
/// defaults. Fails where the named profile is not saved.
pub fn resolve_connection(cli: &Cli, profiles: &Profiles) -> (r: Result<Connection, TomcatError>)
    ensures
        match fallback_profile(cli@, profiles@) {
            Some(saved) => r matches Ok(c) && c@ == connection_for(cli@, saved),
            None => r matches Err(e) && e@ == TomcatErrorView::ProfileNotFound(cli@.profile->0),
        },
        r is Err <==> (cli.profile matches Some(name) && !profiles@.contains_key(name@)),
        r matches Ok(c) ==> {
            &&& (cli.url matches Some(s) ==> s@.len() > 0 ==> c.url@ == s@)
            &&& (cli.username matches Some(s) ==> s@.len() > 0 ==> c.username@ == s@)
            &&& (cli.password matches Some(p) ==> c.password@ == p@)
        },
        r matches Ok(c) ==> cli.profile matches Some(name) ==> {
            let saved = profiles@[name@];
            &&& (cli.url is None && saved.url.len() > 0 ==> c.url@ == saved.url)
            &&& (cli.username is None && saved.username.len() > 0 ==> c.username@
                == saved.username)
            &&& (cli.password is None ==> c.password@ == saved.password)
        },
{
    let saved = match &cli.profile {
        Some(name) => match profiles.get(name.as_str()) {
            Some(e) => e.clone(),
            None => return Err(TomcatError::ProfileNotFound(name.clone())),
        },
        None => ProfileEntry::default(),
    };
    let url = prefer(&cli.url, saved.url.as_str(), "http://localhost:8080");
    let username = prefer(&cli.username, saved.username.as_str(), "admin");
    let password = match &cli.password {
        Some(p) => p.clone(),
        None => saved.password,
    };
    Ok(Connection { url, username, password })
}

/// How a request is made.
#[derive(Clone, Copy, Debug, PartialEq, Eq, Structural)]
pub enum Method {
    Get,
    Put,
}

/// A request to the server, but for the bytes that it uploads.
#[derive(Debug)]
pub struct Request {
    pub method: Method,
    pub url: String,
    /// Query parameters, in their order.
    pub query: Vec<(String, String)>,
    pub username: String,
    pub password: String,
}

/// The contents of a `Request`.
pub struct RequestView {
    pub method: Method,
    pub url: Seq<char>,
    pub query: Seq<(Seq<char>, Seq<char>)>,
    pub username: Seq<char>,
    pub password: Seq<char>,
}

/// The contents of query parameters.
pub open spec fn pair_views(v: Seq<(String, String)>) -> Seq<(Seq<char>, Seq<char>)> {
    v.map_values(|p: (String, String)| (p.0@, p.1@))
}

impl View for Request {
    type V = RequestView;

    open spec fn view(&self) -> RequestView {
        RequestView {
            method: self.method,
            url: self.url@,
            query: pair_views(self.query@),
            username: self.username@,
            password: self.password@,
        }
    }
}

/// A client of one manager: its addresses, the credentials, and how often a request
/// is tried.
#[derive(Debug)]
pub struct TomcatClient {
    pub base_url: String,
    pub status_url: String,
    pub username: String,
    pub password: String,
    pub verbose: bool,
    pub retries: u32,
    /// Seconds between two tries.
    pub retry_delay: u64,
}

/// The root of the manager's addresses: no slash is doubled where the server's URL
/// and the manager's path meet, nor where a command follows.
pub open spec fn manager_root(url: Seq<char>, manager_path: Seq<char>) -> Seq<char> {
    trimmed_end_of(url, '/') + trimmed_end_of(manager_path, '/')
}

impl TomcatClient {
    /// The client for a connection.
    pub fn new(
        conn: &Connection,
        manager_path: &str,
        verbose: bool,
        retries: u32,
        retry_delay: u64,
    ) -> (r: Self)
        ensures
            r.base_url@ == manager_root(conn.url@, manager_path@) + "/text"@,
            r.status_url@ == manager_root(conn.url@, manager_path@) + "/status"@,
            r.username@ == conn.username@,
            r.password@ == conn.password@,
            r.verbose == verbose,
            r.retries == retries,
            r.retry_delay == retry_delay,
    {
        let url = chars_of(conn.url.as_str());
        let path = chars_of(manager_path);
        let mut root = text_of(trim_end_of(url.as_slice(), '/'));
        root.append(text_of(trim_end_of(path.as_slice(), '/')).as_str());
        let mut base_url = root.clone();
        base_url.append("/text");
        let mut status_url = root;
        status_url.append("/status");
        TomcatClient {
            base_url,
            status_url,
            username: conn.username.clone(),
            password: conn.password.clone(),
            verbose,
            retries,
            retry_delay,
        }
    }

    /// The request for a command of the text interface.
    pub open spec fn command(
        &self,
        method: Method,
        endpoint: Seq<char>,
        query: Seq<(Seq<char>, Seq<char>)>,
    ) -> RequestView {
        RequestView {
            method,
            url: self.base_url@ + endpoint,
            query,
            username: self.username@,
            password: self.password@,
        }
    }

    fn request(&self, method: Method, endpoint: &str, query: Vec<(String, String)>) -> (r: Request)
        ensures
            r@ == self.command(method, endpoint@, pair_views(query@)),
    {
        let mut url = self.base_url.clone();
        url.append(endpoint);
        Request {
            method,
            url,
            query,
            username: self.username.clone(),
            password: self.password.clone(),
        }
    }

    /// The request that gets the answer to a command of the text interface.
    pub fn get(&self, endpoint: &str, query: Vec<(String, String)>) -> (r: Request)
        ensures
            r@ == self.command(Method::Get, endpoint@, pair_views(query@)),
    {
        self.request(Method::Get, endpoint, query)
    }

    /// The request that uploads a file with a command of the text interface.
    pub fn put_war(&self, endpoint: &str, query: Vec<(String, String)>) -> (r: Request)
        ensures
            r@ == self.command(Method::Put, endpoint@, pair_views(query@)),
    {
        self.request(Method::Put, endpoint, query)
    }

    /// The request that gets a page of the server as it is.
    pub fn get_raw(&self, url: &str) -> (r: Request)
        ensures
            r@ == (RequestView {
                method: Method::Get,
                url: url@,
                query: Seq::empty(),
                username: self.username@,
                password: self.password@,
            }),
    {
        let query: Vec<(String, String)> = Vec::new();
        assert(pair_views(query@) == Seq::<(Seq<char>, Seq<char>)>::empty());
        Request {
            method: Method::Get,
            url: url.to_owned(),
            query,
            username: self.username.clone(),
            password: self.password.clone(),
        }
    }
}

/// A slash at the end of the server's URL or of the manager's path makes no
/// difference.
pub proof fn lemma_trailing_slash(url: Seq<char>, manager_path: Seq<char>)
    ensures
        manager_root(url.push('/'), manager_path) == manager_root(url, manager_path),
        manager_root(url, manager_path.push('/')) == manager_root(url, manager_path),
{
    assert(url.push('/').drop_last() == url);
    assert(manager_path.push('/').drop_last() == manager_path);
}

/// What is given on the command line or in the environment comes before what a
/// profile says: with it given, the profile makes no difference.
pub proof fn lemma_given_comes_first(cli: CliView, a: ProfileEntryView, b: ProfileEntryView)
    ensures
        cli.url matches Some(s) && s.len() > 0 ==> connection_for(cli, a).url == connection_for(
            cli,
            b,
        ).url,
        cli.username matches Some(s) && s.len() > 0 ==> connection_for(cli, a).username
            == connection_for(cli, b).username,
        cli.password is Some ==> connection_for(cli, a).password == connection_for(
            cli,
            b,
        ).password,
{
}

/// A profile that was saved is the one that a connection by its name falls back on
/// when the profiles file is read again.
pub proof fn lemma_saved_profile_is_used(
    cli: CliView,
    l: NamedEntries,
    name: Seq<char>,
    e: ProfileEntryView,
)
    requires
        cli.profile == Some(name),
        distinct_names(l),
        all_storable(entry_map(l)),
        is_storable_entry(name, e),
    ensures
        fallback_profile(cli, profiles_of(profiles_text(with_entry(l, name, e)))) == Some(e),
{
    lemma_saved_is_found(l, name, e);
}

/// A connection always has a URL and a user name.
pub proof fn lemma_connection_is_complete(cli: CliView, saved: ProfileEntryView)
    ensures
        connection_for(cli, saved).url.len() > 0,
        connection_for(cli, saved).username.len() > 0,
{
    reveal_strlit("http://localhost:8080");
    reveal_strlit("admin");
}

/// Each part of a connection is settled on its own. A URL or a user name that is given
/// and not empty, and any password that is given, is the one of the connection.
/// Otherwise it is the one of the profile, whatever else is given; where the profile
/// has no URL or no user name, it is the usual one.
pub proof fn lemma_connection_parts(cli: CliView, saved: ProfileEntryView)
    ensures
        cli.url matches Some(s) ==> s.len() > 0 ==> connection_for(cli, saved).url == s,
        (cli.url matches Some(s) ==> s.len() == 0) ==> connection_for(cli, saved).url
            == if saved.url.len() > 0 {
            saved.url
        } else {
            "http://localhost:8080"@
        },
        cli.username matches Some(s) ==> s.len() > 0 ==> connection_for(cli, saved).username == s,
        (cli.username matches Some(s) ==> s.len() == 0) ==> connection_for(
            cli,
            saved,
        ).username == if saved.username.len() > 0 {
            saved.username
        } else {
            "admin"@
        },
        cli.password matches Some(p) ==> connection_for(cli, saved).password == p,
        cli.password is None ==> connection_for(cli, saved).password == saved.password,
{
}

/// What other parts are given makes no difference to a part of the connection.
pub proof fn lemma_connection_parts_are_apart(a: CliView, b: CliView, saved: ProfileEntryView)
    ensures
        a.url == b.url ==> connection_for(a, saved).url == connection_for(b, saved).url,
        a.username == b.username ==> connection_for(a, saved).username == connection_for(
            b,
            saved,
        ).username,
        a.password == b.password ==> connection_for(a, saved).password == connection_for(
            b,
            saved,
        ).password,
{
}

/// The profile that is named is the one that a connection falls back on; a name under
/// which nothing is saved has none, and without a name nothing is filled in.
pub proof fn lemma_fallback_profile(cli: CliView, profiles: Map<Seq<char>, ProfileEntryView>)
    ensures
        cli.profile matches Some(name) ==> (profiles.contains_key(name) ==> fallback_profile(
            cli,
            profiles,
        ) == Some(profiles[name])) && (!profiles.contains_key(name) ==> fallback_profile(
            cli,
            profiles,
        ) is None),
        cli.profile is None ==> fallback_profile(cli, profiles) == Some(
            ProfileEntryView { url: Seq::empty(), username: Seq::empty(), password: Seq::empty() },
        ),
{
}

/// The root of the manager's addresses is the server's URL and then the manager's path,
/// each without the slashes at its end.
pub proof fn lemma_manager_root(
    url: Seq<char>,
    url_slashes: Seq<char>,
    manager_path: Seq<char>,
    path_slashes: Seq<char>,
)
    requires
        url.len() > 0 ==> url.last() != '/',
        manager_path.len() > 0 ==> manager_path.last() != '/',
        all_are(url_slashes, '/'),
        all_are(path_slashes, '/'),
    ensures
        manager_root(url + url_slashes, manager_path + path_slashes) == url + manager_path,
{
    lemma_trimmed_end_of_parts(url, url_slashes, '/');
    lemma_trimmed_end_of_parts(manager_path, path_slashes, '/');
}

/// A command of the text interface is asked for below the base address, with just the
/// parameters given and with the credentials of the client.
pub proof fn lemma_command(
    client: TomcatClient,
    method: Method,
    endpoint: Seq<char>,
    query: Seq<(Seq<char>, Seq<char>)>,
)
    ensures
        client.command(method, endpoint, query).method == method,
        client.command(method, endpoint, query).url == client.base_url@ + endpoint,
        client.command(method, endpoint, query).query == query,
        client.command(method, endpoint, query).username == client.username@,
        client.command(method, endpoint, query).password == client.password@,
{
}

/// The contents of query parameters are those of each one, in its place.
pub proof fn lemma_pair_views(v: Seq<(String, String)>, i: int)
    requires
        0 <= i < v.len(),
    ensures
        pair_views(v).len() == v.len(),
        pair_views(v)[i] == (v[i].0@, v[i].1@),
{
}

} // verus!
