use tomcat_manager::connection::{resolve_connection, Cli, Connection, TomcatClient};
use tomcat_manager::error::TomcatError;
use tomcat_manager::output::OutputFmt;
use tomcat_manager::profile_commands::{cmd_profile, ProfileCommands};
use tomcat_manager::profiles::{load_profiles, ProfileEntry, Profiles};

fn cli(
    url: Option<&str>,
    username: Option<&str>,
    password: Option<&str>,
    profile: Option<&str>,
) -> Cli {
    Cli {
        url: url.map(|s| s.to_string()),
        username: username.map(|s| s.to_string()),
        password: password.map(|s| s.to_string()),
        profile: profile.map(|s| s.to_string()),
    }
}

fn parts(c: &Connection) -> [&str; 3] {
    [&c.url, &c.username, &c.password]
}

fn saved() -> Profiles {
    load_profiles(
        "[profile.full]\nurl=http://full\nusername=fu\npassword=SECRET-REDACTED\n[profile.bare]\n",
    )
}

#[test]
fn defaults_without_a_profile() {
    let c = resolve_connection(&cli(None, None, None, None), &saved()).unwrap();
    assert_eq!(parts(&c), ["http://localhost:8080", "admin", ""]);
}

#[test]
fn a_profile_fills_in() {
    let c = resolve_connection(&cli(None, None, None, Some("full")), &saved()).unwrap();
    assert_eq!(parts(&c), ["http://full", "fu", "SECRET-REDACTED"]);
    let c = resolve_connection(&cli(None, None, None, Some("bare")), &saved()).unwrap();
    assert_eq!(parts(&c), ["http://localhost:8080", "admin", ""]);
}

#[test]
fn what_is_given_comes_first() {
    for profile in [None, Some("full"), Some("bare")] {
        let given = cli(Some("u"), Some("n"), Some("p"), profile);
        let c = resolve_connection(&given, &saved()).unwrap();
        assert_eq!(parts(&c), ["u", "n", "p"]);
    }
}

#[test]
fn empty_counts_as_not_given_but_for_the_password() {
    let c = resolve_connection(&cli(Some(""), Some(""), Some(""), Some("full")), &saved()).unwrap();
    assert_eq!(parts(&c), ["http://full", "fu", ""]);
    let c = resolve_connection(&cli(Some(""), Some(""), Some(""), None), &saved()).unwrap();
    assert_eq!(parts(&c), ["http://localhost:8080", "admin", ""]);
}

#[test]
fn an_unknown_profile_fails() {
    match resolve_connection(&cli(Some("u"), Some("n"), Some("p"), Some("none")), &saved()) {
        Err(e) => assert_eq!(e.message(), "profile 'none' not found"),
        Ok(_) => panic!("resolved an unknown profile"),
    }
    assert!(matches!(
        resolve_connection(&cli(None, None, None, Some("")), &Profiles::new()),
        Err(TomcatError::ProfileNotFound(_))
    ));
}

#[test]
fn addresses_have_no_doubled_slash() {
    let conn = |url: &str| Connection {
        url: url.to_string(),
        username: "n".to_string(),
        password: "p".to_string(),
    };
    for url in ["http://h:8080", "http://h:8080/", "http://h:8080//"] {
        for path in ["/manager", "/manager/", "/manager//"] {
            let client = TomcatClient::new(&conn(url), path, true, 2, 5);
            assert_eq!(client.base_url, "http://h:8080/manager/text");
            assert_eq!(client.status_url, "http://h:8080/manager/status");
            assert_eq!((client.username.as_str(), client.password.as_str()), ("n", "p"));
            assert_eq!((client.verbose, client.retries, client.retry_delay), (true, 2, 5));
        }
    }
    let client = TomcatClient::new(&conn("///"), "m", false, 0, 0);
    assert_eq!(client.base_url, "m/text");
}

#[test]
fn a_saved_profile_is_used() {
    let mut p = saved();
    let entry = ProfileEntry {
        url: "http://new".to_string(),
        username: "nu".to_string(),
        password: "SECRET-REDACTED".to_string(),
    };
    let command = ProfileCommands::Save { name: "new".to_string(), entry };
    let file = cmd_profile(command, &mut p, &OutputFmt::Table).unwrap().file.unwrap();
    let c = resolve_connection(&cli(None, None, None, Some("new")), &load_profiles(&file)).unwrap();
    assert_eq!(parts(&c), ["http://new", "nu", "SECRET-REDACTED"]);
}
