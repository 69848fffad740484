use std::sync::{Mutex, MutexGuard};

use colored::control::set_override;
use tomcat_manager::error::TomcatError;
use tomcat_manager::output::OutputFmt;
use tomcat_manager::profile_commands::{cmd_profile, profiles_path, ProfileCommands};
use tomcat_manager::profiles::{load_profiles, save_profiles, ProfileEntry, Profiles};

/// Held while a test has colours on or off: the switch is one for the whole process.
static COLOURS: Mutex<()> = Mutex::new(());

fn colours(on: bool) -> MutexGuard<'static, ()> {
    let guard = COLOURS.lock().unwrap_or_else(|e| e.into_inner());
    set_override(on);
    guard
}

fn entry(url: &str, username: &str, password: &str) -> ProfileEntry {
    ProfileEntry {
        url: url.to_string(),
        username: username.to_string(),
        password: password.to_string(),
    }
}

fn values(e: &ProfileEntry) -> [&str; 3] {
    [&e.url, &e.username, &e.password]
}

const CONTENT: &str = "# comment\n\
url = \"before any header\"\n\
[profile.prod]\n\
url = \"http://prod:8080\"\n\
  username=\"deployer\"  \n\
password = \"a=b\"\n\
colour = \"red\"\n\
\n\
[profile.dev]\n\
url = http://dev\n";

#[test]
fn profiles_are_read_under_their_headers() {
    let p = load_profiles(CONTENT);
    assert_eq!(p.len(), 2);
    assert_eq!(values(p.get("prod").unwrap()), ["http://prod:8080", "deployer", "a=b"]);
    assert_eq!(values(p.get("dev").unwrap()), ["http://dev", "", ""]);
    assert!(p.get("stage").is_none());
}

#[test]
fn an_empty_file_has_no_profiles() {
    assert!(load_profiles("").is_empty());
    assert!(load_profiles("url = \"x\"\n[other]\n[profile.x\n").is_empty());
}

#[test]
fn headers_and_values_of_odd_shapes() {
    let p = load_profiles("[profile.]\nurl=\"\"x\"\"\n  [profile.a.b]  \n=\nurl = \" y \"");
    assert_eq!(p.len(), 2);
    assert_eq!(values(p.get("").unwrap()), ["x", "", ""]);
    assert_eq!(values(p.get("a.b").unwrap()), [" y ", "", ""]);
}

#[test]
fn a_header_goes_on_with_a_profile_of_its_name() {
    let p = load_profiles("[profile.a]\nurl=1\n[profile.b]\nurl=2\n[profile.a]\nusername=u\nurl=3");
    assert_eq!(p.len(), 2);
    assert_eq!(values(p.get("a").unwrap()), ["3", "u", ""]);
    assert_eq!(values(p.get("b").unwrap()), ["2", "", ""]);
}

#[test]
fn the_file_is_written_block_by_block() {
    let mut p = Profiles::new();
    assert_eq!(save_profiles(&p), "");
    p.insert("a".to_string(), entry("u", "n", "p"));
    p.insert("b".to_string(), entry("", "", ""));
    assert_eq!(
        save_profiles(&p),
        "[profile.a]\nurl = \"u\"\nusername = \"n\"\npassword = \"p\"\n\n\
         [profile.b]\nurl = \"\"\nusername = \"\"\npassword = \"\"\n\n"
    );
}

#[test]
fn profiles_read_back_as_written() {
    let mut p = Profiles::new();
    p.insert("a b".to_string(), entry("http://h:1/?x=y", " spaced ", "pa\"ss"));
    p.insert("[x]".to_string(), entry("", "é", "="));
    let back = load_profiles(&save_profiles(&p));
    assert_eq!(back.len(), 2);
    assert_eq!(values(back.get("a b").unwrap()), ["http://h:1/?x=y", " spaced ", "pa\"ss"]);
    assert_eq!(values(back.get("[x]").unwrap()), ["", "é", "="]);
}

#[test]
fn a_quote_at_the_end_of_a_value_is_lost() {
    let mut p = Profiles::new();
    p.insert("a".to_string(), entry("u", "n", "secret\""));
    let back = load_profiles(&save_profiles(&p));
    assert_eq!(back.get("a").unwrap().password, "secret");
}

#[test]
fn saving_what_was_read_changes_nothing() {
    let once = load_profiles(CONTENT);
    let twice = load_profiles(&save_profiles(&once));
    assert_eq!(once.len(), twice.len());
    for i in 0..once.len() {
        let (name, e) = once.entry(i);
        assert_eq!(values(twice.get(name).unwrap()), values(e));
    }
}

#[test]
fn a_name_is_kept_once() {
    let mut p = Profiles::new();
    p.insert("a".to_string(), entry("1", "", ""));
    p.insert("b".to_string(), entry("2", "", ""));
    p.insert("a".to_string(), entry("3", "", ""));
    assert_eq!(p.len(), 2);
    assert_eq!(p.get("a").unwrap().url, "3");
    assert!(p.remove("a"));
    assert!(!p.remove("a"));
    assert!(p.get("a").is_none());
    assert_eq!(p.get("b").unwrap().url, "2");
    assert!(!p.is_empty());
}

#[test]
fn an_entry_starts_empty_and_copies_whole() {
    assert_eq!(values(&ProfileEntry::default()), ["", "", ""]);
    let e = entry("u", "n", "p");
    assert_eq!(values(&e.clone()), ["u", "n", "p"]);
}

#[test]
fn the_profiles_file_is_under_the_home_directory() {
    assert_eq!(
        profiles_path(Some("/home/u".to_string())),
        ["/home/u", ".config", "tomcat-cli", "profiles.toml"]
    );
    assert_eq!(profiles_path(None), [".", ".config", "tomcat-cli", "profiles.toml"]);
}

#[test]
fn a_saved_profile_is_in_the_file() {
    let _colours = colours(false);
    let mut p = load_profiles(CONTENT);
    let save = ProfileCommands::Save { name: "dev".to_string(), entry: entry("x", "y", "z") };
    let outcome = cmd_profile(save, &mut p, &OutputFmt::Table).unwrap();
    assert_eq!(outcome.output.out, "");
    assert_eq!(outcome.output.err, "✓ Profile 'dev' saved.\n");
    let file = load_profiles(&outcome.file.unwrap());
    assert_eq!(values(file.get("dev").unwrap()), ["x", "y", "z"]);
    assert_eq!(values(file.get("prod").unwrap()), ["http://prod:8080", "deployer", "a=b"]);
    assert_eq!(values(p.get("dev").unwrap()), ["x", "y", "z"]);
}

#[test]
fn a_deleted_profile_is_not_in_the_file() {
    let _colours = colours(true);
    let mut p = load_profiles(CONTENT);
    let delete = ProfileCommands::Delete { name: "dev".to_string() };
    let outcome = cmd_profile(delete, &mut p, &OutputFmt::Table).unwrap();
    assert_eq!(outcome.output.err, "\u{1b}[1;32m✓\u{1b}[0m Profile 'dev' deleted.\n");
    let file = load_profiles(&outcome.file.unwrap());
    assert!(file.get("dev").is_none());
    assert_eq!(values(file.get("prod").unwrap()), ["http://prod:8080", "deployer", "a=b"]);
}

#[test]
fn deleting_what_is_not_saved_fails() {
    let mut p = load_profiles(CONTENT);
    let delete = ProfileCommands::Delete { name: "x".to_string() };
    match cmd_profile(delete, &mut p, &OutputFmt::Table) {
        Err(TomcatError::ProfileNotFound(name)) => assert_eq!(name, "x"),
        _ => panic!("deleted a profile that is not there"),
    }
    assert_eq!(p.len(), 2);
}

#[test]
fn profiles_are_listed_without_passwords() {
    let mut p = load_profiles(CONTENT);
    let outcome = cmd_profile(ProfileCommands::List, &mut p, &OutputFmt::Table).unwrap();
    assert!(outcome.file.is_none());
    assert_eq!(outcome.output.err, "");
    let mut lines: Vec<&str> = outcome.output.out.lines().collect();
    lines.sort();
    assert_eq!(lines, ["dev\thttp://dev\t", "prod\thttp://prod:8080\tdeployer"]);
}

#[test]
fn no_profiles_is_told_to_people() {
    let _colours = colours(true);
    let mut none = Profiles::new();
    let outcome = cmd_profile(ProfileCommands::List, &mut none, &OutputFmt::Table).unwrap();
    assert_eq!(outcome.output.out, "");
    assert_eq!(outcome.output.err, "\u{1b}[33mNo profiles saved.\u{1b}[0m\n");
}

#[test]
fn a_listed_profile_splits_into_columns() {
    let mut p = Profiles::new();
    p.insert("a b".to_string(), entry("http://h", "user\tname", "p"));
    let out = cmd_profile(ProfileCommands::List, &mut p, &OutputFmt::Table).unwrap().output.out;
    let columns: Vec<&str> = out.trim_end_matches('\n').splitn(3, '\t').collect();
    assert_eq!(columns, ["a b", "http://h", "user\tname"]);
}

#[test]
fn the_new_file_reads_back() {
    let mut p = load_profiles(CONTENT);
    let save = ProfileCommands::Save { name: "new".to_string(), entry: entry("x", "y", "z") };
    let file = cmd_profile(save, &mut p, &OutputFmt::Table).unwrap().file.unwrap();
    let back = load_profiles(&file);
    assert_eq!(back.len(), p.len());
    for i in 0..p.len() {
        let (name, e) = p.entry(i);
        assert_eq!(values(back.get(name).unwrap()), values(e));
    }
}

#[test]
fn machines_are_told_of_profiles_without_colour() {
    let _colours = colours(true);
    for fmt in [OutputFmt::Plain, OutputFmt::Tsv, OutputFmt::Json] {
        let mut p = Profiles::new();
        let outcome = cmd_profile(ProfileCommands::List, &mut p, &fmt).unwrap();
        assert_eq!(outcome.output.err, "No profiles saved.\n");
        let save = ProfileCommands::Save { name: "a".to_string(), entry: entry("u", "n", "p") };
        let outcome = cmd_profile(save, &mut p, &fmt).unwrap();
        assert_eq!(outcome.output.err, "✓ Profile 'a' saved.\n");
        let outcome = cmd_profile(ProfileCommands::List, &mut p, &fmt).unwrap();
        assert_eq!(outcome.output.out, "a\tu\tn\n");
        let delete = ProfileCommands::Delete { name: "a".to_string() };
        let outcome = cmd_profile(delete, &mut p, &fmt).unwrap();
        assert_eq!(outcome.output.err, "✓ Profile 'a' deleted.\n");
    }
}
