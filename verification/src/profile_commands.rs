//! Managing saved profiles.

use vstd::prelude::*;
use vstd::string::*;

use crate::error::{TomcatError, TomcatErrorView};
use crate::output::{after, block_of_lines, line_block, string_views, Output, OutputFmt};
use crate::profiles::{
    all_storable, distinct_names, profiles_of, profiles_text, save_profiles, with_entry,
    without_entry, NamedEntries, ProfileEntry, ProfileEntryView, Profiles,
};
use crate::style::{green_bold, is_marked, yellow};

verus! {

/// The parts of the path of the profiles file, from the user's home directory, or from
/// the current directory where there is none.
pub fn profiles_path(home: Option<String>) -> (r: Vec<String>)
    ensures
        string_views(r@) == seq![
            match home {
                Some(h) => h@,
                None => "."@,
            },
            ".config"@,
            "tomcat-cli"@,
            "profiles.toml"@,
        ],
{
    let base = match home {
        Some(h) => h,
        None => ".".to_owned(),
    };
    let mut parts: Vec<String> = Vec::new();
    parts.push(base);
    parts.push(".config".to_owned());
    parts.push("tomcat-cli".to_owned());
    parts.push("profiles.toml".to_owned());
    assert(string_views(parts@) == seq![base@, ".config"@, "tomcat-cli"@, "profiles.toml"@]);
    parts
}

/// What to do with the saved profiles.
#[derive(Debug)]
pub enum ProfileCommands {
    /// Save a connection under a name.
    Save { name: String, entry: ProfileEntry },
    /// List the profiles.
    List,
    /// Forget the connection under a name.
    Delete { name: String },
}

/// What a command on the saved profiles leads to.
#[derive(Debug)]
pub struct ProfileOutcome {
    /// The new text of the profiles file, if it is to be written.
    pub file: Option<String>,
    /// What to tell once the file is written.
    pub output: Output,
}

/// The line that lists a profile: name, URL and user name, separated by tabs.
pub open spec fn listing_line(name: Seq<char>, e: ProfileEntryView) -> Seq<char> {
    name + "\t"@ + e.url + "\t"@ + e.username
}

/// The lines that list profiles.
pub open spec fn listing(l: NamedEntries) -> Seq<Seq<char>> {
    l.map_values(|p: (Seq<char>, ProfileEntryView)| listing_line(p.0, p.1))
}

/// `o` lists profiles. People are told where there are none; a machine gets no colour.
pub open spec fn is_listing(o: Output, l: NamedEntries, fmt: OutputFmt) -> bool {
    if l.len() == 0 {
        &&& o.out@ == Seq::<char>::empty()
        &&& is_marked(o.err@, "No profiles saved."@, "33"@, "\n"@, fmt)
    } else {
        &&& o.out@ == line_block(listing(l))
        &&& o.err@ == Seq::<char>::empty()
    }
}

/// `o` confirms what was done to a profile. A machine gets no colour.
pub open spec fn is_confirmation(
    o: Output,
    name: Seq<char>,
    done: Seq<char>,
    fmt: OutputFmt,
) -> bool {
    &&& o.out@ == Seq::<char>::empty()
    &&& is_marked(o.err@, "✓"@, "1;32"@, " Profile '"@ + name + "' "@ + done + ".\n"@, fmt)
}

fn confirm(name: &str, done: &str, fmt: &OutputFmt) -> (r: Output)
    ensures
        is_confirmation(r, name@, done@, *fmt),
{
    let mut rest = " Profile '".to_owned();
    rest.append(name);
    rest.append("' ");
    rest.append(done);
    rest.append(".\n");
    let mark = if fmt.is_machine() {
        "✓".to_owned()
    } else {
        green_bold("✓")
    };
    Output { out: String::new(), err: after(mark, rest.as_str()) }
}

fn list_profiles(profiles: &Profiles, fmt: &OutputFmt) -> (r: Output)
    ensures
        is_listing(r, profiles.list(), *fmt),
{
    if profiles.is_empty() {
        let told = if fmt.is_machine() {
            "No profiles saved.".to_owned()
        } else {
            yellow("No profiles saved.")
        };
        return Output { out: String::new(), err: after(told, "\n") };
    }
    let mut lines: Vec<String> = Vec::new();
    let ghost l = profiles.list();
    assert(string_views(lines@) == listing(l.take(0)));
    let mut i: usize = 0;
    while i < profiles.len()
        invariant
            i <= l.len(),
            l == profiles.list(),
            string_views(lines@) == listing(l.take(i as int)),
        decreases l.len() - i,
    {
        let ghost before = string_views(lines@);
        let (name, e) = profiles.entry(i);
        let mut line = name.clone();
        line.append("\t");
        line.append(e.url.as_str());
        line.append("\t");
        line.append(e.username.as_str());
        lines.push(line);
        let ghost p = l[i as int];
        assert(string_views(lines@) == before.push(listing_line(p.0, p.1)));
        assert(listing(l.take(i + 1)) == listing(l.take(i as int)).push(listing_line(p.0, p.1)));
        i = i + 1;
    }
    assert(l.take(l.len() as int) == l);
    Output { out: block_of_lines(&lines), err: String::new() }
}

/// Carries out a command on the saved profiles. Saving and forgetting lead to a new
/// profiles file; forgetting what is not saved fails and changes nothing.
pub fn cmd_profile(sub: ProfileCommands, profiles: &mut Profiles, fmt: &OutputFmt) -> (r: Result<
    ProfileOutcome,
    TomcatError,
>)
    ensures
        match sub {
            ProfileCommands::Save { name, entry } => {
                &&& r matches Ok(o) && o.file matches Some(text) && text@ == profiles_text(
                    final(profiles).list(),
                ) && (all_storable(final(profiles)@) ==> profiles_of(text@) == final(profiles)@)
                    && is_confirmation(o.output, name@, "saved"@, *fmt)
                &&& distinct_names(final(profiles).list())
                &&& final(profiles)@ == old(profiles)@.insert(name@, entry@)
                &&& final(profiles).list() == with_entry(old(profiles).list(), name@, entry@)
            },
            ProfileCommands::List => {
                &&& r matches Ok(o) && o.file is None && is_listing(
                    o.output,
                    old(profiles).list(),
                    *fmt,
                )
                &&& *final(profiles) == *old(profiles)
            },
            ProfileCommands::Delete { name } => if old(profiles)@.contains_key(name@) {
                &&& r matches Ok(o) && o.file matches Some(text) && text@ == profiles_text(
                    final(profiles).list(),
                ) && (all_storable(final(profiles)@) ==> profiles_of(text@) == final(profiles)@)
                    && is_confirmation(o.output, name@, "deleted"@, *fmt)
                &&& distinct_names(final(profiles).list())
                &&& final(profiles)@ == old(profiles)@.remove(name@)
                &&& final(profiles).list() == without_entry(old(profiles).list(), name@)
            } else {
                &&& r matches Err(e) && e@ == TomcatErrorView::ProfileNotFound(name@)
                &&& *final(profiles) == *old(profiles)
            },
        },
{
    match sub {
        ProfileCommands::Save { name, entry } => {
            let output = confirm(name.as_str(), "saved", fmt);
            profiles.insert(name, entry);
            Ok(ProfileOutcome { file: Some(save_profiles(profiles)), output })
        },
        ProfileCommands::List => Ok(
            ProfileOutcome { file: None, output: list_profiles(profiles, fmt) },
        ),
        ProfileCommands::Delete { name } => {
            if !profiles.remove(name.as_str()) {
                return Err(TomcatError::ProfileNotFound(name));
            }
            let output = confirm(name.as_str(), "deleted", fmt);
            Ok(ProfileOutcome { file: Some(save_profiles(profiles)), output })
        },
    }
}

} // verus!
