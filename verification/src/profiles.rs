//! Saved connection profiles and the file that keeps them.

use vstd::prelude::*;
use vstd::slice::slice_subrange;
use vstd::string::*;

use crate::output::{block_of_lines, is_line, lemma_lines_of_block, line_block, string_views};
use crate::text::{
    all_are, all_white_space, chars_of, is_white_space, lemma_first_at, lemma_first_at_is,
    lemma_lines_of_append, lemma_lines_of_cons, lemma_lines_of_have_no_feed, lemma_split_once,
    lemma_trimmed_end_append, lemma_trimmed_end_skips, lemma_trimmed_is, lemma_trimmed_keeps,
    lemma_trimmed_of, lemma_trimmed_of_parts, lemma_trimmed_parts, lemma_trimmed_start_skips,
    lines, lines_of, same, same_text, slice_views, split_once, split_once_at, starts_with,
    text_of, trim, trim_of, trimmed, trimmed_end, trimmed_end_of, trimmed_of, trimmed_start,
    trimmed_start_of,
};

verus! {

/// A saved connection.
#[derive(Debug)]
pub struct ProfileEntry {
    pub url: String,
    pub username: String,
    pub password: String,
}

/// The contents of a `ProfileEntry`.
pub struct ProfileEntryView {
    pub url: Seq<char>,
    pub username: Seq<char>,
    pub password: Seq<char>,
}

impl View for ProfileEntry {
    type V = ProfileEntryView;

    open spec fn view(&self) -> ProfileEntryView {
        ProfileEntryView { url: self.url@, username: self.username@, password: self.password@ }
    }
}

/// The connection with nothing filled in.
pub open spec fn empty_entry() -> ProfileEntryView {
    ProfileEntryView { url: Seq::empty(), username: Seq::empty(), password: Seq::empty() }
}

impl Default for ProfileEntry {
    fn default() -> (r: Self)
        ensures
            r@ == empty_entry(),
    {
        ProfileEntry { url: String::new(), username: String::new(), password: String::new() }
    }
}

impl Clone for ProfileEntry {
    fn clone(&self) -> (r: Self)
        ensures
            r@ == self@,
    {
        ProfileEntry {
            url: self.url.clone(),
            username: self.username.clone(),
            password: self.password.clone(),
        }
    }
}

/// Names with the connections saved under them.
pub type NamedEntries = Seq<(Seq<char>, ProfileEntryView)>;

/// No name occurs twice.
pub open spec fn distinct_names(l: NamedEntries) -> bool {
    forall|i: int, j: int| 0 <= i < j < l.len() ==> #[trigger] l[i].0 != #[trigger] l[j].0
}

/// The index of `name` in a list, or the length of the list where it is missing.
pub open spec fn name_at(l: NamedEntries, name: Seq<char>) -> int
    decreases l.len(),
{
    if l.len() == 0 {
        0
    } else if l[0].0 == name {
        0
    } else {
        1 + name_at(l.drop_first(), name)
    }
}

/// The connections of a list by name.
pub open spec fn entry_map(l: NamedEntries) -> Map<Seq<char>, ProfileEntryView>
    decreases l.len(),
{
    if l.len() == 0 {
        Map::empty()
    } else {
        entry_map(l.drop_last()).insert(l.last().0, l.last().1)
    }
}

/// A list with a connection saved under `name`: in the place of the one that was
/// there, or at the end.
pub open spec fn with_entry(l: NamedEntries, name: Seq<char>, e: ProfileEntryView) -> NamedEntries {
    let k = name_at(l, name);
    if k < l.len() {
        l.update(k, (name, e))
    } else {
        l.push((name, e))
    }
}

/// A list without the connection saved under `name`.
pub open spec fn without_entry(l: NamedEntries, name: Seq<char>) -> NamedEntries {
    let k = name_at(l, name);
    if k < l.len() {
        l.remove(k)
    } else {
        l
    }
}

proof fn lemma_name_at(l: NamedEntries, name: Seq<char>)
    ensures
        0 <= name_at(l, name) <= l.len(),
        name_at(l, name) < l.len() ==> l[name_at(l, name)].0 == name,
        forall|i: int| 0 <= i < name_at(l, name) ==> (#[trigger] l[i]).0 != name,
    decreases l.len(),
{
    if l.len() > 0 && l[0].0 != name {
        lemma_name_at(l.drop_first(), name);
        assert forall|i: int| 0 <= i < name_at(l, name) implies (#[trigger] l[i]).0 != name by {
            if i > 0 {
                assert(l.drop_first()[i - 1] == l[i]);
            }
        }
    }
}

/// A list of distinct names maps each of its names, and nothing else, to the
/// connection beside it.
pub proof fn lemma_entry_map(l: NamedEntries)
    requires
        distinct_names(l),
    ensures
        forall|i: int|
            0 <= i < l.len() ==> entry_map(l).contains_key((#[trigger] l[i]).0) && entry_map(
                l,
            )[l[i].0] == l[i].1,
        forall|name: Seq<char>| #[trigger]
            entry_map(l).contains_key(name) <==> name_at(l, name) < l.len(),
    decreases l.len(),
{
    if l.len() > 0 {
        let front = l.drop_last();
        assert(distinct_names(front)) by {
            assert forall|i: int, j: int| 0 <= i < j < front.len() implies #[trigger] front[i].0
                != #[trigger] front[j].0 by {
                assert(front[i] == l[i] && front[j] == l[j]);
            }
        }
        lemma_entry_map(front);
        assert forall|i: int| 0 <= i < l.len() implies entry_map(l).contains_key(
            (#[trigger] l[i]).0,
        ) && entry_map(l)[l[i].0] == l[i].1 by {
            if i < front.len() {
                assert(front[i] == l[i]);
                assert(l[i].0 != l[l.len() - 1].0);
            }
        }
        assert forall|name: Seq<char>| #[trigger]
            entry_map(l).contains_key(name) <==> name_at(l, name) < l.len() by {
            lemma_name_at(l, name);
            lemma_name_at(front, name);
            if entry_map(l).contains_key(name) {
                if name == l.last().0 {
                    assert(l[l.len() - 1].0 == name);
                } else {
                    let k = name_at(front, name);
                    assert(front[k] == l[k]);
                }
            }
        }
    }
}

proof fn lemma_with_entry(l: NamedEntries, name: Seq<char>, e: ProfileEntryView)
    requires
        distinct_names(l),
    ensures
        distinct_names(with_entry(l, name, e)),
        entry_map(with_entry(l, name, e)) == entry_map(l).insert(name, e),
{
    let l2 = with_entry(l, name, e);
    let k = name_at(l, name);
    lemma_name_at(l, name);
    assert forall|i: int, j: int| 0 <= i < j < l2.len() implies #[trigger] l2[i].0
        != #[trigger] l2[j].0 by {
        if k < l.len() {
            assert(l2[i].0 == l[i].0 && l2[j].0 == l[j].0);
        }
    }
    if k == l.len() {
        assert(l2.drop_last() == l);
    } else {
        lemma_entry_map(l);
        lemma_entry_map(l2);
        assert forall|n: Seq<char>| true implies name_at(l, n) == name_at(l2, n) by {
            lemma_name_at(l, n);
            lemma_name_at(l2, n);
            let a = name_at(l, n);
            let b = name_at(l2, n);
            if a < b {
                assert(l2[a].0 == l[a].0);
            } else if b < a {
                assert(l2[b].0 == l[b].0);
            }
        }
        let m = entry_map(l2);
        let m2 = entry_map(l).insert(name, e);
        assert forall|n: Seq<char>| m.contains_key(n) == #[trigger] m2.contains_key(n) by {
            lemma_name_at(l, n);
        }
        assert forall|n: Seq<char>| #[trigger] m.contains_key(n) implies m[n] == m2[n] by {
            lemma_name_at(l2, n);
            let i = name_at(l2, n);
            assert(m[l2[i].0] == l2[i].1);
            if i != k {
                assert(l[i] == l2[i]);
                assert(entry_map(l)[l[i].0] == l[i].1);
                assert(l2[k].0 == name);
            }
        }
        assert(m =~= m2);
    }
}

proof fn lemma_without_entry(l: NamedEntries, name: Seq<char>)
    requires
        distinct_names(l),
    ensures
        distinct_names(without_entry(l, name)),
        entry_map(without_entry(l, name)) == entry_map(l).remove(name),
{
    let l2 = without_entry(l, name);
    let k = name_at(l, name);
    lemma_name_at(l, name);
    lemma_entry_map(l);
    if k < l.len() {
        assert forall|i: int| 0 <= i < l2.len() implies (#[trigger] l2[i]) == l[if i < k {
            i
        } else {
            i + 1
        }] by {}
        assert forall|i: int, j: int| 0 <= i < j < l2.len() implies #[trigger] l2[i].0
            != #[trigger] l2[j].0 by {
            let a = if i < k { i } else { i + 1 };
            let b = if j < k { j } else { j + 1 };
            assert(l[a].0 != l[b].0);
        }
        lemma_entry_map(l2);
        let m = entry_map(l2);
        let m2 = entry_map(l).remove(name);
        assert forall|n: Seq<char>| m.contains_key(n) == #[trigger] m2.contains_key(n) by {
            lemma_name_at(l, n);
            lemma_name_at(l2, n);
            let i = name_at(l2, n);
            if m.contains_key(n) {
                let a = if i < k { i } else { i + 1 };
                assert(l2[i] == l[a]);
                assert(l[a].0 != l[k].0);
                assert(entry_map(l).contains_key(l[a].0));
            }
            if m2.contains_key(n) {
                let a = name_at(l, n);
                let b = if a < k { a } else { a - 1 };
                assert(a != k);
                assert(l2[b] == l[a]);
                assert(m.contains_key(l2[b].0));
            }
        }
        assert forall|n: Seq<char>| #[trigger] m.contains_key(n) implies m[n] == m2[n] by {
            lemma_name_at(l2, n);
            let i = name_at(l2, n);
            let a = if i < k { i } else { i + 1 };
            assert(l2[i] == l[a]);
            assert(m[l2[i].0] == l2[i].1);
            assert(entry_map(l)[l[a].0] == l[a].1);
            assert(l[a].0 != l[k].0);
        }
        assert(m =~= m2);
    } else {
        assert(!entry_map(l).contains_key(name));
        assert(entry_map(l) =~= entry_map(l).remove(name));
    }
}

/// The saved profiles: connections by name, no name twice.
#[derive(Debug)]
pub struct Profiles {
    entries: Vec<(String, ProfileEntry)>,
}

impl View for Profiles {
    type V = Map<Seq<char>, ProfileEntryView>;

    open spec fn view(&self) -> Map<Seq<char>, ProfileEntryView> {
        entry_map(self.list())
    }
}

spec fn entry_views(v: Seq<(String, ProfileEntry)>) -> NamedEntries {
    v.map_values(|p: (String, ProfileEntry)| (p.0@, p.1@))
}

impl Profiles {
    /// The names and connections in the order in which they are kept.
    pub closed spec fn list(&self) -> NamedEntries {
        entry_views(self.entries@)
    }

    #[verifier::type_invariant]
    spec fn wf(self) -> bool {
        distinct_names(entry_views(self.entries@))
    }

    /// No profiles.
    pub fn new() -> (r: Self)
        ensures
            r.list() == NamedEntries::empty(),
            r@ == Map::<Seq<char>, ProfileEntryView>::empty(),
            distinct_names(r.list()),
    {
        let r = Profiles { entries: Vec::new() };
        assert(r.list() == NamedEntries::empty());
        r
    }

    /// The number of profiles.
    pub fn len(&self) -> (r: usize)
        ensures
            r == self.list().len(),
    {
        self.entries.len()
    }

    /// Tells whether there is no profile.
    pub fn is_empty(&self) -> (r: bool)
        ensures
            r == (self.list().len() == 0),
    {
        self.entries.len() == 0
    }

    /// The name and the connection at an index.
    pub fn entry(&self, i: usize) -> (r: (&String, &ProfileEntry))
        requires
            i < self.list().len(),
        ensures
            r.0@ == self.list()[i as int].0,
            r.1@ == self.list()[i as int].1,
    {
        (&self.entries[i].0, &self.entries[i].1)
    }

    fn position(&self, name: &str) -> (r: usize)
        ensures
            r == name_at(self.list(), name@),
            r <= self.list().len(),
    {
        let mut i: usize = 0;
        let ghost l = self.list();
        assert(l.skip(0) == l);
        while i < self.entries.len()
            invariant
                i <= self.entries@.len(),
                l == entry_views(self.entries@),
                name_at(l, name@) == i + name_at(l.skip(i as int), name@),
            decreases self.entries.len() - i,
        {
            assert(l[i as int].0 == self.entries@[i as int].0@);
            if same_text(self.entries[i].0.as_str(), name) {
                return i;
            }
            assert(l.skip(i as int).drop_first() == l.skip(i + 1));
            i = i + 1;
        }
        i
    }

    /// The connection saved under `name`.
    pub fn get(&self, name: &str) -> (r: Option<&ProfileEntry>)
        ensures
            match r {
                Some(e) => self@.contains_key(name@) && self@[name@] == e@,
                None => !self@.contains_key(name@),
            },
    {
        proof {
            use_type_invariant(self);
            lemma_entry_map(self.list());
            lemma_name_at(self.list(), name@);
        }
        let i: usize = self.position(name);
        if i < self.entries.len() {
            assert(self.list()[i as int].1 == self.entries@[i as int].1@);
            Some(&self.entries[i].1)
        } else {
            None
        }
    }

    /// Saves a connection under `name`, in the place of the one that was there.
    pub fn insert(&mut self, name: String, entry: ProfileEntry)
        ensures
            final(self)@ == old(self)@.insert(name@, entry@),
            final(self).list() == with_entry(old(self).list(), name@, entry@),
            distinct_names(final(self).list()),
    {
        proof {
            use_type_invariant(&*self);
            lemma_with_entry(self.list(), name@, entry@);
            lemma_name_at(self.list(), name@);
        }
        let ghost l = self.list();
        let ghost pair = (name@, entry@);
        let i: usize = self.position(name.as_str());
        let mut entries: Vec<(String, ProfileEntry)> = Vec::new();
        std::mem::swap(&mut self.entries, &mut entries);
        if i < entries.len() {
            entries.set(i, (name, entry));
            assert(entry_views(entries@) == l.update(i as int, pair));
        } else {
            entries.push((name, entry));
            assert(entry_views(entries@) == l.push(pair));
        }
        self.entries = entries;
    }

    /// Forgets the connection saved under `name`; tells whether there was one.
    pub fn remove(&mut self, name: &str) -> (r: bool)
        ensures
            r == old(self)@.contains_key(name@),
            final(self)@ == old(self)@.remove(name@),
            final(self).list() == without_entry(old(self).list(), name@),
            !r ==> *final(self) == *old(self),
            distinct_names(final(self).list()),
    {
        proof {
            use_type_invariant(&*self);
            lemma_without_entry(self.list(), name@);
            lemma_entry_map(self.list());
        }
        let ghost l = self.list();
        let i: usize = self.position(name);
        if i < self.entries.len() {
            let mut entries: Vec<(String, ProfileEntry)> = Vec::new();
            std::mem::swap(&mut self.entries, &mut entries);
            let _ = entries.remove(i);
            assert(entry_views(entries@) == l.remove(i as int));
            self.entries = entries;
            true
        } else {
            false
        }
    }
}

/// How far the profiles file has been read: the profiles so far, and the one that
/// the next lines belong to.
pub struct ProfileScan {
    pub profiles: Map<Seq<char>, ProfileEntryView>,
    pub current: Option<Seq<char>>,
}

/// The name in a line that starts a profile: `[profile.NAME]`.
pub open spec fn header_name(line: Seq<char>) -> Option<Seq<char>> {
    if "[profile."@.is_prefix_of(line) && line.len() > 0 && line.last() == ']' {
        Some(line.subrange("[profile."@.len() as int, line.len() - 1))
    } else {
        None
    }
}

/// The connection with the value of a key set; other keys than `url`, `username` and
/// `password` change nothing.
pub open spec fn with_value(e: ProfileEntryView, key: Seq<char>, value: Seq<char>)
    -> ProfileEntryView {
    if key == "url"@ {
        ProfileEntryView { url: value, ..e }
    } else if key == "username"@ {
        ProfileEntryView { username: value, ..e }
    } else if key == "password"@ {
        ProfileEntryView { password: value, ..e }
    } else {
        e
    }
}

/// The connection saved under `name`, or one with nothing filled in.
pub open spec fn entry_or_empty(
    m: Map<Seq<char>, ProfileEntryView>,
    name: Seq<char>,
) -> ProfileEntryView {
    if m.contains_key(name) {
        m[name]
    } else {
        empty_entry()
    }
}

/// Reads one line of the profiles file. A header starts a profile, or goes on with the
/// one of that name; under a header, `key = "value"` sets a value; other lines say
/// nothing.
pub open spec fn scan_line(st: ProfileScan, line: Seq<char>) -> ProfileScan {
    let line = trimmed(line);
    match header_name(line) {
        Some(name) => ProfileScan {
            profiles: st.profiles.insert(name, entry_or_empty(st.profiles, name)),
            current: Some(name),
        },
        None => match (st.current, split_once_at(line, '=')) {
            (Some(name), Some((key, value))) => {
                let e = entry_or_empty(st.profiles, name);
                let v = trimmed_of(trimmed(value), '"');
                ProfileScan {
                    profiles: st.profiles.insert(name, with_value(e, trimmed(key), v)),
                    current: st.current,
                }
            },
            _ => st,
        },
    }
}

/// Reads lines of the profiles file one after another.
pub open spec fn scan_lines(st: ProfileScan, lines: Seq<Seq<char>>) -> ProfileScan
    decreases lines.len(),
{
    if lines.len() == 0 {
        st
    } else {
        scan_line(scan_lines(st, lines.drop_last()), lines.last())
    }
}

/// The start of reading: no profiles, and none begun.
pub open spec fn scan_start() -> ProfileScan {
    ProfileScan { profiles: Map::empty(), current: None }
}

/// The profiles that the text of a profiles file holds.
pub open spec fn profiles_of(content: Seq<char>) -> Map<Seq<char>, ProfileEntryView> {
    scan_lines(scan_start(), lines_of(content)).profiles
}

fn read_header<'a>(line: &'a [char]) -> (r: Option<&'a [char]>)
    ensures
        match r {
            Some(name) => header_name(line@) == Some(name@),
            None => header_name(line@) is None,
        },
{
    proof {
        reveal_strlit("[profile.");
    }
    let mark = chars_of("[profile.");
    if starts_with(line, mark.as_slice()) && line[line.len() - 1] == ']' {
        assert("[profile."@[8] == line@[8]);
        Some(slice_subrange(line, mark.len(), line.len() - 1))
    } else {
        None
    }
}

/// Reads the text of a profiles file.
pub fn load_profiles(content: &str) -> (r: Profiles)
    ensures
        r@ == profiles_of(content@),
        distinct_names(r.list()),
{
    let cs = chars_of(content);
    let ls = lines(cs.as_slice());
    let url_key = chars_of("url");
    let username_key = chars_of("username");
    let password_key = chars_of("password");
    let mut profiles = Profiles::new();
    let mut current: Option<String> = None;
    let ghost views = slice_views(ls@);
    let ghost mut st = scan_start();
    assert(views.take(0) == Seq::<Seq<char>>::empty());
    let mut i: usize = 0;
    while i < ls.len()
        invariant
            i <= ls@.len(),
            views == slice_views(ls@),
            url_key@ == "url"@,
            username_key@ == "username"@,
            password_key@ == "password"@,
            st == scan_lines(scan_start(), views.take(i as int)),
            st.profiles == profiles@,
            distinct_names(profiles.list()),
            match current {
                Some(name) => st.current == Some(name@),
                None => st.current is None,
            },
        decreases ls.len() - i,
    {
        proof {
            assert(views.take(i + 1).drop_last() == views.take(i as int));
            st = scan_line(st, views[i as int]);
        }
        let line = trim(ls[i]);
        if let Some(name) = read_header(line) {
            let title = text_of(name);
            let entry = match profiles.get(title.as_str()) {
                Some(e) => e.clone(),
                None => ProfileEntry::default(),
            };
            profiles.insert(title.clone(), entry);
            current = Some(title);
        } else if let Some(title) = &current {
            if let Some((key, value)) = split_once(line, '=') {
                let mut entry = match profiles.get(title.as_str()) {
                    Some(e) => e.clone(),
                    None => ProfileEntry::default(),
                };
                let v = text_of(trim_of(trim(value), '"'));
                let k = trim(key);
                if same(k, url_key.as_slice()) {
                    entry.url = v;
                } else if same(k, username_key.as_slice()) {
                    entry.username = v;
                } else if same(k, password_key.as_slice()) {
                    entry.password = v;
                }
                profiles.insert(title.clone(), entry);
            }
        }
        i = i + 1;
    }
    assert(views.take(views.len() as int) == views);
    profiles
}

/// The line that starts a profile.
pub open spec fn header_line(name: Seq<char>) -> Seq<char> {
    "[profile."@ + name + "]"@
}

/// The line that sets a value.
pub open spec fn value_line(key: Seq<char>, value: Seq<char>) -> Seq<char> {
    key + " = \""@ + value + "\""@
}

/// The lines of one profile.
pub open spec fn entry_lines(name: Seq<char>, e: ProfileEntryView) -> Seq<Seq<char>> {
    seq![
        header_line(name),
        value_line("url"@, e.url),
        value_line("username"@, e.username),
        value_line("password"@, e.password),
        Seq::empty(),
    ]
}

/// The lines of the profiles file.
pub open spec fn list_lines(l: NamedEntries) -> Seq<Seq<char>>
    decreases l.len(),
{
    if l.len() == 0 {
        Seq::empty()
    } else {
        list_lines(l.drop_last()) + entry_lines(l.last().0, l.last().1)
    }
}

/// The text of the profiles file.
pub open spec fn profiles_text(l: NamedEntries) -> Seq<char> {
    line_block(list_lines(l))
}

fn write_header(name: &str) -> (r: String)
    ensures
        r@ == header_line(name@),
{
    let mut out = "[profile.".to_owned();
    out.append(name);
    out.append("]");
    out
}

fn write_value(key: &str, value: &str) -> (r: String)
    ensures
        r@ == value_line(key@, value@),
{
    let mut out = key.to_owned();
    out.append(" = \"");
    out.append(value);
    out.append("\"");
    out
}

/// Writes the text of the profiles file.
pub fn save_profiles(profiles: &Profiles) -> (r: String)
    ensures
        r@ == profiles_text(profiles.list()),
        distinct_names(profiles.list()),
        all_storable(profiles@) ==> profiles_of(r@) == profiles@,
{
    let mut lines: Vec<String> = Vec::new();
    let ghost l = profiles.list();
    assert(string_views(lines@) == list_lines(l.take(0)));
    let mut i: usize = 0;
    while i < profiles.len()
        invariant
            i <= l.len(),
            l == profiles.list(),
            string_views(lines@) == list_lines(l.take(i as int)),
        decreases l.len() - i,
    {
        let ghost before = string_views(lines@);
        let (name, e) = profiles.entry(i);
        lines.push(write_header(name.as_str()));
        lines.push(write_value("url", e.url.as_str()));
        lines.push(write_value("username", e.username.as_str()));
        lines.push(write_value("password", e.password.as_str()));
        lines.push(String::new());
        assert(string_views(lines@) == before + entry_lines(l[i as int].0, l[i as int].1));
        assert(l.take(i + 1).drop_last() == l.take(i as int));
        i = i + 1;
    }
    assert(l.take(l.len() as int) == l);
    proof {
        use_type_invariant(profiles);
        if all_storable(profiles@) {
            lemma_profiles_round_trip(l);
        }
    }
    block_of_lines(&lines)
}

/// A value that the profiles file keeps: it holds no line feed, and no quote at either
/// end.
pub open spec fn is_storable(value: Seq<char>) -> bool {
    &&& !value.contains('\n')
    &&& value.len() > 0 ==> value.first() != '"' && value.last() != '"'
}

/// A profile that the file keeps: the name holds no line feed, and the values are kept.
pub open spec fn is_storable_entry(name: Seq<char>, e: ProfileEntryView) -> bool {
    &&& !name.contains('\n')
    &&& is_storable(e.url)
    &&& is_storable(e.username)
    &&& is_storable(e.password)
}

/// Profiles that the file keeps.
pub open spec fn all_storable(m: Map<Seq<char>, ProfileEntryView>) -> bool {
    forall|name: Seq<char>| #[trigger] m.contains_key(name) ==> is_storable_entry(name, m[name])
}

proof fn lemma_scan_append(st: ProfileScan, a: Seq<Seq<char>>, b: Seq<Seq<char>>)
    ensures
        scan_lines(st, a + b) == scan_lines(scan_lines(st, a), b),
    decreases b.len(),
{
    if b.len() == 0 {
        assert(a + b == a);
    } else {
        assert((a + b).drop_last() == a + b.drop_last());
        lemma_scan_append(st, a, b.drop_last());
    }
}

proof fn lemma_scan_header(st: ProfileScan, name: Seq<char>)
    ensures
        scan_line(st, header_line(name)) == (ProfileScan {
            profiles: st.profiles.insert(name, entry_or_empty(st.profiles, name)),
            current: Some(name),
        }),
{
    reveal_strlit("[profile.");
    reveal_strlit("]");
    let line = header_line(name);
    lemma_trimmed_is(line);
    assert("[profile."@.is_prefix_of(line));
    assert(line.subrange(9, line.len() - 1) == name);
}

proof fn lemma_scan_value(st: ProfileScan, name: Seq<char>, key: Seq<char>, value: Seq<char>)
    requires
        st.current == Some(name),
        key.len() > 0,
        key.first() != '[',
        !is_white_space(key.first()),
        !is_white_space(key.last()),
        !key.contains('='),
        is_storable(value),
    ensures
        scan_line(st, value_line(key, value)) == (ProfileScan {
            profiles: st.profiles.insert(
                name,
                with_value(entry_or_empty(st.profiles, name), key, value),
            ),
            current: st.current,
        }),
{
    reveal_strlit("[profile.");
    reveal_strlit(" = \"");
    reveal_strlit("\"");
    let line = value_line(key, value);
    lemma_trimmed_is(line);
    assert(line.first() == key.first());
    if "[profile."@.is_prefix_of(line) {
        assert("[profile."@[0] == line[0]);
    }
    let k = key.len() as int + 1;
    assert(line[k] == '=');
    assert forall|i: int| 0 <= i < k implies line[i] != '=' by {
        if i < key.len() {
            assert(line[i] == key[i]);
            assert(key.contains(key[i]));
        }
    }
    lemma_first_at_is(line, '=', k);
    let left = line.take(k);
    assert(left == key.push(' '));
    assert(left.drop_last() == key);
    assert(trimmed_end(key) == key);
    assert(trimmed_end(left) == key);
    assert(trimmed(left) == key);
    let right = line.skip(k + 1);
    let quoted = seq!['"'] + value + seq!['"'];
    assert(right == seq![' '] + quoted);
    assert(right.drop_first() == quoted);
    assert(trimmed_start(quoted) == quoted);
    assert(trimmed(right) == quoted);
    assert(quoted.drop_first() == value + seq!['"']);
    if value.len() == 0 {
        assert(value + seq!['"'] == seq!['"']);
        assert(seq!['"'].drop_first() == Seq::<char>::empty());
        assert(trimmed_start_of(seq!['"'], '"') == Seq::<char>::empty()) by {
            assert(trimmed_start_of(Seq::<char>::empty(), '"') == Seq::<char>::empty());
        }
        assert(trimmed_of(quoted, '"') == value);
    } else {
        assert((value + seq!['"']).first() == value.first());
        assert(trimmed_start_of(value + seq!['"'], '"') == value + seq!['"']);
        assert(trimmed_start_of(quoted, '"') == value + seq!['"']);
        assert((value + seq!['"']).drop_last() == value);
        assert(trimmed_end_of(value, '"') == value);
        assert(trimmed_of(quoted, '"') == value);
    }
}

proof fn lemma_scan_entry(st: ProfileScan, name: Seq<char>, e: ProfileEntryView)
    requires
        is_storable_entry(name, e),
    ensures
        scan_lines(st, entry_lines(name, e)) == (ProfileScan {
            profiles: st.profiles.insert(name, e),
            current: Some(name),
        }),
{
    reveal_strlit("url");
    reveal_strlit("username");
    reveal_strlit("password");
    let all = entry_lines(name, e);
    let s1 = scan_line(st, all[0]);
    let s2 = scan_line(s1, all[1]);
    let s3 = scan_line(s2, all[2]);
    let s4 = scan_line(s3, all[3]);
    let s5 = scan_line(s4, all[4]);
    assert(all.drop_last().drop_last().drop_last().drop_last().drop_last() == Seq::<
        Seq<char>,
    >::empty());
    reveal_with_fuel(scan_lines, 6);
    assert(scan_lines(st, all) == s5);
    lemma_scan_header(st, name);
    lemma_scan_value(s1, name, "url"@, e.url);
    lemma_scan_value(s2, name, "username"@, e.username);
    lemma_scan_value(s3, name, "password"@, e.password);
    reveal_strlit("[profile.");
    assert(trimmed(all[4]) == Seq::<char>::empty());
    assert(s5 == s4);
    assert(s4.profiles =~= st.profiles.insert(name, e));
}

proof fn lemma_scan_list(l: NamedEntries)
    requires
        forall|i: int| 0 <= i < l.len() ==> is_storable_entry((#[trigger] l[i]).0, l[i].1),
    ensures
        scan_lines(scan_start(), list_lines(l)).profiles == entry_map(l),
    decreases l.len(),
{
    if l.len() > 0 {
        let front = l.drop_last();
        assert forall|i: int| 0 <= i < front.len() implies is_storable_entry(
            (#[trigger] front[i]).0,
            front[i].1,
        ) by {
            assert(front[i] == l[i]);
        }
        lemma_scan_list(front);
        lemma_scan_append(
            scan_start(),
            list_lines(front),
            entry_lines(l.last().0, l.last().1),
        );
        assert(is_storable_entry(l[l.len() - 1].0, l[l.len() - 1].1));
        lemma_scan_entry(scan_lines(scan_start(), list_lines(front)), l.last().0, l.last().1);
    }
}

proof fn lemma_list_lines(l: NamedEntries)
    requires
        forall|i: int| 0 <= i < l.len() ==> is_storable_entry((#[trigger] l[i]).0, l[i].1),
    ensures
        forall|i: int| 0 <= i < list_lines(l).len() ==> is_line(#[trigger] list_lines(l)[i]),
    decreases l.len(),
{
    if l.len() > 0 {
        let front = l.drop_last();
        assert forall|i: int| 0 <= i < front.len() implies is_storable_entry(
            (#[trigger] front[i]).0,
            front[i].1,
        ) by {
            assert(front[i] == l[i]);
        }
        lemma_list_lines(front);
        assert(is_storable_entry(l[l.len() - 1].0, l[l.len() - 1].1));
        let last = entry_lines(l.last().0, l.last().1);
        lemma_entry_lines(l.last().0, l.last().1);
        assert forall|i: int| 0 <= i < list_lines(l).len() implies is_line(
            #[trigger] list_lines(l)[i],
        ) by {
            let n = list_lines(front).len();
            if i < n {
                assert(list_lines(l)[i] == list_lines(front)[i]);
            } else {
                assert(list_lines(l)[i] == last[i - n]);
            }
        }
    }
}

proof fn lemma_entry_lines(name: Seq<char>, e: ProfileEntryView)
    requires
        is_storable_entry(name, e),
    ensures
        forall|i: int| 0 <= i < 5 ==> is_line(#[trigger] entry_lines(name, e)[i]),
{
    reveal_strlit("[profile.");
    reveal_strlit("]");
    reveal_strlit("url");
    reveal_strlit("username");
    reveal_strlit("password");
    let header = header_line(name);
    assert forall|i: int| 0 <= i < header.len() implies header[i] != '\n' by {
        if 9 <= i < header.len() - 1 {
            assert(header[i] == name[i - 9]);
            assert(name.contains(name[i - 9]));
        }
    }
    lemma_value_line("url"@, e.url);
    lemma_value_line("username"@, e.username);
    lemma_value_line("password"@, e.password);
}

proof fn lemma_value_line(key: Seq<char>, value: Seq<char>)
    requires
        !key.contains('\n'),
        !value.contains('\n'),
    ensures
        is_line(value_line(key, value)),
{
    reveal_strlit(" = \"");
    reveal_strlit("\"");
    let line = value_line(key, value);
    assert forall|i: int| 0 <= i < line.len() implies line[i] != '\n' by {
        let n = key.len();
        if i < n {
            assert(line[i] == key[i]);
            assert(key.contains(key[i]));
        } else if n + 4 <= i < line.len() - 1 {
            assert(line[i] == value[i - n - 4]);
            assert(value.contains(value[i - n - 4]));
        }
    }
}

/// Profiles whose names hold no line feed, and whose values hold no line feed and no
/// quote at either end, are read back as they were written.
pub proof fn lemma_profiles_round_trip(l: NamedEntries)
    requires
        distinct_names(l),
        all_storable(entry_map(l)),
    ensures
        profiles_of(profiles_text(l)) == entry_map(l),
{
    lemma_entry_map(l);
    assert forall|i: int| 0 <= i < l.len() implies is_storable_entry(
        (#[trigger] l[i]).0,
        l[i].1,
    ) by {
        assert(entry_map(l).contains_key(l[i].0));
    }
    lemma_list_lines(l);
    lemma_lines_of_block(list_lines(l));
    lemma_scan_list(l);
}

spec fn scan_storable(st: ProfileScan) -> bool {
    &&& all_storable(st.profiles)
    &&& st.current matches Some(name) ==> !name.contains('\n')
}

proof fn lemma_scan_line_storable(st: ProfileScan, line: Seq<char>)
    requires
        scan_storable(st),
        !line.contains('\n'),
    ensures
        scan_storable(scan_line(st, line)),
{
    let text = trimmed(line);
    lemma_trimmed_keeps(line, '\n');
    if let Some(name) = header_name(text) {
        reveal_strlit("[profile.");
        assert("[profile."@[8] == text[8]);
        assert forall|i: int| 0 <= i < name.len() implies name[i] != '\n' by {
            assert(name[i] == text[i + 9]);
            assert(text.contains(text[i + 9]));
        }
        let e = entry_or_empty(st.profiles, name);
        assert(is_storable_entry(name, e));
    } else if let Some(name) = st.current {
        if let Some((key, value)) = split_once_at(text, '=') {
            lemma_first_at(text, '=');
            assert forall|i: int| 0 <= i < value.len() implies value[i] != '\n' by {
                let k = text.len() - value.len();
                assert(value[i] == text[k + i]);
                assert(text.contains(text[k + i]));
            }
            lemma_trimmed_keeps(value, '\n');
            lemma_trimmed_of(trimmed(value), '"', '\n');
            let v = trimmed_of(trimmed(value), '"');
            assert(is_storable(v));
            let e = entry_or_empty(st.profiles, name);
            assert(is_storable_entry(name, with_value(e, trimmed(key), v)));
        }
    }
}

proof fn lemma_scan_lines_storable(st: ProfileScan, lines: Seq<Seq<char>>)
    requires
        scan_storable(st),
        forall|i: int| 0 <= i < lines.len() ==> !(#[trigger] lines[i]).contains('\n'),
    ensures
        scan_storable(scan_lines(st, lines)),
    decreases lines.len(),
{
    if lines.len() > 0 {
        let front = lines.drop_last();
        assert forall|i: int| 0 <= i < front.len() implies !(#[trigger] front[i]).contains(
            '\n',
        ) by {
            assert(front[i] == lines[i]);
        }
        lemma_scan_lines_storable(st, front);
        assert(!lines[lines.len() - 1].contains('\n'));
        lemma_scan_line_storable(scan_lines(st, front), lines.last());
    }
}

/// Whatever text is read, the profiles in it are ones that the file keeps.
pub proof fn lemma_loaded_is_storable(content: Seq<char>)
    ensures
        all_storable(profiles_of(content)),
{
    lemma_lines_of_have_no_feed(content);
    lemma_scan_lines_storable(scan_start(), lines_of(content));
}

/// Saving what was read and reading it again changes nothing.
pub proof fn lemma_reload(content: Seq<char>, l: NamedEntries)
    requires
        distinct_names(l),
        entry_map(l) == profiles_of(content),
    ensures
        profiles_of(profiles_text(l)) == profiles_of(content),
{
    lemma_loaded_is_storable(content);
    lemma_profiles_round_trip(l);
}

/// A profile that is saved is in the file that is written, with the others as they
/// were.
pub proof fn lemma_saved_is_found(l: NamedEntries, name: Seq<char>, e: ProfileEntryView)
    requires
        distinct_names(l),
        all_storable(entry_map(l)),
        is_storable_entry(name, e),
    ensures
        profiles_of(profiles_text(with_entry(l, name, e))) == entry_map(l).insert(name, e),
{
    lemma_with_entry(l, name, e);
    lemma_profiles_round_trip(with_entry(l, name, e));
}

/// A profile that is deleted is not in the file that is written, which has the others
/// as they were.
pub proof fn lemma_deleted_is_gone(l: NamedEntries, name: Seq<char>)
    requires
        distinct_names(l),
        all_storable(entry_map(l)),
    ensures
        profiles_of(profiles_text(without_entry(l, name))) == entry_map(l).remove(name),
{
    lemma_without_entry(l, name);
    lemma_profiles_round_trip(without_entry(l, name));
}

/// Profiles that are read back as they were written are ones that the file keeps.
pub proof fn lemma_round_trip_is_storable(l: NamedEntries)
    requires
        profiles_of(profiles_text(l)) == entry_map(l),
    ensures
        all_storable(entry_map(l)),
{
    lemma_loaded_is_storable(profiles_text(l));
}

/// A list of distinct names maps each of its names to the connection beside it, and has
/// no other names.
pub proof fn lemma_entries_by_name(l: NamedEntries, name: Seq<char>)
    requires
        forall|i: int, j: int| 0 <= i < j < l.len() ==> #[trigger] l[i].0 != #[trigger] l[j].0,
    ensures
        forall|i: int|
            0 <= i < l.len() && (#[trigger] l[i]).0 == name ==> entry_map(l).contains_key(name)
                && entry_map(l)[name] == l[i].1,
        entry_map(l).contains_key(name) ==> exists|i: int|
            0 <= i < l.len() && (#[trigger] l[i]).0 == name,
{
    lemma_entry_map(l);
    lemma_name_at(l, name);
    if entry_map(l).contains_key(name) {
        let k = name_at(l, name);
        assert(l[k].0 == name);
    }
}

/// Saving under a name puts the connection in the place of the one that was there, or
/// at the end; the others stay in theirs.
pub proof fn lemma_with_entry_places(l: NamedEntries, name: Seq<char>, e: ProfileEntryView)
    requires
        distinct_names(l),
    ensures
        (forall|i: int| 0 <= i < l.len() ==> (#[trigger] l[i]).0 != name) ==> with_entry(l, name, e)
            == l.push((name, e)),
        forall|k: int|
            0 <= k < l.len() && (#[trigger] l[k]).0 == name ==> with_entry(l, name, e) == l.update(
                k,
                (name, e),
            ),
{
    lemma_name_at(l, name);
    let m = name_at(l, name);
    assert forall|k: int| 0 <= k < l.len() && (#[trigger] l[k]).0 == name implies with_entry(
        l,
        name,
        e,
    ) == l.update(k, (name, e)) by {
        if m < k {
            assert(l[m].0 != l[k].0);
        }
    }
}

/// Deleting a name takes out its connection and leaves the others in their order.
pub proof fn lemma_without_entry_places(l: NamedEntries, name: Seq<char>)
    requires
        distinct_names(l),
    ensures
        (forall|i: int| 0 <= i < l.len() ==> (#[trigger] l[i]).0 != name) ==> without_entry(l, name)
            == l,
        forall|k: int|
            0 <= k < l.len() && (#[trigger] l[k]).0 == name ==> without_entry(l, name) == l.remove(
                k,
            ),
{
    lemma_name_at(l, name);
    let m = name_at(l, name);
    assert forall|k: int| 0 <= k < l.len() && (#[trigger] l[k]).0 == name implies without_entry(
        l,
        name,
    ) == l.remove(k) by {
        if m < k {
            assert(l[m].0 != l[k].0);
        }
    }
}

proof fn lemma_line_block_push(front: Seq<Seq<char>>, line: Seq<char>)
    ensures
        line_block(front.push(line)) == line_block(front) + (line + seq!['\n']),
{
    assert(front.push(line).drop_last() == front);
    assert(line_block(front) + line + seq!['\n'] == line_block(front) + (line + seq!['\n']));
}

/// What the profiles file looks like: a header and three values for each profile, and
/// an empty line after them.
pub proof fn lemma_profiles_text(l: NamedEntries, name: Seq<char>, e: ProfileEntryView)
    ensures
        profiles_text(NamedEntries::empty()) == Seq::<char>::empty(),
        ({
            let header = "[profile."@ + name + "]"@ + seq!['\n'];
            let url = "url = \""@ + e.url + "\""@ + seq!['\n'];
            let username = "username = \""@ + e.username + "\""@ + seq!['\n'];
            let password = "password = \""@ + e.password + "\""@ + seq!['\n'];
            profiles_text(l.push((name, e))) == profiles_text(l) + header + url + username
                + password + seq!['\n']
        }),
{
    assert("url"@ + " = \""@ == "url = \""@) by {
        reveal_strlit("url");
        reveal_strlit(" = \"");
        reveal_strlit("url = \"");
    }
    assert("username"@ + " = \""@ == "username = \""@) by {
        reveal_strlit("username");
        reveal_strlit(" = \"");
        reveal_strlit("username = \"");
    }
    assert("password"@ + " = \""@ == "password = \""@) by {
        reveal_strlit("password");
        reveal_strlit(" = \"");
        reveal_strlit("password = \"");
    }
    assert(list_lines(NamedEntries::empty()) == Seq::<Seq<char>>::empty());
    assert(l.push((name, e)).drop_last() == l);
    let front = list_lines(l);
    let five = entry_lines(name, e);
    let f0 = front.push(five[0]);
    let f1 = f0.push(five[1]);
    let f2 = f1.push(five[2]);
    let f3 = f2.push(five[3]);
    let f4 = f3.push(five[4]);
    assert(front + five == f4);
    lemma_line_block_push(front, five[0]);
    lemma_line_block_push(f0, five[1]);
    lemma_line_block_push(f1, five[2]);
    lemma_line_block_push(f2, five[3]);
    lemma_line_block_push(f3, five[4]);
    assert(five[4] + seq!['\n'] == seq!['\n']);
}

/// Profiles of distinct names that hold no line feed, with values that hold none either
/// and no quote at either end, are read back from the text that is written: each under
/// its name, and no others.
pub proof fn lemma_profiles_are_kept(l: NamedEntries)
    requires
        forall|i: int, j: int| 0 <= i < j < l.len() ==> #[trigger] l[i].0 != #[trigger] l[j].0,
        forall|i: int|
            0 <= i < l.len() ==> !(#[trigger] l[i]).0.contains('\n') && !l[i].1.url.contains('\n')
                && !l[i].1.username.contains('\n') && !l[i].1.password.contains('\n'),
        forall|i: int|
            0 <= i < l.len() ==> ((#[trigger] l[i]).1.url.len() > 0 ==> l[i].1.url.first() != '"'
                && l[i].1.url.last() != '"') && (l[i].1.username.len() > 0
                ==> l[i].1.username.first() != '"' && l[i].1.username.last() != '"') && (
            l[i].1.password.len() > 0 ==> l[i].1.password.first() != '"'
                && l[i].1.password.last() != '"'),
    ensures
        forall|i: int|
            0 <= i < l.len() ==> profiles_of(profiles_text(l)).contains_key((#[trigger] l[i]).0)
                && profiles_of(profiles_text(l))[l[i].0] == l[i].1,
        forall|name: Seq<char>| #[trigger]
            profiles_of(profiles_text(l)).contains_key(name) ==> exists|i: int|
                0 <= i < l.len() && (#[trigger] l[i]).0 == name,
{
    lemma_entry_map(l);
    assert forall|name: Seq<char>| #[trigger] entry_map(l).contains_key(name) implies exists|i: int|
        0 <= i < l.len() && (#[trigger] l[i]).0 == name by {
        lemma_entries_by_name(l, name);
    }
    assert(all_storable(entry_map(l))) by {
        assert forall|name: Seq<char>| #[trigger]
            entry_map(l).contains_key(name) implies is_storable_entry(
            name,
            entry_map(l)[name],
        ) by {
            let i = choose|i: int| 0 <= i < l.len() && (#[trigger] l[i]).0 == name;
            assert(entry_map(l)[l[i].0] == l[i].1);
        }
    }
    lemma_profiles_round_trip(l);
}

proof fn lemma_scan_content(content: Seq<char>, line: Seq<char>)
    requires
        content.len() == 0 || content.last() == '\n',
        !line.contains('\n'),
        line.len() > 0 ==> line.last() != '\r',
    ensures
        lines_of(content + line + seq!['\n']) == lines_of(content) + seq![line],
        scan_lines(scan_start(), lines_of(content + line + seq!['\n'])) == scan_line(
            scan_lines(scan_start(), lines_of(content)),
            line,
        ),
{
    lemma_lines_of_cons(line, Seq::empty());
    let tail = line + seq!['\n'];
    assert(line + seq!['\n'] + Seq::<char>::empty() == tail);
    assert(lines_of(Seq::<char>::empty()) == Seq::<Seq<char>>::empty());
    assert(lines_of(tail) == seq![line]);
    assert(content + line + seq!['\n'] == content + tail);
    if content.len() == 0 {
        assert(content + tail == tail);
        assert(lines_of(content) + seq![line] == seq![line]);
    } else {
        lemma_lines_of_append(content, tail);
    }
    let all = lines_of(content) + seq![line];
    assert(all.drop_last() == lines_of(content));
}

/// A header begins a profile of its name, or goes on with the one that is there, and
/// leaves the others as they are.
pub proof fn lemma_header_is_read(content: Seq<char>, name: Seq<char>)
    requires
        content.len() == 0 || content.last() == '\n',
        !name.contains('\n'),
    ensures
        profiles_of(content + ("[profile."@ + name + "]"@) + seq!['\n']) == profiles_of(
            content,
        ).insert(
            name,
            if profiles_of(content).contains_key(name) {
                profiles_of(content)[name]
            } else {
                ProfileEntryView {
                    url: Seq::empty(),
                    username: Seq::empty(),
                    password: Seq::empty(),
                }
            },
        ),
{
    reveal_strlit("[profile.");
    reveal_strlit("]");
    let line = header_line(name);
    assert forall|i: int| 0 <= i < line.len() implies line[i] != '\n' by {
        if 9 <= i < line.len() - 1 {
            assert(line[i] == name[i - 9]);
            assert(name.contains(name[i - 9]));
        }
    }
    lemma_scan_content(content, line);
    lemma_scan_header(scan_lines(scan_start(), lines_of(content)), name);
}

/// A line that is no header: it does not start with a bracket after white space.
pub open spec fn is_other_line(line: Seq<char>) -> bool {
    &&& !line.contains('\n') && (line.len() > 0 ==> line.last() != '\r')
    &&& trimmed(line).len() > 0 ==> trimmed(line).first() != '['
}

/// Lines that are no header.
pub open spec fn has_no_header(lines: Seq<Seq<char>>) -> bool {
    forall|i: int| 0 <= i < lines.len() ==> is_other_line(#[trigger] lines[i])
}

proof fn lemma_no_header(line: Seq<char>)
    requires
        is_other_line(line),
    ensures
        header_name(trimmed(line)) is None,
{
    reveal_strlit("[profile.");
    let t = trimmed(line);
    if "[profile."@.is_prefix_of(t) {
        assert("[profile."@[0] == t[0]);
    }
}

proof fn lemma_scan_keeps_current(st: ProfileScan, lines: Seq<Seq<char>>)
    requires
        has_no_header(lines),
    ensures
        scan_lines(st, lines).current == st.current,
        st.current is None ==> scan_lines(st, lines) == st,
    decreases lines.len(),
{
    if lines.len() > 0 {
        let front = lines.drop_last();
        assert forall|i: int| 0 <= i < front.len() implies is_other_line(#[trigger] front[i]) by {
            assert(front[i] == lines[i]);
        }
        lemma_scan_keeps_current(st, front);
        assert(is_other_line(lines[lines.len() - 1]));
        lemma_no_header(lines.last());
    }
}

proof fn lemma_scan_after_header(content: Seq<char>, name: Seq<char>, lines: Seq<Seq<char>>)
    requires
        content.len() == 0 || content.last() == '\n',
        !name.contains('\n'),
        has_no_header(lines),
    ensures
        ({
            let text = content + ("[profile."@ + name + "]"@) + seq!['\n'] + line_block(lines);
            &&& text.len() > 0 && text.last() == '\n'
            &&& scan_lines(scan_start(), lines_of(text)).current == Some(name)
            &&& profiles_of(text).contains_key(name)
        }),
    decreases lines.len(),
{
    reveal_strlit("[profile.");
    reveal_strlit("]");
    let head = content + ("[profile."@ + name + "]"@) + seq!['\n'];
    let text = head + line_block(lines);
    let line = header_line(name);
    assert forall|i: int| 0 <= i < line.len() implies line[i] != '\n' by {
        if 9 <= i < line.len() - 1 {
            assert(line[i] == name[i - 9]);
            assert(name.contains(name[i - 9]));
        }
    }
    lemma_scan_content(content, line);
    lemma_scan_header(scan_lines(scan_start(), lines_of(content)), name);
    if lines.len() == 0 {
        assert(text == head);
    } else {
        let front = lines.drop_last();
        assert forall|i: int| 0 <= i < front.len() implies is_other_line(#[trigger] front[i]) by {
            assert(front[i] == lines[i]);
        }
        lemma_scan_after_header(content, name, front);
        let before = head + line_block(front);
        let last = lines[lines.len() - 1];
        assert(is_other_line(last));
        assert(text == before + last + seq!['\n']);
        lemma_scan_content(before, last);
        lemma_no_header(last);
    }
}

/// Under a header, a line `key = value` sets the value of the profile of that header:
/// its URL, its user name or its password, and nothing else of any profile. White space
/// around the key and the value, and quotes around the value, do not belong to them.
/// Another key sets nothing.
pub proof fn lemma_value_is_read(
    content: Seq<char>,
    name: Seq<char>,
    lines: Seq<Seq<char>>,
    key: Seq<char>,
    quotes: (Seq<char>, Seq<char>),
    value: Seq<char>,
    spaces: (Seq<char>, Seq<char>, Seq<char>, Seq<char>),
)
    requires
        content.len() == 0 || content.last() == '\n',
        !name.contains('\n'),
        has_no_header(lines),
        !key.contains('='),
        key.len() > 0 && !is_white_space(key.first()) && !is_white_space(key.last()),
        all_are(quotes.0, '"') && all_are(quotes.1, '"'),
        value.len() > 0 ==> value.first() != '"' && value.last() != '"',
        (quotes.0 + value + quotes.1).len() > 0 ==> !is_white_space(
            (quotes.0 + value + quotes.1).first(),
        ) && !is_white_space((quotes.0 + value + quotes.1).last()),
        all_white_space(spaces.0) && all_white_space(spaces.1),
        all_white_space(spaces.2) && all_white_space(spaces.3),
        is_other_line(
            spaces.0 + key + spaces.1 + seq!['='] + (spaces.2 + (quotes.0 + value + quotes.1)
                + spaces.3),
        ),
    ensures
        ({
            let text = content + ("[profile."@ + name + "]"@) + seq!['\n'] + line_block(lines);
            let line = spaces.0 + key + spaces.1 + seq!['='] + (spaces.2 + (quotes.0 + value
                + quotes.1) + spaces.3);
            let old = profiles_of(text);
            let new = profiles_of(text + line + seq!['\n']);
            let e = old[name];
            &&& old.contains_key(name)
            &&& key == "url"@ ==> new == old.insert(name, ProfileEntryView { url: value, ..e })
            &&& key == "username"@ ==> new == old.insert(
                name,
                ProfileEntryView { username: value, ..e },
            )
            &&& key == "password"@ ==> new == old.insert(
                name,
                ProfileEntryView { password: value, ..e },
            )
            &&& key != "url"@ && key != "username"@ && key != "password"@ ==> new == old
        }),
{
    reveal_strlit("url");
    reveal_strlit("username");
    reveal_strlit("password");
    assert("url"@.len() == 3 && "username"@[0] == 'u' && "password"@[0] == 'p');
    let text = content + ("[profile."@ + name + "]"@) + seq!['\n'] + line_block(lines);
    let left = spaces.0 + key + spaces.1;
    let quoted = quotes.0 + value + quotes.1;
    let right = spaces.2 + quoted + spaces.3;
    let line = left + seq!['='] + right;
    lemma_scan_after_header(content, name, lines);
    lemma_scan_content(text, line);
    lemma_no_header(line);
    let st = scan_lines(scan_start(), lines_of(text));
    let kb = key.len() as int;
    assert forall|i: int| 0 <= i < left.len() implies left[i] != '=' by {
        let a = spaces.0.len() as int;
        if i < a {
            assert(left[i] == spaces.0[i]);
        } else if i < a + kb {
            assert(left[i] == key[i - a]);
            assert(key.contains(key[i - a]));
        } else {
            assert(left[i] == spaces.1[i - a - kb]);
        }
    }
    lemma_trimmed_line(spaces.0, key, spaces.1, right);
    let (l2, r2) = (key + spaces.1, trimmed_end(right));
    assert(!l2.contains('=')) by {
        assert forall|i: int| 0 <= i < l2.len() implies l2[i] != '=' by {
            assert(l2[i] == left[i + spaces.0.len()]);
        }
    }
    lemma_split_once(l2, r2, '=');
    assert(trimmed(line) == l2 + seq!['='] + r2);
    lemma_trimmed_parts(Seq::empty(), key, spaces.1);
    assert(Seq::<char>::empty() + key + spaces.1 == l2);
    lemma_trimmed_right(spaces.2, quoted, spaces.3);
    lemma_trimmed_of_parts(quotes.0, value, quotes.1, '"');
    let m = st.profiles;
    let e = m[name];
    assert(entry_or_empty(m, name) == e);
    assert(m.insert(name, e) =~= m);
}

proof fn lemma_trimmed_line(
    before: Seq<char>,
    key: Seq<char>,
    after: Seq<char>,
    right: Seq<char>,
)
    requires
        all_white_space(before),
        key.len() > 0 && !is_white_space(key.first()),
    ensures
        trimmed(before + key + after + seq!['='] + right) == key + after + seq!['=']
            + trimmed_end(right),
{
    let head = key + after + seq!['='];
    let core = head + right;
    assert(before + key + after + seq!['='] + right == before + core);
    lemma_trimmed_start_skips(before, core);
    assert(core.first() == key.first());
    assert(trimmed_start(core) == core);
    if trimmed_end(right).len() > 0 {
        lemma_trimmed_end_append(head, right);
    } else {
        lemma_trimmed_end_blank(right);
        lemma_trimmed_end_skips(head, right);
        assert(head.last() == '=');
        assert(trimmed_end(head) == head);
        assert(head + trimmed_end(right) == head);
    }
}

proof fn lemma_trimmed_end_blank(s: Seq<char>)
    requires
        trimmed_end(s).len() == 0,
    ensures
        all_white_space(s),
    decreases s.len(),
{
    if s.len() > 0 {
        lemma_trimmed_end_blank(s.drop_last());
        assert forall|i: int| 0 <= i < s.len() implies is_white_space(#[trigger] s[i]) by {
            if i < s.len() - 1 {
                assert(s.drop_last()[i] == s[i]);
            }
        }
    }
}

proof fn lemma_trimmed_right(before: Seq<char>, t: Seq<char>, after: Seq<char>)
    requires
        all_white_space(before) && all_white_space(after),
        t.len() > 0 ==> !is_white_space(t.first()) && !is_white_space(t.last()),
    ensures
        trimmed(trimmed_end(before + t + after)) == t,
{
    lemma_trimmed_end_skips(before + t, after);
    if t.len() > 0 {
        assert((before + t).last() == t.last());
        assert(trimmed_end(before + t) == before + t);
        lemma_trimmed_parts(before, t, Seq::empty());
        assert(before + t + Seq::<char>::empty() == before + t);
    } else {
        assert(before + t == Seq::<char>::empty() + before);
        lemma_trimmed_end_skips(Seq::empty(), before);
        assert(trimmed_end(Seq::<char>::empty()) == Seq::<char>::empty());
        lemma_trimmed_parts(Seq::empty(), Seq::empty(), Seq::empty());
        assert(Seq::<char>::empty() + Seq::<char>::empty() + Seq::<char>::empty() == Seq::<
            char,
        >::empty());
    }
}

/// Before any header nothing is set, and a line without an equals sign says nothing.
pub proof fn lemma_other_lines(content: Seq<char>, lines: Seq<Seq<char>>, line: Seq<char>)
    requires
        content.len() == 0 || content.last() == '\n',
        has_no_header(lines),
        is_other_line(line),
        !line.contains('='),
    ensures
        profiles_of(line_block(lines)) == Map::<Seq<char>, ProfileEntryView>::empty(),
        profiles_of(content + line + seq!['\n']) == profiles_of(content),
{
    assert forall|i: int| 0 <= i < lines.len() implies is_line(#[trigger] lines[i]) by {
        assert(is_other_line(lines[i]));
    }
    lemma_lines_of_block(lines);
    lemma_scan_keeps_current(scan_start(), lines);
    lemma_scan_content(content, line);
    lemma_no_header(line);
    lemma_trimmed_keeps(line, '=');
    lemma_split_once(trimmed(line), Seq::empty(), '=');
}

} // verus!
