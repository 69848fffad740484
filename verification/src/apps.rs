//! Deployed applications.

use vstd::prelude::*;
use vstd::string::*;

use crate::json::{
    field_views, json_object, object_text, JsonObjectView, JsonValue, JsonValueView,
};
use crate::output::{
    block_of_lines, end_line, is_line, json_array, json_array_text, lemma_lines_of_block,
    line_block, string_views, OutputFmt,
};
use crate::style::{colorize_status, is_painted, status_code};
use crate::table::{cell_views, render_table, table_text};
use crate::text::{
    blank, chars_of, is_blank, lemma_lines_of_append, lemma_split_n_first, lemma_trimmed_has,
    lines_of, rest_lines, rest_lines_of, same_text, slice_views, split_n, split_n_at, text_of,
};

verus! {

/// A deployed application.
#[derive(Debug)]
pub struct AppEntry {
    /// Context path.
    pub path: String,
    pub status: String,
    /// Number of active sessions.
    pub sessions: String,
    pub description: String,
}

/// The contents of an `AppEntry`.
pub struct AppEntryView {
    pub path: Seq<char>,
    pub status: Seq<char>,
    pub sessions: Seq<char>,
    pub description: Seq<char>,
}

impl View for AppEntry {
    type V = AppEntryView;

    open spec fn view(&self) -> AppEntryView {
        AppEntryView {
            path: self.path@,
            status: self.status@,
            sessions: self.sessions@,
            description: self.description@,
        }
    }
}

impl Clone for AppEntry {
    fn clone(&self) -> (r: Self)
        ensures
            r@ == self@,
    {
        AppEntry {
            path: self.path.clone(),
            status: self.status.clone(),
            sessions: self.sessions.clone(),
            description: self.description.clone(),
        }
    }
}

/// The contents of a list of applications.
pub open spec fn app_views(v: Seq<AppEntry>) -> Seq<AppEntryView> {
    v.map_values(|a: AppEntry| a@)
}

/// A part of a line, or `default` where the line has fewer parts.
pub open spec fn part_or(parts: Seq<Seq<char>>, i: int, default: Seq<char>) -> Seq<char> {
    if i < parts.len() {
        parts[i]
    } else {
        default
    }
}

/// The application that a line tells of: path, status, number of sessions and
/// description, with colons between them. The description may hold more colons;
/// missing parts are empty, but for the number of sessions, which is then 0.
pub open spec fn line_app(line: Seq<char>) -> AppEntryView {
    let parts = split_n_at(line, ':', 4);
    AppEntryView {
        path: part_or(parts, 0, ""@),
        status: part_or(parts, 1, ""@),
        sessions: part_or(parts, 2, "0"@),
        description: part_or(parts, 3, ""@),
    }
}

/// The applications that some lines tell of; blank lines tell of none.
pub open spec fn line_apps(lines: Seq<Seq<char>>) -> Seq<AppEntryView>
    decreases lines.len(),
{
    if lines.len() == 0 {
        Seq::empty()
    } else if is_blank(lines.last()) {
        line_apps(lines.drop_last())
    } else {
        line_apps(lines.drop_last()).push(line_app(lines.last()))
    }
}

/// The applications of a response: those of the lines after the first.
pub open spec fn listed_apps(body: Seq<char>) -> Seq<AppEntryView> {
    line_apps(rest_lines_of(body))
}

fn read_part(parts: &Vec<&[char]>, i: usize, default: &str) -> (r: String)
    ensures
        r@ == part_or(slice_views(parts@), i as int, default@),
{
    if i < parts.len() {
        assert(slice_views(parts@)[i as int] == parts@[i as int]@);
        text_of(parts[i])
    } else {
        default.to_owned()
    }
}

/// Reads the applications of the `/list` response.
pub fn parse_app_list(body: &str) -> (r: Vec<AppEntry>)
    ensures
        app_views(r@) == listed_apps(body@),
{
    let cs = chars_of(body);
    let ls = rest_lines(cs.as_slice());
    let mut apps: Vec<AppEntry> = Vec::new();
    let ghost views = slice_views(ls@);
    assert(app_views(apps@) == line_apps(views.take(0)));
    let mut i: usize = 0;
    while i < ls.len()
        invariant
            i <= ls@.len(),
            views == slice_views(ls@),
            app_views(apps@) == line_apps(views.take(i as int)),
        decreases ls.len() - i,
    {
        assert(views.take(i + 1).drop_last() == views.take(i as int));
        let ghost before = app_views(apps@);
        if !blank(ls[i]) {
            let parts = split_n(ls[i], ':', 4);
            let app = AppEntry {
                path: read_part(&parts, 0, ""),
                status: read_part(&parts, 1, ""),
                sessions: read_part(&parts, 2, "0"),
                description: read_part(&parts, 3, ""),
            };
            apps.push(app);
            assert(app_views(apps@) == before.push(line_app(views[i as int])));
        }
        i = i + 1;
    }
    assert(views.take(views.len() as int) == views);
    apps
}

/// An application as a line of plain output.
pub open spec fn app_plain(a: AppEntryView) -> Seq<char> {
    a.path + " "@ + a.status + " "@ + a.sessions + " "@ + a.description
}

/// An application as tab-separated values: path, status, sessions, description.
pub open spec fn app_tsv(a: AppEntryView) -> Seq<char> {
    a.path + "\t"@ + a.status + "\t"@ + a.sessions + "\t"@ + a.description
}

/// The record of an application.
pub open spec fn app_object(a: AppEntryView) -> JsonObjectView {
    seq![
        ("path"@, JsonValueView::Text(a.path)),
        ("status"@, JsonValueView::Text(a.status)),
        ("sessions"@, JsonValueView::Text(a.sessions)),
        ("description"@, JsonValueView::Text(a.description)),
    ]
}

/// An application as a JSON object.
pub open spec fn app_json(a: AppEntryView) -> Seq<char> {
    object_text(app_object(a))
}

/// An application as it is listed in a machine-readable format.
pub open spec fn app_line(a: AppEntryView, fmt: OutputFmt) -> Seq<char> {
    match fmt {
        OutputFmt::Plain => app_plain(a),
        OutputFmt::Tsv => app_tsv(a),
        _ => app_json(a),
    }
}

/// Applications as they are listed in a machine-readable format.
pub open spec fn app_lines(v: Seq<AppEntryView>, fmt: OutputFmt) -> Seq<Seq<char>> {
    v.map_values(|a: AppEntryView| app_line(a, fmt))
}

/// The row of an application in the table, its status shown as given.
pub open spec fn app_row(a: AppEntryView, shown: Seq<char>) -> Seq<Seq<char>> {
    seq![a.path, shown, a.sessions, a.description]
}

/// The cells of the table of applications, with its header.
pub open spec fn app_cells(v: Seq<AppEntryView>, shown: Seq<Seq<char>>) -> Seq<Seq<Seq<char>>> {
    seq![seq!["Path"@, "Status"@, "Sessions"@, "Description"@]] + Seq::new(
        v.len(),
        |i: int| app_row(v[i], shown[i]),
    )
}

/// `shown` holds the status of each application, in its colour where colours are on.
pub open spec fn is_shown_status(v: Seq<AppEntryView>, shown: Seq<Seq<char>>) -> bool {
    &&& shown.len() == v.len()
    &&& forall|i: int|
        0 <= i < v.len() ==> is_painted(
            #[trigger] shown[i],
            v[i].status,
            status_code(v[i].status),
        )
}

/// `r` lists applications in a given format.
pub open spec fn is_apps_text(r: Seq<char>, v: Seq<AppEntryView>, fmt: OutputFmt) -> bool {
    match fmt {
        OutputFmt::Table => exists|shown: Seq<Seq<char>>| #[trigger]
            is_shown_status(v, shown) && r == table_text(app_cells(v, shown)).push('\n'),
        OutputFmt::Json => r == json_array_text(app_lines(v, fmt)),
        _ => r == line_block(app_lines(v, fmt)),
    }
}

fn write_plain(a: &AppEntry) -> (r: String)
    ensures
        r@ == app_plain(a@),
{
    let mut out = a.path.clone();
    out.append(" ");
    out.append(a.status.as_str());
    out.append(" ");
    out.append(a.sessions.as_str());
    out.append(" ");
    out.append(a.description.as_str());
    out
}

fn write_tsv(a: &AppEntry) -> (r: String)
    ensures
        r@ == app_tsv(a@),
{
    let mut out = a.path.clone();
    out.append("\t");
    out.append(a.status.as_str());
    out.append("\t");
    out.append(a.sessions.as_str());
    out.append("\t");
    out.append(a.description.as_str());
    out
}

fn write_json(a: &AppEntry) -> (r: String)
    ensures
        r@ == app_json(a@),
{
    let mut fields: Vec<(String, JsonValue)> = Vec::new();
    fields.push(("path".to_owned(), JsonValue::Text(a.path.clone())));
    fields.push(("status".to_owned(), JsonValue::Text(a.status.clone())));
    fields.push(("sessions".to_owned(), JsonValue::Text(a.sessions.clone())));
    fields.push(("description".to_owned(), JsonValue::Text(a.description.clone())));
    assert(field_views(fields@) == app_object(a@));
    json_object(&fields)
}

fn write_lines(apps: &[AppEntry], fmt: &OutputFmt) -> (r: Vec<String>)
    ensures
        string_views(r@) == app_lines(app_views(apps@), *fmt),
{
    let mut lines: Vec<String> = Vec::new();
    let ghost views = app_views(apps@);
    assert(string_views(lines@) == app_lines(views.take(0), *fmt));
    let mut i: usize = 0;
    while i < apps.len()
        invariant
            i <= apps@.len(),
            views == app_views(apps@),
            string_views(lines@) == app_lines(views.take(i as int), *fmt),
        decreases apps.len() - i,
    {
        let ghost before = string_views(lines@);
        let line = match fmt {
            OutputFmt::Plain => write_plain(&apps[i]),
            OutputFmt::Tsv => write_tsv(&apps[i]),
            _ => write_json(&apps[i]),
        };
        lines.push(line);
        assert(string_views(lines@) == before.push(app_line(views[i as int], *fmt)));
        assert(app_lines(views.take(i + 1), *fmt) == app_lines(views.take(i as int), *fmt).push(
            app_line(views[i as int], *fmt),
        ));
        i = i + 1;
    }
    assert(views.take(views.len() as int) == views);
    lines
}

fn show_status(apps: &[AppEntry]) -> (r: Vec<String>)
    ensures
        is_shown_status(app_views(apps@), string_views(r@)),
{
    let mut shown: Vec<String> = Vec::new();
    let mut i: usize = 0;
    while i < apps.len()
        invariant
            i <= apps@.len(),
            shown@.len() == i,
            forall|j: int|
                0 <= j < i ==> is_painted(
                    (#[trigger] shown@[j])@,
                    apps@[j].status@,
                    status_code(apps@[j].status@),
                ),
        decreases apps.len() - i,
    {
        shown.push(colorize_status(apps[i].status.as_str()));
        i = i + 1;
    }
    assert forall|j: int| 0 <= j < app_views(apps@).len() implies is_painted(
        #[trigger] string_views(shown@)[j],
        app_views(apps@)[j].status,
        status_code(app_views(apps@)[j].status),
    ) by {
        assert(string_views(shown@)[j] == shown@[j]@);
    }
    shown
}

/// The cells of the table of applications, with its header; the status of each
/// application is shown as given.
pub fn app_rows(apps: &[AppEntry], shown: &Vec<String>) -> (r: Vec<Vec<String>>)
    requires
        shown@.len() == apps@.len(),
    ensures
        cell_views(r@) == app_cells(app_views(apps@), string_views(shown@)),
{
    let mut rows: Vec<Vec<String>> = Vec::new();
    let mut header: Vec<String> = Vec::new();
    header.push("Path".to_owned());
    header.push("Status".to_owned());
    header.push("Sessions".to_owned());
    header.push("Description".to_owned());
    assert(string_views(header@) == seq!["Path"@, "Status"@, "Sessions"@, "Description"@]);
    rows.push(header);
    let ghost views = app_views(apps@);
    let ghost texts = string_views(shown@);
    assert(cell_views(rows@) == app_cells(views.take(0), texts));
    let mut i: usize = 0;
    while i < apps.len()
        invariant
            i <= apps@.len(),
            shown@.len() == apps@.len(),
            views == app_views(apps@),
            texts == string_views(shown@),
            cell_views(rows@) == app_cells(views.take(i as int), texts),
        decreases apps.len() - i,
    {
        let ghost before = cell_views(rows@);
        let mut row: Vec<String> = Vec::new();
        row.push(apps[i].path.clone());
        row.push(shown[i].clone());
        row.push(apps[i].sessions.clone());
        row.push(apps[i].description.clone());
        assert(string_views(row@) == app_row(views[i as int], texts[i as int]));
        rows.push(row);
        assert(cell_views(rows@) == before.push(string_views(row@)));
        assert(app_cells(views.take(i + 1), texts) == app_cells(views.take(i as int), texts).push(
            app_row(views[i as int], texts[i as int]),
        ));
        i = i + 1;
    }
    assert(views.take(views.len() as int) == views);
    rows
}

/// The text that lists applications in the given format.
pub fn print_app_list(apps: &[AppEntry], fmt: &OutputFmt) -> (r: String)
    ensures
        is_apps_text(r@, app_views(apps@), *fmt),
{
    match fmt {
        OutputFmt::Table => {
            let shown = show_status(apps);
            let r = end_line(render_table(app_rows(apps, &shown)));
            assert(is_shown_status(app_views(apps@), string_views(shown@)));
            r
        },
        OutputFmt::Json => json_array(&write_lines(apps, fmt)),
        _ => block_of_lines(&write_lines(apps, fmt)),
    }
}

/// The status of the first application at `path`.
pub open spec fn status_at(v: Seq<AppEntryView>, path: Seq<char>) -> Option<Seq<char>>
    decreases v.len(),
{
    if v.len() == 0 {
        None
    } else if v[0].path == path {
        Some(v[0].status)
    } else {
        status_at(v.drop_first(), path)
    }
}

/// Finds the status of the application at `path`.
pub fn app_status(apps: &[AppEntry], path: &str) -> (r: Option<String>)
    ensures
        match r {
            Some(s) => status_at(app_views(apps@), path@) == Some(s@),
            None => status_at(app_views(apps@), path@) is None,
        },
        match r {
            Some(s) => exists|k: int|
                0 <= k < apps@.len() && (#[trigger] apps@[k]).path@ == path@ && apps@[k].status@
                    == s@ && (forall|j: int|
                    0 <= j < k ==> (#[trigger] apps@[j]).path@ != path@),
            None => forall|k: int| 0 <= k < apps@.len() ==> (#[trigger] apps@[k]).path@ != path@,
        },
{
    let ghost views = app_views(apps@);
    assert(views.skip(0) == views);
    let mut i: usize = 0;
    while i < apps.len()
        invariant
            i <= apps@.len(),
            views == app_views(apps@),
            status_at(views, path@) == status_at(views.skip(i as int), path@),
            forall|j: int| 0 <= j < i ==> (#[trigger] apps@[j]).path@ != path@,
        decreases apps.len() - i,
    {
        assert(views[i as int] == apps@[i as int]@);
        if same_text(apps[i].path.as_str(), path) {
            return Some(apps[i].status.clone());
        }
        assert(views.skip(i as int).drop_first() == views.skip(i + 1));
        i = i + 1;
    }
    None
}

/// An application whose parts can be told apart in a line: none but the description
/// holds a colon.
pub open spec fn is_listable(a: AppEntryView) -> bool {
    &&& !a.path.contains(':')
    &&& !a.status.contains(':')
    &&& !a.sessions.contains(':')
}

/// The line of the response that tells of an application.
pub open spec fn response_line(a: AppEntryView) -> Seq<char> {
    a.path + seq![':'] + a.status + seq![':'] + a.sessions + seq![':'] + a.description
}

/// The line that tells of an application is read as that application.
pub proof fn lemma_line_app(a: AppEntryView)
    requires
        is_listable(a),
    ensures
        line_app(response_line(a)) == a,
{
    let c = a.sessions + seq![':'] + a.description;
    let b = a.status + seq![':'] + c;
    assert(response_line(a) == a.path + seq![':'] + b);
    lemma_split_n_first(a.path, b, ':', 4);
    lemma_split_n_first(a.status, c, ':', 3);
    lemma_split_n_first(a.sessions, a.description, ':', 2);
    assert(split_n_at(a.description, ':', 1) == seq![a.description]);
    let parts = split_n_at(response_line(a), ':', 4);
    assert(parts == seq![a.path, a.status, a.sessions, a.description]);
}

proof fn lemma_line_apps(v: Seq<AppEntryView>)
    requires
        forall|i: int| 0 <= i < v.len() ==> is_listable(#[trigger] v[i]),
    ensures
        line_apps(v.map_values(|a: AppEntryView| response_line(a))) == v,
    decreases v.len(),
{
    let lines = v.map_values(|a: AppEntryView| response_line(a));
    if v.len() > 0 {
        let front = v.drop_last();
        assert forall|i: int| 0 <= i < front.len() implies is_listable(#[trigger] front[i]) by {
            assert(front[i] == v[i]);
        }
        lemma_line_apps(front);
        assert(lines.drop_last() == front.map_values(|a: AppEntryView| response_line(a)));
        let a = v[v.len() - 1];
        assert(is_listable(a));
        lemma_line_app(a);
        let line = response_line(a);
        assert(line[a.path.len() as int] == ':');
        lemma_trimmed_has(line, a.path.len() as int);
        assert(front.push(a) == v);
    }
}

/// A response that lists applications, one to a line, is read as those applications.
pub proof fn lemma_app_list_round_trip(status: Seq<char>, v: Seq<AppEntryView>)
    requires
        is_line(status),
        forall|i: int|
            0 <= i < v.len() ==> is_listable(#[trigger] v[i]) && is_line(response_line(v[i])),
    ensures
        listed_apps(
            line_block(seq![status] + v.map_values(|a: AppEntryView| response_line(a))),
        ) == v,
{
    let lines = v.map_values(|a: AppEntryView| response_line(a));
    let all = seq![status] + lines;
    assert forall|i: int| 0 <= i < all.len() implies is_line(#[trigger] all[i]) by {
        if i > 0 {
            assert(all[i] == response_line(v[i - 1]));
        }
    }
    lemma_lines_of_block(all);
    assert(all.drop_first() == lines);
    lemma_line_apps(v);
}

proof fn lemma_line_apps_append(a: Seq<Seq<char>>, b: Seq<Seq<char>>)
    ensures
        line_apps(a + b) == line_apps(a) + line_apps(b),
    decreases b.len(),
{
    if b.len() == 0 {
        assert(a + b == a);
    } else {
        assert((a + b).drop_last() == a + b.drop_last());
        lemma_line_apps_append(a, b.drop_last());
    }
    assert(line_apps(a + b) == line_apps(a) + line_apps(b));
}

/// Applications are read line by line: lines that follow a response add theirs.
pub proof fn lemma_apps_line_by_line(body: Seq<char>, more: Seq<char>)
    requires
        body.len() > 0,
        body.last() == '\n',
    ensures
        listed_apps(body + more) == listed_apps(body) + line_apps(lines_of(more)),
{
    lemma_lines_of_append(body, more);
    lemma_line_apps_append(rest_lines_of(body), lines_of(more));
}

/// The contents of a list of applications are those of each one, in its place.
pub proof fn lemma_app_views(v: Seq<AppEntry>, i: int)
    requires
        0 <= i < v.len(),
    ensures
        app_views(v).len() == v.len(),
        app_views(v)[i] == (AppEntryView {
            path: v[i].path@,
            status: v[i].status@,
            sessions: v[i].sessions@,
            description: v[i].description@,
        }),
{
}

} // verus!
