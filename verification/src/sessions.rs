//! The session histogram of an application.

use vstd::prelude::*;
use vstd::slice::slice_subrange;
use vstd::string::*;

use crate::json::{
    field_views, json_object, object_text, JsonObjectView, JsonValue, JsonValueView,
};
use crate::number::{
    decimal_text, is_digit, lemma_decimal_text, lemma_u64_number_range, lemma_u64_round_trip,
    parse_u64, u64_number, u64_text,
};
use crate::output::{
    block_of_lines, end_line, json_array, json_array_text, line_block, string_views, OutputFmt,
};
use crate::table::{cell_views, render_table, table_text};
use crate::text::{
    after_prefix, all_are, before_suffix, chars_of, find, first_match, is_white_space, last_match,
    lemma_affixes, lemma_first_match_is, lemma_last_match_is, lemma_lines_of_append,
    lemma_no_first_match, lemma_no_match, lemma_split_n_first, lemma_trimmed_end_of_parts,
    lemma_trimmed_is, lines_of, occurs_at, rest_lines, rest_lines_of, rfind, slice_views,
    split_n_at, strip_prefix, strip_suffix, trim, trim_end_of, trimmed, trimmed_end_of,
};

verus! {

/// One row of the session histogram.
#[derive(Debug)]
pub struct SessionBucket {
    /// Lower bound of the idle time in minutes, or its exact value.
    pub idle_min: u64,
    /// Number of sessions in the row.
    pub count: u64,
    /// Context path of the application that the row belongs to.
    pub path: String,
}

/// The contents of a `SessionBucket`.
pub struct SessionBucketView {
    pub idle_min: u64,
    pub count: u64,
    pub path: Seq<char>,
}

impl View for SessionBucket {
    type V = SessionBucketView;

    open spec fn view(&self) -> SessionBucketView {
        SessionBucketView { idle_min: self.idle_min, count: self.count, path: self.path@ }
    }
}

impl Clone for SessionBucket {
    fn clone(&self) -> (r: Self)
        ensures
            r@ == self@,
    {
        SessionBucket { idle_min: self.idle_min, count: self.count, path: self.path.clone() }
    }
}

/// The contents of a list of rows.
pub open spec fn bucket_views(v: Seq<SessionBucket>) -> Seq<SessionBucketView> {
    v.map_values(|b: SessionBucket| b@)
}

/// The number that `s` stands for, or 0 where it stands for none.
pub open spec fn u64_or_zero(s: Seq<char>) -> u64 {
    match u64_number(s) {
        Some(n) => n as u64,
        None => 0,
    }
}

/// The lower bound of a range of idle times, in minutes. A range may be announced by
/// `Session idle times histogram:`. It is `<N`, which starts at 0, or `N - M`, or `N+`,
/// or `N`, and may name its unit. What cannot be read counts as 0.
pub open spec fn idle_bound(range: Seq<char>) -> u64 {
    let range = match after_prefix(range, "Session idle times histogram: "@) {
        Some(rest) => trimmed(rest),
        None => range,
    };
    if range.len() > 0 && range.first() == '<' {
        0
    } else {
        match first_match(range, " - "@) {
            Some(dash) => u64_or_zero(trimmed(range.take(dash))),
            None => {
                let value = match before_suffix(range, " minutes"@) {
                    Some(number) => number,
                    None => range,
                };
                u64_or_zero(trimmed(trimmed_end_of(value, '+')))
            },
        }
    }
}

/// What stands before the word `sessions` or `session` that ends a line.
pub open spec fn before_word(line: Seq<char>) -> Option<Seq<char>> {
    match before_suffix(line, " sessions"@) {
        Some(before) => Some(before),
        None => before_suffix(line, " session"@),
    }
}

/// The row that a line of the response holds. Such a line ends in `: N sessions`
/// or `: N session` with a count above 0; other lines hold none.
pub open spec fn line_bucket(line: Seq<char>, path: Seq<char>) -> Option<SessionBucketView> {
    match before_word(trimmed(line)) {
        None => None,
        Some(before) => match last_match(before, ": "@) {
            None => None,
            Some(colon) => match u64_number(trimmed(before.skip(colon + 2))) {
                None => None,
                Some(count) => if count == 0 {
                    None
                } else {
                    Some(
                        SessionBucketView {
                            idle_min: idle_bound(trimmed(before.take(colon))),
                            count: count as u64,
                            path,
                        },
                    )
                },
            },
        },
    }
}

/// The rows that some lines hold, in their order.
pub open spec fn line_buckets(lines: Seq<Seq<char>>, path: Seq<char>) -> Seq<SessionBucketView>
    decreases lines.len(),
{
    if lines.len() == 0 {
        Seq::empty()
    } else {
        let before = line_buckets(lines.drop_last(), path);
        match line_bucket(lines.last(), path) {
            Some(b) => before.push(b),
            None => before,
        }
    }
}

/// The rows of a response: those of the lines after the first.
pub open spec fn session_buckets(body: Seq<char>, path: Seq<char>) -> Seq<SessionBucketView> {
    line_buckets(rest_lines_of(body), path)
}

fn read_idle_bound(text: &[char]) -> (r: u64)
    ensures
        r == idle_bound(text@),
{
    let label = chars_of("Session idle times histogram: ");
    let range = match strip_prefix(text, label.as_slice()) {
        Some(rest) => trim(rest),
        None => text,
    };
    if range.len() > 0 && range[0] == '<' {
        return 0;
    }
    let dash = chars_of(" - ");
    if let Some(d) = find(range, dash.as_slice()) {
        let low = slice_subrange(range, 0, d);
        assert(low@ == range@.take(d as int));
        return match parse_u64(trim(low)) {
            Some(n) => n,
            None => 0,
        };
    }
    let unit = chars_of(" minutes");
    let value = match strip_suffix(range, unit.as_slice()) {
        Some(number) => number,
        None => range,
    };
    match parse_u64(trim(trim_end_of(value, '+'))) {
        Some(n) => n,
        None => 0,
    }
}

fn read_bucket(text: &[char], path: &str) -> (r: Option<SessionBucket>)
    ensures
        match r {
            Some(b) => line_bucket(text@, path@) == Some(b@),
            None => line_bucket(text@, path@) is None,
        },
{
    proof {
        reveal_strlit(": ");
    }
    let line = trim(text);
    let many = chars_of(" sessions");
    let one = chars_of(" session");
    let before = match strip_suffix(line, many.as_slice()) {
        Some(before) => before,
        None => match strip_suffix(line, one.as_slice()) {
            Some(before) => before,
            None => return None,
        },
    };
    let mark = chars_of(": ");
    let colon: usize = match rfind(before, mark.as_slice()) {
        Some(i) => i,
        None => return None,
    };
    assert(colon + 2 <= before.len());
    let number = slice_subrange(before, colon + 2, before.len());
    assert(number@ == before@.skip(colon + 2));
    let count: u64 = match parse_u64(trim(number)) {
        Some(n) => n,
        None => return None,
    };
    if count == 0 {
        return None;
    }
    let range = slice_subrange(before, 0, colon);
    assert(range@ == before@.take(colon as int));
    let idle_min: u64 = read_idle_bound(trim(range));
    Some(SessionBucket { idle_min, count, path: path.to_owned() })
}

/// Reads the rows of the `/sessions` response for the application at `path`.
pub fn parse_sessions(body: &str, path: &str) -> (r: Vec<SessionBucket>)
    ensures
        bucket_views(r@) == session_buckets(body@, path@),
{
    let cs = chars_of(body);
    let ls = rest_lines(cs.as_slice());
    let mut buckets: Vec<SessionBucket> = Vec::new();
    let mut i: usize = 0;
    let ghost views = slice_views(ls@);
    assert(bucket_views(buckets@) == line_buckets(views.take(0), path@));
    while i < ls.len()
        invariant
            i <= ls@.len(),
            views == slice_views(ls@),
            bucket_views(buckets@) == line_buckets(views.take(i as int), path@),
        decreases ls.len() - i,
    {
        assert(views.take(i + 1).drop_last() == views.take(i as int));
        let ghost before = bucket_views(buckets@);
        if let Some(b) = read_bucket(ls[i], path) {
            buckets.push(b);
            assert(bucket_views(buckets@) == before.push(b@));
        }
        i = i + 1;
    }
    assert(views.take(views.len() as int) == views);
    buckets
}

/// A row as a line of plain output.
pub open spec fn bucket_plain(b: SessionBucketView) -> Seq<char> {
    "idle="@ + decimal_text(b.idle_min as nat) + " count="@ + decimal_text(b.count as nat)
        + " path="@ + b.path
}

/// A row as tab-separated values: idle minutes, session count, application path.
pub open spec fn bucket_tsv(b: SessionBucketView) -> Seq<char> {
    decimal_text(b.idle_min as nat) + "\t"@ + decimal_text(b.count as nat) + "\t"@ + b.path
}

/// The record of a row.
pub open spec fn bucket_object(b: SessionBucketView) -> JsonObjectView {
    seq![
        ("idle_minutes"@, JsonValueView::Number(b.idle_min as nat)),
        ("count"@, JsonValueView::Number(b.count as nat)),
        ("path"@, JsonValueView::Text(b.path)),
    ]
}

/// A row as a JSON object.
pub open spec fn bucket_json(b: SessionBucketView) -> Seq<char> {
    object_text(bucket_object(b))
}

/// A row as it is listed in a machine-readable format.
pub open spec fn bucket_line(b: SessionBucketView, fmt: OutputFmt) -> Seq<char> {
    match fmt {
        OutputFmt::Plain => bucket_plain(b),
        OutputFmt::Tsv => bucket_tsv(b),
        _ => bucket_json(b),
    }
}

/// Rows as they are listed in a machine-readable format.
pub open spec fn bucket_lines(v: Seq<SessionBucketView>, fmt: OutputFmt) -> Seq<Seq<char>> {
    v.map_values(|b: SessionBucketView| bucket_line(b, fmt))
}

/// The cells of the table of rows, with its header.
pub open spec fn bucket_cells(v: Seq<SessionBucketView>) -> Seq<Seq<Seq<char>>> {
    seq![seq!["Idle (min)"@, "Sessions"@]] + v.map_values(
        |b: SessionBucketView|
            seq![decimal_text(b.idle_min as nat), decimal_text(b.count as nat)],
    )
}

/// The text that lists rows in a given format.
pub open spec fn buckets_text(v: Seq<SessionBucketView>, fmt: OutputFmt) -> Seq<char> {
    match fmt {
        OutputFmt::Table => table_text(bucket_cells(v)).push('\n'),
        OutputFmt::Json => json_array_text(bucket_lines(v, fmt)),
        _ => line_block(bucket_lines(v, fmt)),
    }
}

fn write_plain(b: &SessionBucket) -> (r: String)
    ensures
        r@ == bucket_plain(b@),
{
    let mut out = "idle=".to_owned();
    out.append(u64_text(b.idle_min).as_str());
    out.append(" count=");
    out.append(u64_text(b.count).as_str());
    out.append(" path=");
    out.append(b.path.as_str());
    out
}

fn write_tsv(b: &SessionBucket) -> (r: String)
    ensures
        r@ == bucket_tsv(b@),
{
    let mut out = u64_text(b.idle_min);
    out.append("\t");
    out.append(u64_text(b.count).as_str());
    out.append("\t");
    out.append(b.path.as_str());
    out
}

fn write_json(b: &SessionBucket) -> (r: String)
    ensures
        r@ == bucket_json(b@),
{
    let mut fields: Vec<(String, JsonValue)> = Vec::new();
    fields.push(("idle_minutes".to_owned(), JsonValue::Number(b.idle_min)));
    fields.push(("count".to_owned(), JsonValue::Number(b.count)));
    fields.push(("path".to_owned(), JsonValue::Text(b.path.clone())));
    assert(field_views(fields@) == bucket_object(b@));
    json_object(&fields)
}

/// The cells of the table of rows, with its header.
pub fn bucket_rows(buckets: &[SessionBucket]) -> (r: Vec<Vec<String>>)
    ensures
        cell_views(r@) == bucket_cells(bucket_views(buckets@)),
{
    let mut rows: Vec<Vec<String>> = Vec::new();
    let mut header: Vec<String> = Vec::new();
    header.push("Idle (min)".to_owned());
    header.push("Sessions".to_owned());
    assert(string_views(header@) == seq!["Idle (min)"@, "Sessions"@]);
    rows.push(header);
    let ghost views = bucket_views(buckets@);
    assert(cell_views(rows@) == bucket_cells(views.take(0)));
    let mut i: usize = 0;
    while i < buckets.len()
        invariant
            i <= buckets@.len(),
            views == bucket_views(buckets@),
            cell_views(rows@) == bucket_cells(views.take(i as int)),
        decreases buckets.len() - i,
    {
        let ghost before = cell_views(rows@);
        let mut row: Vec<String> = Vec::new();
        row.push(u64_text(buckets[i].idle_min));
        row.push(u64_text(buckets[i].count));
        let ghost b = views[i as int];
        assert(string_views(row@) == seq![
            decimal_text(b.idle_min as nat),
            decimal_text(b.count as nat),
        ]);
        rows.push(row);
        assert(cell_views(rows@) == before.push(string_views(row@)));
        assert(bucket_cells(views.take(i + 1)) == bucket_cells(views.take(i as int)).push(
            string_views(row@),
        ));
        i = i + 1;
    }
    assert(views.take(views.len() as int) == views);
    rows
}

fn write_lines(buckets: &[SessionBucket], fmt: &OutputFmt) -> (r: Vec<String>)
    ensures
        string_views(r@) == bucket_lines(bucket_views(buckets@), *fmt),
{
    let mut lines: Vec<String> = Vec::new();
    let ghost views = bucket_views(buckets@);
    let mut i: usize = 0;
    assert(string_views(lines@) == bucket_lines(views.take(0), *fmt));
    while i < buckets.len()
        invariant
            i <= buckets@.len(),
            views == bucket_views(buckets@),
            string_views(lines@) == bucket_lines(views.take(i as int), *fmt),
        decreases buckets.len() - i,
    {
        let ghost before = string_views(lines@);
        let line = match fmt {
            OutputFmt::Plain => write_plain(&buckets[i]),
            OutputFmt::Tsv => write_tsv(&buckets[i]),
            _ => write_json(&buckets[i]),
        };
        lines.push(line);
        assert(string_views(lines@) == before.push(bucket_line(views[i as int], *fmt)));
        assert(bucket_lines(views.take(i + 1), *fmt) == bucket_lines(
            views.take(i as int),
            *fmt,
        ).push(bucket_line(views[i as int], *fmt)));
        i = i + 1;
    }
    assert(views.take(views.len() as int) == views);
    lines
}

/// The text that lists rows in the given format.
pub fn print_session_buckets(buckets: &[SessionBucket], fmt: &OutputFmt) -> (r: String)
    ensures
        r@ == buckets_text(bucket_views(buckets@), *fmt),
{
    match fmt {
        OutputFmt::Table => end_line(render_table(bucket_rows(buckets))),
        OutputFmt::Json => json_array(&write_lines(buckets, fmt)),
        _ => block_of_lines(&write_lines(buckets, fmt)),
    }
}

/// Every row that is read counts at least one session and belongs to the application
/// that was asked for, and no line gives more than one row.
pub proof fn lemma_session_buckets(body: Seq<char>, path: Seq<char>)
    ensures
        forall|i: int|
            0 <= i < session_buckets(body, path).len() ==> {
                &&& (#[trigger] session_buckets(body, path)[i]).count > 0
                &&& session_buckets(body, path)[i].path == path
            },
        session_buckets(body, path).len() <= rest_lines_of(body).len(),
{
    lemma_line_buckets(rest_lines_of(body), path);
}

proof fn lemma_line_buckets(lines: Seq<Seq<char>>, path: Seq<char>)
    ensures
        forall|i: int|
            0 <= i < line_buckets(lines, path).len() ==> {
                &&& (#[trigger] line_buckets(lines, path)[i]).count > 0
                &&& line_buckets(lines, path)[i].path == path
            },
        line_buckets(lines, path).len() <= lines.len(),
    decreases lines.len(),
{
    if lines.len() > 0 {
        lemma_line_buckets(lines.drop_last(), path);
        if line_bucket(lines.last(), path) is Some {
            let before = before_word(trimmed(lines.last()))->0;
            let colon = last_match(before, ": "@)->0;
            lemma_u64_number_range(trimmed(before.skip(colon + 2)));
        }
    }
}

/// A row in tab-separated values splits into its three columns, and the first two
/// read back as its numbers.
pub proof fn lemma_bucket_tsv_columns(b: SessionBucketView)
    ensures
        split_n_at(bucket_tsv(b), '\t', 3) == seq![
            decimal_text(b.idle_min as nat),
            decimal_text(b.count as nat),
            b.path,
        ],
        u64_number(decimal_text(b.idle_min as nat)) == Some(b.idle_min as int),
        u64_number(decimal_text(b.count as nat)) == Some(b.count as int),
{
    reveal_strlit("\t");
    let idle = decimal_text(b.idle_min as nat);
    let count = decimal_text(b.count as nat);
    lemma_decimal_text(b.idle_min as nat);
    lemma_decimal_text(b.count as nat);
    lemma_u64_round_trip(b.idle_min);
    lemma_u64_round_trip(b.count);
    assert(!idle.contains('\t'));
    assert(!count.contains('\t'));
    assert(bucket_tsv(b) == idle + seq!['\t'] + (count + seq!['\t'] + b.path));
    lemma_split_n_first(idle, count + seq!['\t'] + b.path, '\t', 3);
    lemma_split_n_first(count, b.path, '\t', 2);
    assert(split_n_at(b.path, '\t', 1) == seq![b.path]);
    assert(seq![idle] + (seq![count] + seq![b.path]) == seq![idle, count, b.path]);
}

/// The text of a number has nothing to trim, and reads back as that number.
proof fn lemma_decimal_trimmed(n: u64)
    ensures
        trimmed(decimal_text(n as nat)) == decimal_text(n as nat),
        u64_number(trimmed(decimal_text(n as nat))) == Some(n as int),
{
    let s = decimal_text(n as nat);
    lemma_decimal_text(n as nat);
    assert(is_digit(s[0]) && is_digit(s[s.len() - 1]));
    lemma_trimmed_is(s);
    lemma_u64_round_trip(n);
}

proof fn lemma_histogram_row(range: Seq<char>, count: u64, word: Seq<char>, path: Seq<char>)
    requires
        range.len() > 0,
        !is_white_space(range.first()),
        !is_white_space(range.last()),
        word == " sessions"@ || word == " session"@,
    ensures
        line_bucket(range + ": "@ + decimal_text(count as nat) + word, path) == if count == 0 {
            None
        } else {
            Some(SessionBucketView { idle_min: idle_bound(range), count, path })
        },
{
    reveal_strlit(": ");
    reveal_strlit(" session");
    reveal_strlit(" sessions");
    let number = decimal_text(count as nat);
    let before = range + ": "@ + number;
    let line = before + word;
    lemma_decimal_trimmed(count);
    lemma_decimal_text(count as nat);
    lemma_trimmed_is(line);
    assert(word.is_suffix_of(line));
    assert(line.take(line.len() - word.len()) == before);
    if " sessions"@.is_suffix_of(line) {
        assert(line[line.len() - 1] == " sessions"@[8]);
    }
    assert(before_word(line) == Some(before));
    let colon = range.len() as int;
    assert(before.subrange(colon, colon + 2) == ": "@);
    assert forall|j: int| colon < j <= before.len() implies !occurs_at(before, ": "@, j) by {
        if colon + 2 <= j < before.len() {
            assert(before[j] == number[j - colon - 2]);
            assert(is_digit(number[j - colon - 2]));
        }
        lemma_no_match(before, ": "@, j);
    }
    lemma_last_match_is(before, ": "@, colon);
    assert(before.skip(colon + 2) == number);
    assert(before.take(colon) == range);
    lemma_trimmed_is(range);
}

/// A line that gives a range, a colon and a count of sessions holds one row: the lower
/// bound of that range, and that count. A count of 0 gives no row.
pub proof fn lemma_histogram_line(range: Seq<char>, count: u64, path: Seq<char>)
    requires
        range.len() > 0,
        !is_white_space(range.first()),
        !is_white_space(range.last()),
    ensures
        line_bucket(range + ": "@ + decimal_text(count as nat) + " sessions"@, path) == if count
            == 0 {
            None
        } else {
            Some(SessionBucketView { idle_min: idle_bound(range), count, path })
        },
        line_bucket(range + ": "@ + decimal_text(count as nat) + " session"@, path) == if count
            == 0 {
            None
        } else {
            Some(SessionBucketView { idle_min: idle_bound(range), count, path })
        },
{
    lemma_histogram_row(range, count, " sessions"@, path);
    lemma_histogram_row(range, count, " session"@, path);
}

/// A line that does not end in `sessions` or `session` holds no row.
pub proof fn lemma_other_line(line: Seq<char>, path: Seq<char>)
    requires
        !" sessions"@.is_suffix_of(trimmed(line)),
        !" session"@.is_suffix_of(trimmed(line)),
    ensures
        line_bucket(line, path) is None,
{
}

/// The lower bound of `N - M minutes` is `N`.
pub proof fn lemma_idle_bound_interval(low: u64, high: u64)
    ensures
        idle_bound(decimal_text(low as nat) + " - "@ + decimal_text(high as nat) + " minutes"@)
            == low,
{
    reveal_strlit(" - ");
    reveal_strlit("Session idle times histogram: ");
    let a = decimal_text(low as nat);
    let range = a + " - "@ + decimal_text(high as nat) + " minutes"@;
    lemma_decimal_text(low as nat);
    lemma_decimal_trimmed(low);
    assert(range[0] == a[0] && is_digit(a[0]));
    assert(after_prefix(range, "Session idle times histogram: "@) is None) by {
        if "Session idle times histogram: "@.is_prefix_of(range) {
            assert("Session idle times histogram: "@[0] == range[0]);
        }
    }
    let dash = a.len() as int;
    assert(range.subrange(dash, dash + 3) == " - "@);
    assert forall|j: int| 0 <= j < dash implies !occurs_at(range, " - "@, j) by {
        assert(range[j] == a[j] && is_digit(a[j]));
        lemma_no_match(range, " - "@, j);
    }
    lemma_first_match_is(range, " - "@, dash);
    assert(range.take(dash) == a);
}

/// The label before a range does not change its lower bound.
pub proof fn lemma_idle_bound_labelled(range: Seq<char>)
    requires
        range.len() > 0,
        !is_white_space(range.first()),
        !is_white_space(range.last()),
        !"Session idle times histogram: "@.is_prefix_of(range),
    ensures
        idle_bound("Session idle times histogram: "@ + range) == idle_bound(range),
{
    let label = "Session idle times histogram: "@;
    assert(label.is_prefix_of(label + range));
    assert((label + range).skip(label.len() as int) == range);
    lemma_trimmed_is(range);
}

/// A range below a bound starts at 0, whatever the bound.
pub proof fn lemma_idle_bound_below(bound: Seq<char>)
    ensures
        idle_bound("<"@ + bound) == 0,
{
    reveal_strlit("<");
    reveal_strlit("Session idle times histogram: ");
    let range = "<"@ + bound;
    if "Session idle times histogram: "@.is_prefix_of(range) {
        assert("Session idle times histogram: "@[0] == range[0]);
    }
}

/// A range of exactly `N` minutes, or of `N` minutes and more, starts at `N`.
pub proof fn lemma_idle_bound_from(n: u64)
    ensures
        idle_bound(decimal_text(n as nat) + " minutes"@) == n,
        idle_bound(decimal_text(n as nat) + "+ minutes"@) == n,
{
    reveal_strlit(" - ");
    reveal_strlit(" minutes");
    reveal_strlit("+ minutes");
    reveal_strlit("Session idle times histogram: ");
    let number = decimal_text(n as nat);
    lemma_decimal_text(n as nat);
    lemma_decimal_trimmed(n);
    assert(is_digit(number[0]));
    let exact = number + " minutes"@;
    let more = number + "+ minutes"@;
    lemma_open_range(exact);
    lemma_open_range(more);
    assert(exact.subrange(exact.len() - 8, exact.len() as int) == " minutes"@);
    assert(more.subrange(more.len() - 8, more.len() as int) == " minutes"@);
    assert(" minutes"@.is_suffix_of(exact));
    assert(" minutes"@.is_suffix_of(more));
    assert(exact.take(exact.len() - 8) == number);
    assert(more.take(more.len() - 8) == number.push('+'));
    assert(is_digit(number[number.len() - 1]));
    assert(trimmed_end_of(number, '+') == number);
    assert(number.push('+').drop_last() == number);
    assert(trimmed_end_of(number.push('+'), '+') == number);
}

proof fn lemma_open_range(range: Seq<char>)
    requires
        range.len() > 0,
        is_digit(range[0]),
        forall|i: int| 0 <= i < range.len() ==> range[i] != '-',
    ensures
        after_prefix(range, "Session idle times histogram: "@) is None,
        first_match(range, " - "@) is None,
{
    reveal_strlit(" - ");
    reveal_strlit("Session idle times histogram: ");
    if "Session idle times histogram: "@.is_prefix_of(range) {
        assert("Session idle times histogram: "@[0] == range[0]);
    }
    assert forall|j: int| !occurs_at(range, " - "@, j) by {
        if occurs_at(range, " - "@, j) {
            assert(range.subrange(j, j + 3)[1] == range[j + 1]);
        }
    }
    lemma_no_first_match(range, " - "@);
}

proof fn lemma_line_buckets_append(a: Seq<Seq<char>>, b: Seq<Seq<char>>, path: Seq<char>)
    ensures
        line_buckets(a + b, path) == line_buckets(a, path) + line_buckets(b, path),
    decreases b.len(),
{
    if b.len() == 0 {
        assert(a + b == a);
    } else {
        assert((a + b).drop_last() == a + b.drop_last());
        lemma_line_buckets_append(a, b.drop_last(), path);
    }
    assert(line_buckets(a + b, path) == line_buckets(a, path) + line_buckets(b, path));
}

/// Rows are read line by line: lines that follow a response add theirs.
pub proof fn lemma_buckets_line_by_line(body: Seq<char>, more: Seq<char>, path: Seq<char>)
    requires
        body.len() > 0,
        body.last() == '\n',
    ensures
        session_buckets(body + more, path) == session_buckets(body, path) + line_buckets(
            lines_of(more),
            path,
        ),
{
    lemma_lines_of_append(body, more);
    lemma_line_buckets_append(rest_lines_of(body), lines_of(more), path);
}

/// The lower bound of a range `N - …` is `N`, whatever its upper bound and unit; that
/// of `N` or `N+` without a unit is `N` too.
pub proof fn lemma_idle_bound_bare(n: u64, rest: Seq<char>)
    ensures
        idle_bound(decimal_text(n as nat) + " - "@ + rest) == n,
        idle_bound(decimal_text(n as nat)) == n,
        idle_bound(decimal_text(n as nat) + "+"@) == n,
{
    reveal_strlit(" - ");
    reveal_strlit("+");
    reveal_strlit(" minutes");
    reveal_strlit("Session idle times histogram: ");
    let a = decimal_text(n as nat);
    let range = a + " - "@ + rest;
    lemma_decimal_text(n as nat);
    lemma_decimal_trimmed(n);
    assert(range[0] == a[0] && is_digit(a[0]));
    if "Session idle times histogram: "@.is_prefix_of(range) {
        assert("Session idle times histogram: "@[0] == range[0]);
    }
    let dash = a.len() as int;
    assert(range.subrange(dash, dash + 3) == " - "@);
    assert forall|j: int| 0 <= j < dash implies !occurs_at(range, " - "@, j) by {
        assert(range[j] == a[j] && is_digit(a[j]));
        lemma_no_match(range, " - "@, j);
    }
    lemma_first_match_is(range, " - "@, dash);
    assert(range.take(dash) == a);
    let more = a + "+"@;
    assert forall|i: int| 0 <= i < a.len() implies a[i] != '-' by {
        assert(is_digit(a[i]));
    }
    assert forall|i: int| 0 <= i < more.len() implies more[i] != '-' by {
        if i < a.len() {
            assert(more[i] == a[i]);
        }
    }
    lemma_open_range(a);
    lemma_open_range(more);
    assert(is_digit(a[a.len() - 1]));
    if " minutes"@.is_suffix_of(a) {
        assert(a[a.len() - 1] == " minutes"@[7]);
    }
    if " minutes"@.is_suffix_of(more) {
        assert(more[more.len() - 1] == " minutes"@[7]);
    }
    assert(trimmed_end_of(a, '+') == a);
    assert(more.drop_last() == a);
    assert(trimmed_end_of(more, '+') == a);
}

/// The lower bound of a range with a dash is what stands before the first one, if that
/// is a number, and otherwise 0.
pub proof fn lemma_idle_bound_dash(low: Seq<char>, rest: Seq<char>)
    requires
        !low.contains('-'),
        low.len() > 0 ==> low.first() != '<',
        !"Session idle times histogram: "@.is_prefix_of(low + " - "@ + rest),
    ensures
        idle_bound(low + " - "@ + rest) == match u64_number(trimmed(low)) {
            Some(n) => n as u64,
            None => 0,
        },
{
    reveal_strlit(" - ");
    let range = low + " - "@ + rest;
    let dash = low.len() as int;
    assert(range.subrange(dash, dash + 3) == " - "@);
    assert forall|j: int| 0 <= j < dash implies !occurs_at(range, " - "@, j) by {
        if occurs_at(range, " - "@, j) {
            assert(range.subrange(j, j + 3)[1] == range[j + 1]);
            if j + 1 < dash {
                assert(range[j + 1] == low[j + 1]);
                assert(low.contains(low[j + 1]));
            } else {
                assert(range[dash] == ' ');
            }
        }
    }
    lemma_first_match_is(range, " - "@, dash);
    assert(range.take(dash) == low);
    if dash > 0 {
        assert(range.first() == low.first());
    } else {
        assert(range.first() == ' ');
    }
}

/// The lower bound of a range without a dash is the number in it, whatever plus signs
/// stand after it and whether its unit is named, and otherwise 0.
pub proof fn lemma_idle_bound_open(value: Seq<char>, plus: Seq<char>)
    requires
        !value.contains('-'),
        value.len() > 0 ==> value.first() != '<' && value.last() != '+',
        all_are(plus, '+'),
        !"Session idle times histogram: "@.is_prefix_of(value + plus),
        !"Session idle times histogram: "@.is_prefix_of(value + plus + " minutes"@),
    ensures
        idle_bound(value + plus + " minutes"@) == match u64_number(trimmed(value)) {
            Some(n) => n as u64,
            None => 0,
        },
        !" minutes"@.is_suffix_of(value + plus) ==> idle_bound(value + plus) == match u64_number(
            trimmed(value),
        ) {
            Some(n) => n as u64,
            None => 0,
        },
{
    reveal_strlit(" minutes");
    let bare = value + plus;
    let named = bare + " minutes"@;
    lemma_trimmed_end_of_parts(value, plus, '+');
    lemma_affixes(" minutes"@, bare);
    assert forall|i: int| 0 <= i < named.len() implies named[i] != '-' by {
        if i < value.len() {
            assert(named[i] == value[i]);
            assert(value.contains(value[i]));
        } else if i < bare.len() {
            assert(named[i] == plus[i - value.len()]);
        }
    }
    assert forall|i: int| 0 <= i < bare.len() implies bare[i] != '-' by {
        assert(bare[i] == named[i]);
    }
    lemma_no_dash(named);
    lemma_no_dash(bare);
    if value.len() > 0 {
        assert(named.first() == value.first() && bare.first() == value.first());
    } else if plus.len() > 0 {
        assert(named.first() == plus[0] && bare.first() == plus[0]);
    } else {
        assert(named.first() == ' ');
    }
}

proof fn lemma_no_dash(range: Seq<char>)
    requires
        forall|i: int| 0 <= i < range.len() ==> range[i] != '-',
    ensures
        first_match(range, " - "@) is None,
{
    reveal_strlit(" - ");
    assert forall|j: int| !occurs_at(range, " - "@, j) by {
        if occurs_at(range, " - "@, j) {
            assert(range.subrange(j, j + 3)[1] == range[j + 1]);
        }
    }
    lemma_no_first_match(range, " - "@);
}

/// The contents of a list of rows are those of each one, in its place.
pub proof fn lemma_bucket_views(v: Seq<SessionBucket>, i: int)
    requires
        0 <= i < v.len(),
    ensures
        bucket_views(v).len() == v.len(),
        bucket_views(v)[i] == (SessionBucketView {
            idle_min: v[i].idle_min,
            count: v[i].count,
            path: v[i].path@,
        }),
{
}

} // verus!
