//! What holds of the machine-readable formats: no colour, one record to a line, and
//! JSON that a reader takes back.

use vstd::prelude::*;

use crate::apps::{
    app_line, app_lines, app_object, app_tsv, is_apps_text, line_app, line_apps, listed_apps,
    AppEntryView,
};
use crate::info::{
    info_pairs, is_pairs_text, line_pair, line_pairs, pair_line, pair_lines, pair_object, pair_tsv,
    PairView,
};
use crate::json::{
    is_control, json_records, json_text, lemma_json_records, lemma_json_text_has_no_control,
    member_texts, object_text, object_texts, value_text, JsonObjectView, JsonValueView,
};
use crate::leaks::{is_leak_report, json_items, leak_object, leakers_of};
use crate::number::{decimal_text, is_digit, lemma_decimal_text};
use crate::output::{
    is_line, joined, json_array_text, lemma_line_block_keeps, lemma_lines_of_block,
    lemma_lines_of_block_chomped, Output, OutputFmt,
};
use crate::profile_commands::{is_confirmation, is_listing, listing, listing_line};
use crate::profiles::{NamedEntries, ProfileEntryView};
use crate::response::ok_message;
use crate::sessions::{
    bucket_line, bucket_lines, bucket_object, buckets_text, lemma_session_buckets,
    session_buckets, SessionBucketView,
};
use crate::style::is_marked;
use crate::text::{
    chomped, first_at, first_line_of, is_blank, is_white_space, lemma_first_at, lemma_lines_keep,
    lemma_lines_of_have_no_feed, lemma_split_n_first, lemma_trimmed_keeps, lines_of, rest_lines_of,
    split_n_at, split_once_at, trimmed_end, trimmed_start, written,
};

verus! {

/// A text without colour: the character that starts every style is not in it.
pub open spec fn is_colourless(s: Seq<char>) -> bool {
    !s.contains('\u{1b}')
}

broadcast proof fn lemma_append_lacks(a: Seq<char>, b: Seq<char>, c: char)
    requires
        !a.contains(c),
        !b.contains(c),
    ensures
        !#[trigger] (a + b).contains(c),
{
    let s = a + b;
    assert forall|i: int| 0 <= i < s.len() implies s[i] != c by {
        if i < a.len() {
            assert(a.contains(a[i]));
        } else {
            assert(b.contains(b[i - a.len()]));
        }
    }
}

proof fn lemma_rest_lines_keep(body: Seq<char>, c: char)
    requires
        !body.contains(c),
    ensures
        forall|i: int|
            0 <= i < rest_lines_of(body).len() ==> !(#[trigger] rest_lines_of(body)[i]).contains(c),
{
    lemma_lines_keep(body, c);
    assert forall|i: int| 0 <= i < rest_lines_of(body).len() implies !(
    #[trigger] rest_lines_of(body)[i]).contains(c) by {
        assert(rest_lines_of(body)[i] == lines_of(body)[i + 1]);
    }
}

proof fn lemma_rest_lines_have_no_feed(body: Seq<char>)
    ensures
        forall|i: int|
            0 <= i < rest_lines_of(body).len() ==> !(#[trigger] rest_lines_of(body)[i]).contains(
                '\n',
            ),
{
    lemma_lines_of_have_no_feed(body);
    assert forall|i: int| 0 <= i < rest_lines_of(body).len() implies !(
    #[trigger] rest_lines_of(body)[i]).contains('\n') by {
        assert(rest_lines_of(body)[i] == lines_of(body)[i + 1]);
    }
}

proof fn lemma_take_skip_keep(s: Seq<char>, k: int, c: char)
    requires
        !s.contains(c),
        0 <= k <= s.len(),
    ensures
        !s.take(k).contains(c),
        !s.skip(k).contains(c),
{
    assert forall|i: int| 0 <= i < k implies s.take(k)[i] != c by {
        assert(s.contains(s[i]));
    }
    assert forall|i: int| 0 <= i < s.len() - k implies s.skip(k)[i] != c by {
        assert(s.contains(s[k + i]));
    }
}

proof fn lemma_split_n_keeps(s: Seq<char>, at: char, n: nat, c: char)
    requires
        !s.contains(c),
    ensures
        forall|i: int|
            0 <= i < split_n_at(s, at, n).len() ==> !(#[trigger] split_n_at(s, at, n)[i]).contains(
                c,
            ),
    decreases n,
{
    let k = first_at(s, at);
    lemma_first_at(s, at);
    if n > 1 && k < s.len() {
        lemma_take_skip_keep(s, k, c);
        lemma_take_skip_keep(s, k + 1, c);
        let rest = split_n_at(s.skip(k + 1), at, (n - 1) as nat);
        lemma_split_n_keeps(s.skip(k + 1), at, (n - 1) as nat, c);
        assert forall|i: int| 0 <= i < split_n_at(s, at, n).len() implies !(
        #[trigger] split_n_at(s, at, n)[i]).contains(c) by {
            if i > 0 {
                assert(split_n_at(s, at, n)[i] == rest[i - 1]);
            }
        }
    }
}

proof fn lemma_joined_keeps(parts: Seq<Seq<char>>, sep: Seq<char>, c: char)
    requires
        !sep.contains(c),
        forall|i: int| 0 <= i < parts.len() ==> !(#[trigger] parts[i]).contains(c),
    ensures
        !joined(parts, sep).contains(c),
    decreases parts.len(),
{
    broadcast use lemma_append_lacks;

    if parts.len() > 0 {
        let front = parts.drop_last();
        assert forall|i: int| 0 <= i < front.len() implies !(#[trigger] front[i]).contains(c) by {
            assert(front[i] == parts[i]);
        }
        lemma_joined_keeps(front, sep, c);
        assert(!parts[0].contains(c));
        assert(!parts[parts.len() - 1].contains(c));
    }
}

proof fn lemma_array_is_colourless(entries: Seq<Seq<char>>)
    requires
        forall|i: int| 0 <= i < entries.len() ==> is_colourless(#[trigger] entries[i]),
    ensures
        is_colourless(json_array_text(entries)),
{
    broadcast use lemma_append_lacks;

    reveal_strlit("[\n");
    reveal_strlit(",\n");
    reveal_strlit("\n]\n");
    lemma_joined_keeps(entries, ",\n"@, '\u{1b}');
}

proof fn lemma_object_lacks(o: JsonObjectView, c: char)
    requires
        is_control(c),
    ensures
        !object_text(o).contains(c),
{
    broadcast use lemma_append_lacks;

    reveal_strlit("  { ");
    reveal_strlit(", ");
    reveal_strlit(" }");
    reveal_strlit(": ");
    let texts = member_texts(o);
    assert forall|i: int| 0 <= i < texts.len() implies !(#[trigger] texts[i]).contains(c) by {
        let m = o[i];
        lemma_json_text_lacks(m.0, c);
        match m.1 {
            JsonValueView::Text(s) => lemma_json_text_lacks(s, c),
            JsonValueView::Number(n) => lemma_decimal_lacks(n, c),
        }
        assert(texts[i] == json_text(m.0) + ": "@ + value_text(m.1));
    }
    lemma_joined_keeps(texts, ", "@, c);
}

proof fn lemma_json_text_lacks(s: Seq<char>, c: char)
    requires
        is_control(c),
    ensures
        !json_text(s).contains(c),
{
    lemma_json_text_has_no_control(s);
}

proof fn lemma_decimal_lacks(n: nat, c: char)
    requires
        !is_digit(c),
    ensures
        !decimal_text(n).contains(c),
{
    lemma_decimal_text(n);
}

spec fn app_lacks(a: AppEntryView, c: char) -> bool {
    &&& !a.path.contains(c)
    &&& !a.status.contains(c)
    &&& !a.sessions.contains(c)
    &&& !a.description.contains(c)
}

proof fn lemma_apps_lack(lines: Seq<Seq<char>>, c: char)
    requires
        c != '0',
        forall|i: int| 0 <= i < lines.len() ==> !(#[trigger] lines[i]).contains(c),
    ensures
        forall|i: int|
            0 <= i < line_apps(lines).len() ==> app_lacks(#[trigger] line_apps(lines)[i], c),
    decreases lines.len(),
{
    if lines.len() > 0 {
        let front = lines.drop_last();
        assert forall|i: int| 0 <= i < front.len() implies !(#[trigger] front[i]).contains(c) by {
            assert(front[i] == lines[i]);
        }
        lemma_apps_lack(front, c);
        assert(!lines[lines.len() - 1].contains(c));
        if !is_blank(lines.last()) {
            reveal_strlit("");
            reveal_strlit("0");
            lemma_split_n_keeps(lines.last(), ':', 4, c);
            assert(app_lacks(line_app(lines.last()), c));
        }
        let before = line_apps(front);
        assert forall|i: int| 0 <= i < line_apps(lines).len() implies app_lacks(
            #[trigger] line_apps(lines)[i],
            c,
        ) by {
            if i < before.len() {
                assert(line_apps(lines)[i] == before[i]);
            }
        }
    }
}

proof fn lemma_app_lines_lack(body: Seq<char>, fmt: OutputFmt, c: char)
    requires
        c == '\u{1b}' || c == '\n',
        forall|i: int|
            0 <= i < rest_lines_of(body).len() ==> !(#[trigger] rest_lines_of(body)[i]).contains(c),
    ensures
        forall|i: int|
            0 <= i < app_lines(listed_apps(body), fmt).len() ==> !(#[trigger] app_lines(
                listed_apps(body),
                fmt,
            )[i]).contains(c),
{
    let v = listed_apps(body);
    let lines = app_lines(v, fmt);
    lemma_apps_lack(rest_lines_of(body), c);
    assert forall|i: int| 0 <= i < lines.len() implies !(#[trigger] lines[i]).contains(c) by {
        assert(app_lacks(v[i], c));
        lemma_app_line_lacks(v[i], fmt, c);
    }
}

proof fn lemma_app_line_lacks(a: AppEntryView, fmt: OutputFmt, c: char)
    requires
        c == '\u{1b}' || c == '\n',
        app_lacks(a, c),
    ensures
        !app_line(a, fmt).contains(c),
{
    broadcast use lemma_append_lacks;

    reveal_strlit(" ");
    reveal_strlit("\t");
    lemma_object_lacks(app_object(a), c);
}

/// The list of applications has no colour in any machine-readable format, if the
/// response has none.
pub proof fn lemma_apps_text_is_colourless(r: Seq<char>, body: Seq<char>, fmt: OutputFmt)
    requires
        fmt != OutputFmt::Table,
        is_colourless(body),
        is_apps_text(r, listed_apps(body), fmt),
    ensures
        is_colourless(r),
{
    let lines = app_lines(listed_apps(body), fmt);
    lemma_rest_lines_keep(body, '\u{1b}');
    lemma_app_lines_lack(body, fmt, '\u{1b}');
    lemma_line_block_keeps(lines, '\u{1b}');
    lemma_array_is_colourless(lines);
}

/// Each line of the list of applications is one application, in plain output and in
/// tab-separated values, up to a carriage return at the end of a description.
pub proof fn lemma_apps_text_lines(r: Seq<char>, body: Seq<char>, fmt: OutputFmt)
    requires
        fmt == OutputFmt::Plain || fmt == OutputFmt::Tsv,
        is_apps_text(r, listed_apps(body), fmt),
    ensures
        lines_of(r) == app_lines(listed_apps(body), fmt).map_values(|l: Seq<char>| chomped(l)),
{
    lemma_rest_lines_have_no_feed(body);
    lemma_app_lines_lack(body, fmt, '\n');
    lemma_lines_of_block_chomped(app_lines(listed_apps(body), fmt));
}

spec fn pair_lacks(p: PairView, c: char) -> bool {
    !p.0.contains(c) && !p.1.contains(c)
}

spec fn is_trimmed_pair(p: PairView) -> bool {
    p.1.len() > 0 ==> !is_white_space(p.1.last())
}

proof fn lemma_trimmed_end_last(s: Seq<char>)
    ensures
        trimmed_end(s).len() > 0 ==> !is_white_space(trimmed_end(s).last()),
    decreases s.len(),
{
    if s.len() > 0 && is_white_space(s.last()) {
        lemma_trimmed_end_last(s.drop_last());
    }
}

proof fn lemma_pairs_lack(lines: Seq<Seq<char>>, c: char)
    requires
        forall|i: int| 0 <= i < lines.len() ==> !(#[trigger] lines[i]).contains(c),
    ensures
        forall|i: int|
            0 <= i < line_pairs(lines).len() ==> pair_lacks(#[trigger] line_pairs(lines)[i], c)
                && is_trimmed_pair(line_pairs(lines)[i]),
    decreases lines.len(),
{
    if lines.len() > 0 {
        let front = lines.drop_last();
        assert forall|i: int| 0 <= i < front.len() implies !(#[trigger] front[i]).contains(c) by {
            assert(front[i] == lines[i]);
        }
        lemma_pairs_lack(front, c);
        let line = lines[lines.len() - 1];
        assert(!line.contains(c));
        if let Some((key, value)) = split_once_at(line, ':') {
            let k = first_at(line, ':');
            lemma_first_at(line, ':');
            lemma_take_skip_keep(line, k, c);
            lemma_take_skip_keep(line, k + 1, c);
            lemma_trimmed_keeps(key, c);
            lemma_trimmed_keeps(value, c);
            lemma_trimmed_end_last(trimmed_start(value));
            assert(pair_lacks(line_pair(line)->0, c) && is_trimmed_pair(line_pair(line)->0));
        }
        let before = line_pairs(front);
        assert forall|i: int| 0 <= i < line_pairs(lines).len() implies pair_lacks(
            #[trigger] line_pairs(lines)[i],
            c,
        ) && is_trimmed_pair(line_pairs(lines)[i]) by {
            if i < before.len() {
                assert(line_pairs(lines)[i] == before[i]);
            }
        }
    }
}

proof fn lemma_pair_line_lacks(p: PairView, fmt: OutputFmt, c: char)
    requires
        c == '\u{1b}' || c == '\n',
        pair_lacks(p, c),
    ensures
        !pair_line(p, fmt).contains(c),
{
    broadcast use lemma_append_lacks;

    reveal_strlit("=");
    reveal_strlit("\t");
    lemma_object_lacks(pair_object(p), c);
}

/// Server information has no colour in any machine-readable format, if the response
/// has none.
pub proof fn lemma_pairs_text_is_colourless(r: Seq<char>, body: Seq<char>, fmt: OutputFmt)
    requires
        fmt != OutputFmt::Table,
        is_colourless(body),
        is_pairs_text(r, info_pairs(body), fmt),
    ensures
        is_colourless(r),
{
    let v = info_pairs(body);
    let lines = pair_lines(v, fmt);
    lemma_rest_lines_keep(body, '\u{1b}');
    lemma_pairs_lack(rest_lines_of(body), '\u{1b}');
    assert forall|i: int| 0 <= i < lines.len() implies is_colourless(#[trigger] lines[i]) by {
        assert(pair_lacks(v[i], '\u{1b}'));
        lemma_pair_line_lacks(v[i], fmt, '\u{1b}');
    }
    lemma_line_block_keeps(lines, '\u{1b}');
    lemma_array_is_colourless(lines);
}

/// Each line of server information is one pair, in plain output and in tab-separated
/// values.
pub proof fn lemma_pairs_text_lines(r: Seq<char>, body: Seq<char>, fmt: OutputFmt)
    requires
        fmt == OutputFmt::Plain || fmt == OutputFmt::Tsv,
        is_pairs_text(r, info_pairs(body), fmt),
    ensures
        lines_of(r) == pair_lines(info_pairs(body), fmt),
{
    let v = info_pairs(body);
    let lines = pair_lines(v, fmt);
    lemma_rest_lines_have_no_feed(body);
    lemma_pairs_lack(rest_lines_of(body), '\n');
    reveal_strlit("=");
    reveal_strlit("\t");
    assert forall|i: int| 0 <= i < lines.len() implies is_line(#[trigger] lines[i]) by {
        assert(pair_lacks(v[i], '\n') && is_trimmed_pair(v[i]));
        lemma_pair_line_lacks(v[i], fmt, '\n');
    }
    lemma_lines_of_block(lines);
}

proof fn lemma_bucket_line_lacks(b: SessionBucketView, fmt: OutputFmt, c: char)
    requires
        c == '\u{1b}' || c == '\n',
        !b.path.contains(c),
    ensures
        !bucket_line(b, fmt).contains(c),
{
    broadcast use lemma_append_lacks;

    reveal_strlit("idle=");
    reveal_strlit(" count=");
    reveal_strlit(" path=");
    reveal_strlit("\t");
    lemma_decimal_lacks(b.idle_min as nat, c);
    lemma_decimal_lacks(b.count as nat, c);
    lemma_object_lacks(bucket_object(b), c);
}

/// The session histogram has no colour in any machine-readable format, if the path of
/// the application has none.
pub proof fn lemma_buckets_text_is_colourless(body: Seq<char>, path: Seq<char>, fmt: OutputFmt)
    requires
        fmt != OutputFmt::Table,
        is_colourless(path),
    ensures
        is_colourless(buckets_text(session_buckets(body, path), fmt)),
{
    let v = session_buckets(body, path);
    let lines = bucket_lines(v, fmt);
    lemma_session_buckets(body, path);
    assert forall|i: int| 0 <= i < lines.len() implies is_colourless(#[trigger] lines[i]) by {
        assert(v[i].path == path);
        lemma_bucket_line_lacks(v[i], fmt, '\u{1b}');
    }
    lemma_line_block_keeps(lines, '\u{1b}');
    lemma_array_is_colourless(lines);
}

proof fn lemma_written_lack(lines: Seq<Seq<char>>, c: char)
    requires
        forall|i: int| 0 <= i < lines.len() ==> !(#[trigger] lines[i]).contains(c),
    ensures
        forall|i: int|
            0 <= i < written(lines).len() ==> !(#[trigger] written(lines)[i]).contains(c),
    decreases lines.len(),
{
    if lines.len() > 0 {
        let rest = lines.drop_first();
        assert forall|i: int| 0 <= i < rest.len() implies !(#[trigger] rest[i]).contains(c) by {
            assert(rest[i] == lines[i + 1]);
        }
        lemma_written_lack(rest, c);
        assert(!lines[0].contains(c));
        if !is_blank(lines.first()) {
            let tail = written(rest);
            assert forall|i: int| 0 <= i < written(lines).len() implies !(
            #[trigger] written(lines)[i]).contains(c) by {
                if i > 0 {
                    assert(written(lines)[i] == tail[i - 1]);
                }
            }
        }
    }
}

/// The report of leaking applications has no colour in any machine-readable format,
/// if the response has none, and tells people nothing.
pub proof fn lemma_leak_report_is_colourless(o: Output, body: Seq<char>, fmt: OutputFmt)
    requires
        fmt != OutputFmt::Table,
        is_colourless(body),
        is_leak_report(o, leakers_of(body), fmt),
    ensures
        is_colourless(o.out@),
        o.err@ == Seq::<char>::empty(),
{
    let v = leakers_of(body);
    lemma_rest_lines_keep(body, '\u{1b}');
    lemma_written_lack(rest_lines_of(body), '\u{1b}');
    lemma_line_block_keeps(v, '\u{1b}');
    let items = json_items(v);
    assert forall|i: int| 0 <= i < items.len() implies is_colourless(#[trigger] items[i]) by {
        lemma_object_lacks(leak_object(v[i]), '\u{1b}');
    }
    lemma_array_is_colourless(items);
}

/// Each line of the report is one application, in plain output and in tab-separated
/// values, up to a carriage return at its end.
pub proof fn lemma_leak_report_lines(o: Output, body: Seq<char>, fmt: OutputFmt)
    requires
        fmt == OutputFmt::Plain || fmt == OutputFmt::Tsv,
        is_leak_report(o, leakers_of(body), fmt),
    ensures
        lines_of(o.out@) == leakers_of(body).map_values(|l: Seq<char>| chomped(l)),
{
    lemma_rest_lines_have_no_feed(body);
    lemma_written_lack(rest_lines_of(body), '\n');
    lemma_lines_of_block_chomped(leakers_of(body));
}

/// Each line of the session histogram is one row, in plain output and in
/// tab-separated values, if the path of the application is on one line.
pub proof fn lemma_buckets_text_lines(body: Seq<char>, path: Seq<char>, fmt: OutputFmt)
    requires
        fmt == OutputFmt::Plain || fmt == OutputFmt::Tsv,
        is_line(path),
    ensures
        lines_of(buckets_text(session_buckets(body, path), fmt)) == bucket_lines(
            session_buckets(body, path),
            fmt,
        ),
{
    let v = session_buckets(body, path);
    let lines = bucket_lines(v, fmt);
    lemma_session_buckets(body, path);
    reveal_strlit(" path=");
    reveal_strlit("\t");
    assert forall|i: int| 0 <= i < lines.len() implies is_line(#[trigger] lines[i]) by {
        assert(v[i].path == path);
        lemma_bucket_line_lacks(v[i], fmt, '\n');
    }
    lemma_lines_of_block(lines);
}

/// The list of applications in JSON is an array with the record of each application.
pub proof fn lemma_apps_json(r: Seq<char>, v: Seq<AppEntryView>)
    requires
        is_apps_text(r, v, OutputFmt::Json),
    ensures
        json_records(r) == Some(v.map_values(|a: AppEntryView| app_object(a))),
{
    let objects = v.map_values(|a: AppEntryView| app_object(a));
    assert(app_lines(v, OutputFmt::Json) == object_texts(objects));
    lemma_json_records(objects);
}

/// Server information in JSON is an array with the record of each pair.
pub proof fn lemma_pairs_json(r: Seq<char>, v: Seq<PairView>)
    requires
        is_pairs_text(r, v, OutputFmt::Json),
    ensures
        json_records(r) == Some(v.map_values(|p: PairView| pair_object(p))),
{
    let objects = v.map_values(|p: PairView| pair_object(p));
    assert(pair_lines(v, OutputFmt::Json) == object_texts(objects));
    lemma_json_records(objects);
}

/// The session histogram in JSON is an array with the record of each row.
pub proof fn lemma_buckets_json(v: Seq<SessionBucketView>)
    ensures
        json_records(buckets_text(v, OutputFmt::Json)) == Some(
            v.map_values(|b: SessionBucketView| bucket_object(b)),
        ),
{
    let objects = v.map_values(|b: SessionBucketView| bucket_object(b));
    assert(bucket_lines(v, OutputFmt::Json) == object_texts(objects));
    lemma_json_records(objects);
}

/// The report of leaking applications in JSON is an array with the record of each
/// application.
pub proof fn lemma_leak_report_json(o: Output, v: Seq<Seq<char>>)
    requires
        is_leak_report(o, v, OutputFmt::Json),
    ensures
        json_records(o.out@) == Some(v.map_values(|path: Seq<char>| leak_object(path))),
{
    let objects = v.map_values(|path: Seq<char>| leak_object(path));
    assert(json_items(v) == object_texts(objects));
    lemma_json_records(objects);
}

/// An application in tab-separated values splits into its four columns, if none but
/// the description holds a tab.
pub proof fn lemma_app_tsv_columns(a: AppEntryView)
    requires
        !a.path.contains('\t'),
        !a.status.contains('\t'),
        !a.sessions.contains('\t'),
    ensures
        split_n_at(app_tsv(a), '\t', 4) == seq![a.path, a.status, a.sessions, a.description],
{
    reveal_strlit("\t");
    let c = a.sessions + seq!['\t'] + a.description;
    let b = a.status + seq!['\t'] + c;
    assert(app_tsv(a) == a.path + seq!['\t'] + b);
    lemma_split_n_first(a.path, b, '\t', 4);
    lemma_split_n_first(a.status, c, '\t', 3);
    lemma_split_n_first(a.sessions, a.description, '\t', 2);
    assert(split_n_at(a.description, '\t', 1) == seq![a.description]);
    assert(split_n_at(app_tsv(a), '\t', 4) == seq![a.path, a.status, a.sessions, a.description]);
}

/// A pair in tab-separated values splits into its key and its value, if the key holds
/// no tab.
pub proof fn lemma_pair_tsv_columns(p: PairView)
    requires
        !p.0.contains('\t'),
    ensures
        split_n_at(pair_tsv(p), '\t', 2) == seq![p.0, p.1],
{
    reveal_strlit("\t");
    assert(pair_tsv(p) == p.0 + seq!['\t'] + p.1);
    lemma_split_n_first(p.0, p.1, '\t', 2);
    assert(split_n_at(p.1, '\t', 1) == seq![p.1]);
    assert(split_n_at(pair_tsv(p), '\t', 2) == seq![p.0, p.1]);
}

/// A line that lists a profile splits into name, URL and user name, if the name and
/// the URL hold no tab.
pub proof fn lemma_listing_line_columns(name: Seq<char>, e: ProfileEntryView)
    requires
        !name.contains('\t'),
        !e.url.contains('\t'),
    ensures
        split_n_at(listing_line(name, e), '\t', 3) == seq![name, e.url, e.username],
{
    reveal_strlit("\t");
    let b = e.url + seq!['\t'] + e.username;
    assert(listing_line(name, e) == name + seq!['\t'] + b);
    lemma_split_n_first(name, b, '\t', 3);
    lemma_split_n_first(e.url, e.username, '\t', 2);
    assert(split_n_at(e.username, '\t', 1) == seq![e.username]);
    assert(split_n_at(listing_line(name, e), '\t', 3) == seq![name, e.url, e.username]);
}

/// The report of a request that was carried out has no colour in any machine-readable
/// format, if the response has none.
pub proof fn lemma_ok_report_is_colourless(r: Seq<char>, body: Seq<char>, fmt: OutputFmt)
    requires
        fmt != OutputFmt::Table,
        is_colourless(body),
        is_marked(r, "✓"@, "1;32"@, " "@ + ok_message(body) + "\n"@, fmt),
    ensures
        is_colourless(r),
{
    broadcast use lemma_append_lacks;

    reveal_strlit("✓");
    reveal_strlit(" ");
    reveal_strlit("\n");
    reveal_strlit("OK");
    reveal_strlit("OK - ");
    lemma_lines_keep(body, '\u{1b}');
    let line = first_line_of(body);
    assert(is_colourless(line));
    if "OK - "@.is_prefix_of(line) {
        lemma_take_skip_keep(line, 5, '\u{1b}');
    }
}

/// The report of a failure has no colour in any machine-readable format, if the
/// message has none.
pub proof fn lemma_failure_is_colourless(r: Seq<char>, message: Seq<char>, fmt: OutputFmt)
    requires
        fmt != OutputFmt::Table,
        is_colourless(message),
        is_marked(r, "✗"@, "1;31"@, " "@ + message + "\n"@, fmt),
    ensures
        is_colourless(r),
{
    broadcast use lemma_append_lacks;

    reveal_strlit("✗");
    reveal_strlit(" ");
    reveal_strlit("\n");
}

/// What is told of a profile that was saved or deleted has no colour in any
/// machine-readable format, if the name of the profile has none.
pub proof fn lemma_confirmation_is_colourless(
    o: Output,
    name: Seq<char>,
    done: Seq<char>,
    fmt: OutputFmt,
)
    requires
        fmt != OutputFmt::Table,
        is_colourless(name),
        is_colourless(done),
        is_confirmation(o, name, done, fmt),
    ensures
        is_colourless(o.out@),
        is_colourless(o.err@),
{
    broadcast use lemma_append_lacks;

    reveal_strlit("✓");
    reveal_strlit(" Profile '");
    reveal_strlit("' ");
    reveal_strlit(".\n");
}

/// The list of profiles has no colour in any machine-readable format, if the profiles
/// have none.
pub proof fn lemma_listing_is_colourless(o: Output, l: NamedEntries, fmt: OutputFmt)
    requires
        fmt != OutputFmt::Table,
        forall|i: int|
            0 <= i < l.len() ==> is_colourless((#[trigger] l[i]).0) && is_colourless(l[i].1.url)
                && is_colourless(l[i].1.username),
        is_listing(o, l, fmt),
    ensures
        is_colourless(o.out@),
        is_colourless(o.err@),
{
    broadcast use lemma_append_lacks;

    reveal_strlit("No profiles saved.");
    reveal_strlit("\n");
    reveal_strlit("\t");
    let lines = listing(l);
    assert forall|i: int| 0 <= i < lines.len() implies is_colourless(#[trigger] lines[i]) by {
        assert(is_colourless(l[i].0));
        assert(lines[i] == l[i].0 + "\t"@ + l[i].1.url + "\t"@ + l[i].1.username);
    }
    lemma_line_block_keeps(lines, '\u{1b}');
}

} // verus!
