//! What is written of each record, in each format.

use vstd::prelude::*;

use crate::apps::{app_cells, app_lines, is_apps_text, is_shown_status, AppEntryView};
use crate::info::{is_pairs_text, is_shown_key, pair_lines, pair_rows, PairView};
use crate::json::{json_records, JsonValueView};
use crate::leaks::{bullets, is_leak_report, is_shown_yellow};
use crate::machine::{
    lemma_apps_json, lemma_buckets_json, lemma_leak_report_json, lemma_pairs_json,
};
use crate::number::decimal_text;
use crate::output::{line_block, Output, OutputFmt};
use crate::profile_commands::{is_confirmation, is_listing, listing};
use crate::profiles::NamedEntries;
use crate::sessions::{bucket_cells, bucket_lines, buckets_text, SessionBucketView};
use crate::style::{is_bold_field, is_painted, is_painted_before, styled};
use crate::table::table_text;

verus! {

/// In plain output every application, and nothing else, has a line with its four parts,
/// separated by spaces; in tab-separated values they are separated by tabs.
pub proof fn lemma_apps_are_written(r: Seq<char>, v: Seq<AppEntryView>)
    ensures
        is_apps_text(r, v, OutputFmt::Plain) ==> r == line_block(
            Seq::new(
                v.len(),
                |i: int|
                    v[i].path + " "@ + v[i].status + " "@ + v[i].sessions + " "@
                        + v[i].description,
            ),
        ),
        is_apps_text(r, v, OutputFmt::Tsv) ==> r == line_block(
            Seq::new(
                v.len(),
                |i: int|
                    v[i].path + "\t"@ + v[i].status + "\t"@ + v[i].sessions + "\t"@
                        + v[i].description,
            ),
        ),
{
    assert(app_lines(v, OutputFmt::Plain) == Seq::new(
        v.len(),
        |i: int|
            v[i].path + " "@ + v[i].status + " "@ + v[i].sessions + " "@ + v[i].description,
    ));
    assert(app_lines(v, OutputFmt::Tsv) == Seq::new(
        v.len(),
        |i: int|
            v[i].path + "\t"@ + v[i].status + "\t"@ + v[i].sessions + "\t"@ + v[i].description,
    ));
}

/// A JSON reader finds an object for every application, and nothing else, with its four
/// parts.
pub proof fn lemma_apps_are_json(r: Seq<char>, v: Seq<AppEntryView>)
    requires
        is_apps_text(r, v, OutputFmt::Json),
    ensures
        json_records(r) == Some(
            Seq::new(
                v.len(),
                |i: int|
                    seq![
                        ("path"@, JsonValueView::Text(v[i].path)),
                        ("status"@, JsonValueView::Text(v[i].status)),
                        ("sessions"@, JsonValueView::Text(v[i].sessions)),
                        ("description"@, JsonValueView::Text(v[i].description)),
                    ],
            ),
        ),
{
    lemma_apps_json(r, v);
    let found = json_records(r)->0;
    assert(found == Seq::new(
        v.len(),
        |i: int|
            seq![
                ("path"@, JsonValueView::Text(v[i].path)),
                ("status"@, JsonValueView::Text(v[i].status)),
                ("sessions"@, JsonValueView::Text(v[i].sessions)),
                ("description"@, JsonValueView::Text(v[i].description)),
            ],
    ));
}

/// The table of applications has a header and a row for every application, and nothing
/// else, with its four parts; the status is shown plainly, or in green when running, in
/// red when stopped and in yellow otherwise.
pub proof fn lemma_apps_are_a_table(r: Seq<char>, v: Seq<AppEntryView>)
    requires
        is_apps_text(r, v, OutputFmt::Table),
    ensures
        exists|cells: Seq<Seq<Seq<char>>>|
            {
                &&& r == (#[trigger] table_text(cells)).push('\n')
                &&& cells.len() == v.len() + 1
                &&& cells[0] == seq!["Path"@, "Status"@, "Sessions"@, "Description"@]
                &&& forall|i: int|
                    0 <= i < v.len() ==> {
                        &&& cells[i + 1].len() == 4
                        &&& cells[i + 1][0] == (#[trigger] v[i]).path
                        &&& is_painted(
                            cells[i + 1][1],
                            v[i].status,
                            if v[i].status == "running"@ {
                                "32"@
                            } else if v[i].status == "stopped"@ {
                                "31"@
                            } else {
                                "33"@
                            },
                        )
                        &&& cells[i + 1][2] == v[i].sessions
                        &&& cells[i + 1][3] == v[i].description
                    }
            },
{
    let shown = choose|shown: Seq<Seq<char>>| #[trigger]
        is_shown_status(v, shown) && r == table_text(app_cells(v, shown)).push('\n');
    let cells = app_cells(v, shown);
    assert(r == table_text(cells).push('\n'));
    assert(cells[0] == seq!["Path"@, "Status"@, "Sessions"@, "Description"@]);
    assert forall|i: int| 0 <= i < v.len() implies {
        &&& cells[i + 1].len() == 4
        &&& cells[i + 1][0] == (#[trigger] v[i]).path
        &&& is_painted(
            cells[i + 1][1],
            v[i].status,
            if v[i].status == "running"@ {
                "32"@
            } else if v[i].status == "stopped"@ {
                "31"@
            } else {
                "33"@
            },
        )
        &&& cells[i + 1][2] == v[i].sessions
        &&& cells[i + 1][3] == v[i].description
    } by {
        assert(cells[i + 1] == seq![v[i].path, shown[i], v[i].sessions, v[i].description]);
    }
}

/// In plain output every pair, and nothing else, has a line `key=value`; in
/// tab-separated values the two are separated by a tab.
pub proof fn lemma_pairs_are_written(r: Seq<char>, v: Seq<PairView>)
    ensures
        is_pairs_text(r, v, OutputFmt::Plain) ==> r == line_block(
            Seq::new(v.len(), |i: int| v[i].0 + "="@ + v[i].1),
        ),
        is_pairs_text(r, v, OutputFmt::Tsv) ==> r == line_block(
            Seq::new(v.len(), |i: int| v[i].0 + "\t"@ + v[i].1),
        ),
{
    assert(pair_lines(v, OutputFmt::Plain) == Seq::new(
        v.len(),
        |i: int| v[i].0 + "="@ + v[i].1,
    ));
    assert(pair_lines(v, OutputFmt::Tsv) == Seq::new(v.len(), |i: int| v[i].0 + "\t"@ + v[i].1));
}

/// A JSON reader finds an object for every pair, and nothing else, with its key and its
/// value.
pub proof fn lemma_pairs_are_json(r: Seq<char>, v: Seq<PairView>)
    requires
        is_pairs_text(r, v, OutputFmt::Json),
    ensures
        json_records(r) == Some(
            Seq::new(
                v.len(),
                |i: int|
                    seq![
                        ("key"@, JsonValueView::Text(v[i].0)),
                        ("value"@, JsonValueView::Text(v[i].1)),
                    ],
            ),
        ),
{
    lemma_pairs_json(r, v);
    assert(json_records(r)->0 == Seq::new(
        v.len(),
        |i: int|
            seq![("key"@, JsonValueView::Text(v[i].0)), ("value"@, JsonValueView::Text(v[i].1))],
    ));
}

/// `row` shows a pair: its key and a colon in a field, plainly or in bold, and its value.
pub open spec fn is_pair_row(row: Seq<char>, p: PairView) -> bool {
    exists|field: Seq<char>| #[trigger]
        is_bold_field(field, p.0 + ":"@, 30) && row == "  "@ + field + " "@ + p.1
}

/// For people every pair, and nothing else, has a line: the key and a colon in a field
/// of thirty characters, and the value.
pub proof fn lemma_pairs_are_rows(r: Seq<char>, v: Seq<PairView>)
    requires
        is_pairs_text(r, v, OutputFmt::Table),
    ensures
        exists|rows: Seq<Seq<char>>|
            {
                &&& r == #[trigger] line_block(rows)
                &&& rows.len() == v.len()
                &&& forall|i: int| 0 <= i < v.len() ==> is_pair_row(#[trigger] rows[i], v[i])
            },
{
    let fields = choose|fields: Seq<Seq<char>>| #[trigger]
        is_shown_key(v, fields) && r == line_block(pair_rows(v, fields));
    let rows = pair_rows(v, fields);
    assert(r == line_block(rows));
    assert forall|i: int| 0 <= i < v.len() implies is_pair_row(#[trigger] rows[i], v[i]) by {
        assert(is_bold_field(fields[i], v[i].0 + ":"@, 30));
        assert(rows[i] == "  "@ + fields[i] + " "@ + v[i].1);
    }
}

/// In plain output every row of the histogram, and nothing else, has a line with its
/// idle minutes, its count and its path; in tab-separated values the three are
/// separated by tabs.
pub proof fn lemma_buckets_are_written(v: Seq<SessionBucketView>)
    ensures
        buckets_text(v, OutputFmt::Plain) == line_block(
            Seq::new(
                v.len(),
                |i: int|
                    "idle="@ + decimal_text(v[i].idle_min as nat) + " count="@ + decimal_text(
                        v[i].count as nat,
                    ) + " path="@ + v[i].path,
            ),
        ),
        buckets_text(v, OutputFmt::Tsv) == line_block(
            Seq::new(
                v.len(),
                |i: int|
                    decimal_text(v[i].idle_min as nat) + "\t"@ + decimal_text(v[i].count as nat)
                        + "\t"@ + v[i].path,
            ),
        ),
{
    assert(bucket_lines(v, OutputFmt::Plain) == Seq::new(
        v.len(),
        |i: int|
            "idle="@ + decimal_text(v[i].idle_min as nat) + " count="@ + decimal_text(
                v[i].count as nat,
            ) + " path="@ + v[i].path,
    ));
    assert(bucket_lines(v, OutputFmt::Tsv) == Seq::new(
        v.len(),
        |i: int|
            decimal_text(v[i].idle_min as nat) + "\t"@ + decimal_text(v[i].count as nat) + "\t"@
                + v[i].path,
    ));
}

/// A JSON reader finds an object for every row of the histogram, and nothing else, with
/// its two numbers and its path.
pub proof fn lemma_buckets_are_json(v: Seq<SessionBucketView>)
    ensures
        json_records(buckets_text(v, OutputFmt::Json)) == Some(
            Seq::new(
                v.len(),
                |i: int|
                    seq![
                        ("idle_minutes"@, JsonValueView::Number(v[i].idle_min as nat)),
                        ("count"@, JsonValueView::Number(v[i].count as nat)),
                        ("path"@, JsonValueView::Text(v[i].path)),
                    ],
            ),
        ),
{
    lemma_buckets_json(v);
    assert(json_records(buckets_text(v, OutputFmt::Json))->0 == Seq::new(
        v.len(),
        |i: int|
            seq![
                ("idle_minutes"@, JsonValueView::Number(v[i].idle_min as nat)),
                ("count"@, JsonValueView::Number(v[i].count as nat)),
                ("path"@, JsonValueView::Text(v[i].path)),
            ],
    ));
}

/// The table of the histogram has a header and a row for every row, and nothing else,
/// with its two numbers.
pub proof fn lemma_buckets_are_a_table(v: Seq<SessionBucketView>)
    ensures
        buckets_text(v, OutputFmt::Table) == table_text(
            seq![seq!["Idle (min)"@, "Sessions"@]] + Seq::new(
                v.len(),
                |i: int| seq![decimal_text(v[i].idle_min as nat), decimal_text(v[i].count as nat)],
            ),
        ).push('\n'),
{
    assert(bucket_cells(v) == seq![seq!["Idle (min)"@, "Sessions"@]] + Seq::new(
        v.len(),
        |i: int| seq![decimal_text(v[i].idle_min as nat), decimal_text(v[i].count as nat)],
    ));
}

/// To a machine every leaking application, and nothing else, is reported: on a line of
/// its own, or as a JSON object with its path.
pub proof fn lemma_leaks_are_written(o: Output, v: Seq<Seq<char>>, fmt: OutputFmt)
    requires
        fmt != OutputFmt::Table,
        is_leak_report(o, v, fmt),
    ensures
        o.err@ == Seq::<char>::empty(),
        fmt != OutputFmt::Json ==> o.out@ == line_block(v),
        fmt == OutputFmt::Json ==> json_records(o.out@) == Some(
            Seq::new(v.len(), |i: int| seq![("path"@, JsonValueView::Text(v[i]))]),
        ),
{
    if fmt == OutputFmt::Json {
        lemma_leak_report_json(o, v);
        assert(json_records(o.out@)->0 == Seq::new(
            v.len(),
            |i: int| seq![("path"@, JsonValueView::Text(v[i]))],
        ));
    }
}

/// `row` shows a text after a bullet, plainly or in yellow.
pub open spec fn is_bullet(row: Seq<char>, s: Seq<char>) -> bool {
    exists|shown: Seq<char>| #[trigger] is_painted(shown, s, "33"@) && row == "  ● "@ + shown
}

/// To people every leaking application, and nothing else, is reported on a line with a
/// bullet, plainly or in yellow; they are told where there is none.
pub proof fn lemma_leaks_are_told(o: Output, v: Seq<Seq<char>>)
    requires
        is_leak_report(o, v, OutputFmt::Table),
    ensures
        v.len() == 0 ==> o.out@ == Seq::<char>::empty() && is_painted_before(
            o.err@,
            "✓"@,
            "1;32"@,
            " No memory leakers found.\n"@,
        ),
        v.len() > 0 ==> is_painted_before(
            o.err@,
            "Memory leaking applications:"@,
            "1;31"@,
            "\n"@,
        ),
        v.len() > 0 ==> exists|rows: Seq<Seq<char>>|
            {
                &&& o.out@ == #[trigger] line_block(rows)
                &&& rows.len() == v.len()
                &&& forall|i: int| 0 <= i < v.len() ==> is_bullet(#[trigger] rows[i], v[i])
            },
{
    if v.len() > 0 {
        let shown = choose|shown: Seq<Seq<char>>| #[trigger]
            is_shown_yellow(v, shown) && o.out@ == line_block(bullets(shown));
        let rows = bullets(shown);
        assert(o.out@ == line_block(rows));
        assert forall|i: int| 0 <= i < v.len() implies is_bullet(#[trigger] rows[i], v[i]) by {
            assert(is_painted(shown[i], v[i], "33"@));
            assert(rows[i] == "  ● "@ + shown[i]);
        }
    }
}

/// Every saved profile, and nothing else, is listed on a line with its name, its URL and
/// its user name, separated by tabs; people are told where there is none.
pub proof fn lemma_profiles_are_listed(o: Output, l: NamedEntries, fmt: OutputFmt)
    requires
        is_listing(o, l, fmt),
    ensures
        l.len() > 0 ==> o.err@ == Seq::<char>::empty() && o.out@ == line_block(
            Seq::new(l.len(), |i: int| l[i].0 + "\t"@ + l[i].1.url + "\t"@ + l[i].1.username),
        ),
        l.len() == 0 ==> o.out@ == Seq::<char>::empty() && (o.err@ == "No profiles saved."@
            + "\n"@ || (fmt == OutputFmt::Table && o.err@ == styled("No profiles saved."@, "33"@)
            + "\n"@)),
{
    assert(listing(l) == Seq::new(
        l.len(),
        |i: int| l[i].0 + "\t"@ + l[i].1.url + "\t"@ + l[i].1.username,
    ));
}

/// What was done to a profile is told with its name, on standard error.
pub proof fn lemma_profile_is_confirmed(
    o: Output,
    name: Seq<char>,
    done: Seq<char>,
    fmt: OutputFmt,
)
    requires
        is_confirmation(o, name, done, fmt),
    ensures
        o.out@ == Seq::<char>::empty(),
        ({
            let rest = " Profile '"@ + name + "' "@ + done + ".\n"@;
            o.err@ == "✓"@ + rest || (fmt == OutputFmt::Table && o.err@ == styled("✓"@, "1;32"@)
                + rest)
        }),
{
}

} // verus!
