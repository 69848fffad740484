//! Server information: pairs of a key and a value.

use vstd::prelude::*;
use vstd::string::*;

use crate::connection::pair_views;
use crate::json::{
    field_views, json_object, object_text, JsonObjectView, JsonValue, JsonValueView,
};
use crate::output::{
    block_of_lines, json_array, json_array_text, line_block, string_views, OutputFmt,
};
use crate::style::{bold_field, is_bold_field};
use crate::text::{
    chars_of, lemma_first_at_is, lemma_lines_of_append, lines_of, rest_lines, rest_lines_of,
    slice_views, split_once, split_once_at, text_of, trim, trimmed, trimmed_start,
};

verus! {

/// A key and its value.
pub type PairView = (Seq<char>, Seq<char>);

/// The pair in a line: what stands before and after its first colon, trimmed.
pub open spec fn line_pair(line: Seq<char>) -> Option<PairView> {
    match split_once_at(line, ':') {
        Some((key, value)) => Some((trimmed(key), trimmed(value))),
        None => None,
    }
}

/// The pairs in some lines; a line without a colon holds none.
pub open spec fn line_pairs(lines: Seq<Seq<char>>) -> Seq<PairView>
    decreases lines.len(),
{
    if lines.len() == 0 {
        Seq::empty()
    } else {
        let before = line_pairs(lines.drop_last());
        match line_pair(lines.last()) {
            Some(p) => before.push(p),
            None => before,
        }
    }
}

/// The pairs of a response: those in the lines after the first.
pub open spec fn info_pairs(body: Seq<char>) -> Seq<PairView> {
    line_pairs(rest_lines_of(body))
}

/// Reads the pairs of the `/serverinfo` response.
pub fn parse_info(body: &str) -> (r: Vec<(String, String)>)
    ensures
        pair_views(r@) == info_pairs(body@),
{
    let cs = chars_of(body);
    let ls = rest_lines(cs.as_slice());
    let mut pairs: Vec<(String, String)> = Vec::new();
    let ghost views = slice_views(ls@);
    assert(pair_views(pairs@) == line_pairs(views.take(0)));
    let mut i: usize = 0;
    while i < ls.len()
        invariant
            i <= ls@.len(),
            views == slice_views(ls@),
            pair_views(pairs@) == line_pairs(views.take(i as int)),
        decreases ls.len() - i,
    {
        assert(views.take(i + 1).drop_last() == views.take(i as int));
        let ghost before = pair_views(pairs@);
        if let Some((key, value)) = split_once(ls[i], ':') {
            pairs.push((text_of(trim(key)), text_of(trim(value))));
            assert(pair_views(pairs@) == before.push((trimmed(key@), trimmed(value@))));
        }
        i = i + 1;
    }
    assert(views.take(views.len() as int) == views);
    pairs
}

/// A pair as a line of plain output.
pub open spec fn pair_plain(p: PairView) -> Seq<char> {
    p.0 + "="@ + p.1
}

/// A pair as tab-separated values.
pub open spec fn pair_tsv(p: PairView) -> Seq<char> {
    p.0 + "\t"@ + p.1
}

/// The record of a pair.
pub open spec fn pair_object(p: PairView) -> JsonObjectView {
    seq![("key"@, JsonValueView::Text(p.0)), ("value"@, JsonValueView::Text(p.1))]
}

/// A pair as a JSON object.
pub open spec fn pair_json(p: PairView) -> Seq<char> {
    object_text(pair_object(p))
}

/// A pair as it is listed in a machine-readable format.
pub open spec fn pair_line(p: PairView, fmt: OutputFmt) -> Seq<char> {
    match fmt {
        OutputFmt::Plain => pair_plain(p),
        OutputFmt::Tsv => pair_tsv(p),
        _ => pair_json(p),
    }
}

/// Pairs as they are listed in a machine-readable format.
pub open spec fn pair_lines(v: Seq<PairView>, fmt: OutputFmt) -> Seq<Seq<char>> {
    v.map_values(|p: PairView| pair_line(p, fmt))
}

/// A pair as a line for people: the key as shown in its field, and the value.
pub open spec fn pair_row(p: PairView, field: Seq<char>) -> Seq<char> {
    "  "@ + field + " "@ + p.1
}

/// Pairs as lines for people.
pub open spec fn pair_rows(v: Seq<PairView>, fields: Seq<Seq<char>>) -> Seq<Seq<char>> {
    Seq::new(v.len(), |i: int| pair_row(v[i], fields[i]))
}

/// `fields` holds each key with a colon, in a field of 30 characters, in bold where
/// colours are on.
pub open spec fn is_shown_key(v: Seq<PairView>, fields: Seq<Seq<char>>) -> bool {
    &&& fields.len() == v.len()
    &&& forall|i: int|
        0 <= i < v.len() ==> is_bold_field(#[trigger] fields[i], v[i].0 + ":"@, 30)
}

/// `r` lists pairs in a given format.
pub open spec fn is_pairs_text(r: Seq<char>, v: Seq<PairView>, fmt: OutputFmt) -> bool {
    match fmt {
        OutputFmt::Table => exists|fields: Seq<Seq<char>>| #[trigger]
            is_shown_key(v, fields) && r == line_block(pair_rows(v, fields)),
        OutputFmt::Json => r == json_array_text(pair_lines(v, fmt)),
        _ => r == line_block(pair_lines(v, fmt)),
    }
}

fn write_pair(key: &str, value: &str, fmt: &OutputFmt) -> (r: String)
    ensures
        r@ == pair_line((key@, value@), *fmt),
{
    match fmt {
        OutputFmt::Plain => {
            let mut out = key.to_owned();
            out.append("=");
            out.append(value);
            out
        },
        OutputFmt::Tsv => {
            let mut out = key.to_owned();
            out.append("\t");
            out.append(value);
            out
        },
        _ => {
            let mut fields: Vec<(String, JsonValue)> = Vec::new();
            fields.push(("key".to_owned(), JsonValue::Text(key.to_owned())));
            fields.push(("value".to_owned(), JsonValue::Text(value.to_owned())));
            assert(field_views(fields@) == pair_object((key@, value@)));
            json_object(&fields)
        },
    }
}

fn write_lines(pairs: &[(String, String)], fmt: &OutputFmt) -> (r: Vec<String>)
    ensures
        string_views(r@) == pair_lines(pair_views(pairs@), *fmt),
{
    let mut lines: Vec<String> = Vec::new();
    let ghost views = pair_views(pairs@);
    assert(string_views(lines@) == pair_lines(views.take(0), *fmt));
    let mut i: usize = 0;
    while i < pairs.len()
        invariant
            i <= pairs@.len(),
            views == pair_views(pairs@),
            string_views(lines@) == pair_lines(views.take(i as int), *fmt),
        decreases pairs.len() - i,
    {
        let ghost before = string_views(lines@);
        lines.push(write_pair(pairs[i].0.as_str(), pairs[i].1.as_str(), fmt));
        assert(string_views(lines@) == before.push(pair_line(views[i as int], *fmt)));
        assert(pair_lines(views.take(i + 1), *fmt) == pair_lines(views.take(i as int), *fmt).push(
            pair_line(views[i as int], *fmt),
        ));
        i = i + 1;
    }
    assert(views.take(views.len() as int) == views);
    lines
}

fn show_keys(pairs: &[(String, String)]) -> (r: Vec<String>)
    ensures
        is_shown_key(pair_views(pairs@), string_views(r@)),
{
    let mut fields: Vec<String> = Vec::new();
    let mut i: usize = 0;
    while i < pairs.len()
        invariant
            i <= pairs@.len(),
            fields@.len() == i,
            forall|j: int|
                0 <= j < i ==> is_bold_field((#[trigger] fields@[j])@, pairs@[j].0@ + ":"@, 30),
        decreases pairs.len() - i,
    {
        let mut label = pairs[i].0.clone();
        label.append(":");
        fields.push(bold_field(label.as_str(), 30));
        i = i + 1;
    }
    assert forall|j: int| 0 <= j < pair_views(pairs@).len() implies is_bold_field(
        #[trigger] string_views(fields@)[j],
        pair_views(pairs@)[j].0 + ":"@,
        30,
    ) by {
        assert(string_views(fields@)[j] == fields@[j]@);
    }
    fields
}

/// The lines for people: each key as shown in the field given for it, and its value.
pub fn info_rows(pairs: &[(String, String)], fields: &Vec<String>) -> (r: Vec<String>)
    requires
        fields@.len() == pairs@.len(),
    ensures
        string_views(r@) == pair_rows(pair_views(pairs@), string_views(fields@)),
{
    let mut lines: Vec<String> = Vec::new();
    let ghost views = pair_views(pairs@);
    let ghost texts = string_views(fields@);
    assert(string_views(lines@) == pair_rows(views.take(0), texts));
    let mut i: usize = 0;
    while i < pairs.len()
        invariant
            i <= pairs@.len(),
            fields@.len() == pairs@.len(),
            views == pair_views(pairs@),
            texts == string_views(fields@),
            string_views(lines@) == pair_rows(views.take(i as int), texts),
        decreases pairs.len() - i,
    {
        let ghost before = string_views(lines@);
        let mut line = "  ".to_owned();
        line.append(fields[i].as_str());
        line.append(" ");
        line.append(pairs[i].1.as_str());
        assert(line@ == pair_row(views[i as int], texts[i as int]));
        lines.push(line);
        assert(string_views(lines@) == before.push(pair_row(views[i as int], texts[i as int])));
        assert(pair_rows(views.take(i + 1), texts) == pair_rows(views.take(i as int), texts).push(
            pair_row(views[i as int], texts[i as int]),
        ));
        i = i + 1;
    }
    assert(views.take(views.len() as int) == views);
    lines
}

/// The text that lists pairs in the given format.
pub fn print_kv(pairs: &[(String, String)], fmt: &OutputFmt) -> (r: String)
    ensures
        is_pairs_text(r@, pair_views(pairs@), *fmt),
{
    match fmt {
        OutputFmt::Table => {
            let fields = show_keys(pairs);
            let r = block_of_lines(&info_rows(pairs, &fields));
            assert(is_shown_key(pair_views(pairs@), string_views(fields@)));
            r
        },
        OutputFmt::Json => json_array(&write_lines(pairs, fmt)),
        _ => block_of_lines(&write_lines(pairs, fmt)),
    }
}

/// A line `key: value` holds that key and that value, whatever colons the value has.
pub proof fn lemma_line_pair(key: Seq<char>, value: Seq<char>)
    requires
        !key.contains(':'),
    ensures
        line_pair(key + ": "@ + value) == Some((trimmed(key), trimmed(value))),
{
    reveal_strlit(": ");
    let line = key + ": "@ + value;
    let k = key.len() as int;
    assert(line[k] == ':');
    assert forall|i: int| 0 <= i < k implies line[i] != ':' by {
        assert(line[i] == key[i]);
        assert(key.contains(key[i]));
    }
    lemma_first_at_is(line, ':', k);
    assert(line.take(k) == key);
    let right = line.skip(k + 1);
    assert(right == seq![' '] + value);
    assert(right.drop_first() == value);
    assert(trimmed_start(right) == trimmed_start(value));
}

proof fn lemma_line_pairs_append(a: Seq<Seq<char>>, b: Seq<Seq<char>>)
    ensures
        line_pairs(a + b) == line_pairs(a) + line_pairs(b),
    decreases b.len(),
{
    if b.len() == 0 {
        assert(a + b == a);
    } else {
        assert((a + b).drop_last() == a + b.drop_last());
        lemma_line_pairs_append(a, b.drop_last());
    }
    assert(line_pairs(a + b) == line_pairs(a) + line_pairs(b));
}

/// Pairs are read line by line: lines that follow a response add theirs.
pub proof fn lemma_pairs_line_by_line(body: Seq<char>, more: Seq<char>)
    requires
        body.len() > 0,
        body.last() == '\n',
    ensures
        info_pairs(body + more) == info_pairs(body) + line_pairs(lines_of(more)),
{
    lemma_lines_of_append(body, more);
    lemma_line_pairs_append(rest_lines_of(body), lines_of(more));
}

} // verus!
