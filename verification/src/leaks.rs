//! Applications that leak memory across reloads.

use vstd::prelude::*;

use crate::json::{
    field_views, json_object, object_text, JsonObjectView, JsonValue, JsonValueView,
};
use crate::output::{
    after, block_of_lines, json_array, json_array_text, line_block, string_views, Output, OutputFmt,
};
use crate::style::{green_bold, is_painted, is_painted_before, red_bold, yellow};
use crate::text::{
    blank, chars_of, lemma_lines_of_append, lemma_written_append, lines_of, rest_lines,
    rest_lines_of, slice_views, text_of, written,
};

verus! {

/// The applications of a response: its lines after the first that are not blank.
pub open spec fn leakers_of(body: Seq<char>) -> Seq<Seq<char>> {
    written(rest_lines_of(body))
}

/// Reads the applications of the `/findleaks` response.
pub fn parse_leakers(body: &str) -> (r: Vec<String>)
    ensures
        string_views(r@) == leakers_of(body@),
{
    let cs = chars_of(body);
    let ls = rest_lines(cs.as_slice());
    let mut leakers: Vec<String> = Vec::new();
    let ghost views = slice_views(ls@);
    assert(views.skip(0) == views);
    assert(string_views(leakers@) + written(views) == written(views));
    let mut i: usize = 0;
    while i < ls.len()
        invariant
            i <= ls@.len(),
            views == slice_views(ls@),
            string_views(leakers@) + written(views.skip(i as int)) == written(views),
        decreases ls.len() - i,
    {
        let ghost rest = views.skip(i + 1);
        assert(views.skip(i as int).drop_first() == rest);
        let ghost before = string_views(leakers@);
        if !blank(ls[i]) {
            leakers.push(text_of(ls[i]));
            assert(string_views(leakers@) == before.push(views[i as int]));
            assert(before + (seq![views[i as int]] + written(rest)) == string_views(leakers@)
                + written(rest));
        }
        i = i + 1;
    }
    assert(views.skip(i as int).len() == 0);
    assert(string_views(leakers@) + written(views.skip(i as int)) == string_views(leakers@));
    leakers
}

/// Lines with a bullet before each text.
pub open spec fn bullets(shown: Seq<Seq<char>>) -> Seq<Seq<char>> {
    shown.map_values(|s: Seq<char>| "  ● "@ + s)
}

/// `shown` holds each text, in yellow where colours are on.
pub open spec fn is_shown_yellow(v: Seq<Seq<char>>, shown: Seq<Seq<char>>) -> bool {
    &&& shown.len() == v.len()
    &&& forall|i: int| 0 <= i < v.len() ==> is_painted(#[trigger] shown[i], v[i], "33"@)
}

/// The record of an application.
pub open spec fn leak_object(path: Seq<char>) -> JsonObjectView {
    seq![("path"@, JsonValueView::Text(path))]
}

/// Applications as JSON objects.
pub open spec fn json_items(v: Seq<Seq<char>>) -> Seq<Seq<char>> {
    v.map_values(|path: Seq<char>| object_text(leak_object(path)))
}

/// `o` reports the applications in a given format.
pub open spec fn is_leak_report(o: Output, v: Seq<Seq<char>>, fmt: OutputFmt) -> bool {
    match fmt {
        OutputFmt::Table => if v.len() == 0 {
            &&& o.out@ == Seq::<char>::empty()
            &&& is_painted_before(o.err@, "✓"@, "1;32"@, " No memory leakers found.\n"@)
        } else {
            &&& exists|shown: Seq<Seq<char>>| #[trigger]
                is_shown_yellow(v, shown) && o.out@ == line_block(bullets(shown))
            &&& is_painted_before(o.err@, "Memory leaking applications:"@, "1;31"@, "\n"@)
        },
        OutputFmt::Json => o.out@ == json_array_text(json_items(v)) && o.err@ == Seq::<
            char,
        >::empty(),
        _ => o.out@ == line_block(v) && o.err@ == Seq::<char>::empty(),
    }
}

fn show_yellow(texts: &Vec<String>) -> (r: Vec<String>)
    ensures
        is_shown_yellow(string_views(texts@), string_views(r@)),
{
    let mut shown: Vec<String> = Vec::new();
    let mut i: usize = 0;
    while i < texts.len()
        invariant
            i <= texts@.len(),
            shown@.len() == i,
            forall|j: int| 0 <= j < i ==> is_painted((#[trigger] shown@[j])@, texts@[j]@, "33"@),
        decreases texts.len() - i,
    {
        shown.push(yellow(texts[i].as_str()));
        i = i + 1;
    }
    assert forall|j: int| 0 <= j < string_views(texts@).len() implies is_painted(
        #[trigger] string_views(shown@)[j],
        string_views(texts@)[j],
        "33"@,
    ) by {
        assert(string_views(shown@)[j] == shown@[j]@);
    }
    shown
}

/// Puts a bullet before each text.
pub fn bullet_lines(shown: &Vec<String>) -> (r: Vec<String>)
    ensures
        string_views(r@) == bullets(string_views(shown@)),
{
    let mut lines: Vec<String> = Vec::new();
    let ghost views = string_views(shown@);
    assert(string_views(lines@) == bullets(views.take(0)));
    let mut i: usize = 0;
    while i < shown.len()
        invariant
            i <= shown@.len(),
            views == string_views(shown@),
            string_views(lines@) == bullets(views.take(i as int)),
        decreases shown.len() - i,
    {
        let ghost before = string_views(lines@);
        let line = after("  ● ".to_owned(), shown[i].as_str());
        lines.push(line);
        assert(string_views(lines@) == before.push("  ● "@ + views[i as int]));
        assert(bullets(views.take(i + 1)) == bullets(views.take(i as int)).push(
            "  ● "@ + views[i as int],
        ));
        i = i + 1;
    }
    assert(views.take(views.len() as int) == views);
    lines
}

fn write_items(texts: &Vec<String>) -> (r: Vec<String>)
    ensures
        string_views(r@) == json_items(string_views(texts@)),
{
    let mut items: Vec<String> = Vec::new();
    let ghost views = string_views(texts@);
    assert(string_views(items@) == json_items(views.take(0)));
    let mut i: usize = 0;
    while i < texts.len()
        invariant
            i <= texts@.len(),
            views == string_views(texts@),
            string_views(items@) == json_items(views.take(i as int)),
        decreases texts.len() - i,
    {
        let ghost before = string_views(items@);
        let mut fields: Vec<(String, JsonValue)> = Vec::new();
        fields.push(("path".to_owned(), JsonValue::Text(texts[i].clone())));
        assert(field_views(fields@) == leak_object(views[i as int]));
        items.push(json_object(&fields));
        assert(string_views(items@) == before.push(object_text(leak_object(views[i as int]))));
        assert(json_items(views.take(i + 1)) == json_items(views.take(i as int)).push(
            object_text(leak_object(views[i as int])),
        ));
        i = i + 1;
    }
    assert(views.take(views.len() as int) == views);
    items
}

/// Reports the applications of the `/findleaks` response.
pub fn cmd_find_leakers(body: &str, fmt: &OutputFmt) -> (r: Output)
    ensures
        is_leak_report(r, leakers_of(body@), *fmt),
{
    let leakers = parse_leakers(body);
    match fmt {
        OutputFmt::Table => {
            if leakers.len() == 0 {
                Output {
                    out: String::new(),
                    err: after(green_bold("✓"), " No memory leakers found.\n"),
                }
            } else {
                let shown = show_yellow(&leakers);
                let out = block_of_lines(&bullet_lines(&shown));
                assert(is_shown_yellow(string_views(leakers@), string_views(shown@)));
                Output { out, err: after(red_bold("Memory leaking applications:"), "\n") }
            }
        },
        OutputFmt::Json => Output { out: json_array(&write_items(&leakers)), err: String::new() },
        _ => Output { out: block_of_lines(&leakers), err: String::new() },
    }
}

/// Leaking applications are read line by line: lines that follow a response add theirs.
pub proof fn lemma_leakers_line_by_line(body: Seq<char>, more: Seq<char>)
    requires
        body.len() > 0,
        body.last() == '\n',
    ensures
        leakers_of(body + more) == leakers_of(body) + written(lines_of(more)),
{
    lemma_lines_of_append(body, more);
    lemma_written_append(rest_lines_of(body), lines_of(more));
}

} // verus!
