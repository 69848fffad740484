//! Output formats and the pieces that machine-readable output is made of.

use vstd::prelude::*;
use vstd::string::*;

use crate::text::{chomped, lemma_first_at_is, lines_of};

verus! {

/// Output format of a command that lists data.
#[derive(Clone, Copy, Debug, PartialEq, Eq, Structural)]
pub enum OutputFmt {
    /// Aligned text with colour, for people.
    Table,
    /// One record per line, without colour.
    Plain,
    /// Tab-separated values, without a header and without colour.
    Tsv,
    /// A JSON array of objects.
    Json,
}

impl Default for OutputFmt {
    fn default() -> (r: Self)
        ensures
            r == OutputFmt::Table,
    {
        OutputFmt::Table
    }
}

impl OutputFmt {
    /// True when all colour and decoration is left out.
    pub fn is_machine(&self) -> (r: bool)
        ensures
            r == (*self != OutputFmt::Table),
    {
        match self {
            OutputFmt::Table => false,
            OutputFmt::Plain => true,
            OutputFmt::Tsv => true,
            OutputFmt::Json => true,
        }
    }
}

/// What a command writes to standard output and to standard error.
#[derive(Debug)]
pub struct Output {
    pub out: String,
    pub err: String,
}

/// The views of a list of texts.
pub open spec fn string_views(v: Seq<String>) -> Seq<Seq<char>> {
    v.map_values(|s: String| s@)
}

/// The lines one after another, each ended by a line feed.
pub open spec fn line_block(lines: Seq<Seq<char>>) -> Seq<char>
    decreases lines.len(),
{
    if lines.len() == 0 {
        Seq::empty()
    } else {
        line_block(lines.drop_last()) + lines.last() + seq!['\n']
    }
}

/// The texts of `parts` one after another, with `sep` between them.
pub open spec fn joined(parts: Seq<Seq<char>>, sep: Seq<char>) -> Seq<char>
    decreases parts.len(),
{
    if parts.len() == 0 {
        Seq::empty()
    } else if parts.len() == 1 {
        parts[0]
    } else {
        joined(parts.drop_last(), sep) + sep + parts.last()
    }
}

/// A JSON array with one entry per line, ended by a line feed.
pub open spec fn json_array_text(entries: Seq<Seq<char>>) -> Seq<char> {
    "[\n"@ + joined(entries, ",\n"@) + "\n]\n"@
}

/// Writes each line with its end.
pub fn block_of_lines(lines: &Vec<String>) -> (r: String)
    ensures
        r@ == line_block(string_views(lines@)),
{
    let mut out = String::new();
    let mut i: usize = 0;
    let ghost views = string_views(lines@);
    assert(views.take(0) == Seq::<Seq<char>>::empty());
    while i < lines.len()
        invariant
            i <= lines@.len(),
            views == string_views(lines@),
            out@ == line_block(views.take(i as int)),
        decreases lines.len() - i,
    {
        out.append(lines[i].as_str());
        out.push('\n');
        assert(views.take(i + 1).drop_last() == views.take(i as int));
        assert(out@ == line_block(views.take(i as int)) + views[i as int] + seq!['\n']);
        i = i + 1;
    }
    assert(views.take(views.len() as int) == views);
    out
}

/// A block of lines holds no character that is in none of them, but for the line feed.
pub proof fn lemma_line_block_keeps(lines: Seq<Seq<char>>, c: char)
    requires
        c != '\n',
        forall|i: int| 0 <= i < lines.len() ==> !(#[trigger] lines[i]).contains(c),
    ensures
        !line_block(lines).contains(c),
    decreases lines.len(),
{
    if lines.len() > 0 {
        let front = lines.drop_last();
        assert forall|i: int| 0 <= i < front.len() implies !(#[trigger] front[i]).contains(c) by {
            assert(front[i] == lines[i]);
        }
        lemma_line_block_keeps(front, c);
        let a = line_block(front);
        let b = lines[lines.len() - 1];
        assert(!b.contains(c));
        let s = line_block(lines);
        assert forall|i: int| 0 <= i < s.len() implies s[i] != c by {
            if i < a.len() {
                assert(s[i] == a[i]);
                assert(a.contains(a[i]));
            } else if i < a.len() + b.len() {
                assert(s[i] == b[i - a.len()]);
                assert(b.contains(b[i - a.len()]));
            }
        }
    }
}

/// A line that stands as it is in a block of lines: it holds no line feed and does not
/// end in a carriage return.
pub open spec fn is_line(s: Seq<char>) -> bool {
    !s.contains('\n') && (s.len() > 0 ==> s.last() != '\r')
}

proof fn lemma_line_block_first(line: Seq<char>, rest: Seq<Seq<char>>)
    ensures
        line_block(seq![line] + rest) == line + seq!['\n'] + line_block(rest),
    decreases rest.len(),
{
    let all = seq![line] + rest;
    if rest.len() == 0 {
        assert(all.drop_last() == Seq::<Seq<char>>::empty());
        assert(line_block(Seq::<Seq<char>>::empty()) == Seq::<char>::empty());
        assert(line_block(all) == Seq::<char>::empty() + line + seq!['\n']);
        assert(line_block(all) == line + seq!['\n'] + line_block(rest));
    } else {
        lemma_line_block_first(line, rest.drop_last());
        assert(all.drop_last() == seq![line] + rest.drop_last());
        assert(line_block(all) == line + seq!['\n'] + line_block(rest));
    }
}

/// A block of lines without line feeds has those lines, each without the carriage
/// return at its end.
pub proof fn lemma_lines_of_block_chomped(lines: Seq<Seq<char>>)
    requires
        forall|i: int| 0 <= i < lines.len() ==> !(#[trigger] lines[i]).contains('\n'),
    ensures
        lines_of(line_block(lines)) == lines.map_values(|l: Seq<char>| chomped(l)),
    decreases lines.len(),
{
    if lines.len() > 0 {
        let first = lines[0];
        let rest = lines.drop_first();
        assert(lines == seq![first] + rest);
        lemma_line_block_first(first, rest);
        let s = line_block(lines);
        assert(!lines[0].contains('\n'));
        assert(s[first.len() as int] == '\n');
        assert forall|i: int| 0 <= i < first.len() implies s[i] != '\n' by {
            assert(s[i] == first[i]);
            assert(first.contains(first[i]));
        }
        lemma_first_at_is(s, '\n', first.len() as int);
        assert(s.take(first.len() as int) == first);
        assert(s.skip(first.len() as int + 1) == line_block(rest));
        assert forall|i: int| 0 <= i < rest.len() implies !(#[trigger] rest[i]).contains('\n') by {
            assert(rest[i] == lines[i + 1]);
        }
        lemma_lines_of_block_chomped(rest);
        assert(lines.map_values(|l: Seq<char>| chomped(l)) == seq![chomped(first)]
            + rest.map_values(|l: Seq<char>| chomped(l)));
    }
}

/// A block of lines has those lines.
pub proof fn lemma_lines_of_block(lines: Seq<Seq<char>>)
    requires
        forall|i: int| 0 <= i < lines.len() ==> is_line(#[trigger] lines[i]),
    ensures
        lines_of(line_block(lines)) == lines,
{
    lemma_lines_of_block_chomped(lines);
    assert forall|i: int| 0 <= i < lines.len() implies chomped(#[trigger] lines[i]) == lines[i] by {
        assert(is_line(lines[i]));
    }
    assert(lines.map_values(|l: Seq<char>| chomped(l)) == lines);
}

/// Joins texts with a separator between them.
pub fn join(parts: &Vec<String>, sep: &str) -> (r: String)
    ensures
        r@ == joined(string_views(parts@), sep@),
{
    let mut out = String::new();
    let mut i: usize = 0;
    let ghost views = string_views(parts@);
    assert(views.take(0) == Seq::<Seq<char>>::empty());
    while i < parts.len()
        invariant
            i <= parts@.len(),
            views == string_views(parts@),
            out@ == joined(views.take(i as int), sep@),
        decreases parts.len() - i,
    {
        assert(views.take(i + 1).drop_last() == views.take(i as int));
        if i > 0 {
            out.append(sep);
        }
        out.append(parts[i].as_str());
        assert(Seq::<char>::empty() + views[i as int] == views[i as int]);
        i = i + 1;
    }
    assert(views.take(views.len() as int) == views);
    out
}

/// Writes a JSON array of the given entries.
pub fn json_array(entries: &Vec<String>) -> (r: String)
    ensures
        r@ == json_array_text(string_views(entries@)),
{
    let mut out = "[\n".to_owned();
    let body = join(entries, ",\n");
    out.append(body.as_str());
    out.append("\n]\n");
    out
}

/// One text after another.
pub fn after(head: String, rest: &str) -> (r: String)
    ensures
        r@ == head@ + rest@,
{
    let mut out = head;
    out.append(rest);
    out
}

/// Ends a text with a line feed.
pub fn end_line(text: String) -> (r: String)
    ensures
        r@ == text@.push('\n'),
{
    let mut out = text;
    out.push('\n');
    out
}

/// A block of lines is each line and its line feed, one after another.
pub proof fn lemma_line_block(line: Seq<char>, rest: Seq<Seq<char>>)
    ensures
        line_block(Seq::<Seq<char>>::empty()) == Seq::<char>::empty(),
        line_block(seq![line] + rest) == line + seq!['\n'] + line_block(rest),
{
    lemma_line_block_first(line, rest);
}

/// Texts are joined with the separator between each two of them, and nowhere else.
pub proof fn lemma_joined(parts: Seq<Seq<char>>, last: Seq<char>, sep: Seq<char>)
    ensures
        joined(Seq::<Seq<char>>::empty(), sep) == Seq::<char>::empty(),
        joined(seq![last], sep) == last,
        parts.len() > 0 ==> joined(parts.push(last), sep) == joined(parts, sep) + sep + last,
{
    assert(parts.push(last).drop_last() == parts);
}

/// A JSON array has its entries between brackets, a comma after each but the last, and
/// one to a line.
pub proof fn lemma_json_array(entries: Seq<Seq<char>>, last: Seq<char>)
    ensures
        json_array_text(Seq::<Seq<char>>::empty()) == "[\n"@ + "\n]\n"@,
        json_array_text(seq![last]) == "[\n"@ + last + "\n]\n"@,
        entries.len() > 0 ==> json_array_text(entries.push(last)) == "[\n"@ + joined(
            entries,
            ",\n"@,
        ) + ",\n"@ + last + "\n]\n"@,
{
    lemma_joined(entries, last, ",\n"@);
    assert("[\n"@ + Seq::<char>::empty() + "\n]\n"@ == "[\n"@ + "\n]\n"@);
    if entries.len() > 0 {
        assert(json_array_text(entries.push(last)) == "[\n"@ + joined(entries, ",\n"@) + ",\n"@
            + last + "\n]\n"@);
    }
}

/// The contents of a list of texts are those of each one, in its place.
pub proof fn lemma_string_views(v: Seq<String>, i: int)
    requires
        0 <= i < v.len(),
    ensures
        string_views(v).len() == v.len(),
        string_views(v)[i] == v[i]@,
{
}

} // verus!
