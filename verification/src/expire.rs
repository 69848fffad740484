//! Expiring sessions from a list of paths and idle times, one pair to a line.
//!
//! The caller reads the lines and makes the requests; what a line asks for is decided
//! here.

use vstd::prelude::*;
use vstd::slice::slice_subrange;
use vstd::string::*;

use crate::commands::{cmd_expire_sessions, expire_report};
use crate::error::{TomcatError, TomcatErrorView};
use crate::number::{
    decimal_text, i32_number, integer_text, is_digit, lemma_decimal_text, lemma_i32_round_trip,
    parse_i32, u64_text,
};
use crate::output::line_block;
use crate::text::{
    all_white_space, chars_of, find_space, first_space, is_white_space, lemma_first_space,
    lemma_trimmed_end_first, lemma_trimmed_is, lemma_trimmed_parts, lemma_trimmed_start_skips,
    text_of, trim, trimmed, trimmed_start,
};

verus! {

/// What a line asks for.
#[derive(Debug)]
pub enum ExpireLine {
    /// Nothing.
    Skip,
    /// To expire the sessions at `path` idle for `idle` minutes or more.
    Expire { path: String, idle: i32 },
    /// Nothing that can be read: tell this, and go on.
    Malformed(String),
    /// An idle time that is not a number: fail.
    Invalid(TomcatError),
}

/// The contents of an `ExpireLine`.
pub enum ExpireLineView {
    Skip,
    Expire { path: Seq<char>, idle: int },
    Malformed(Seq<char>),
    Invalid(TomcatErrorView),
}

impl View for ExpireLine {
    type V = ExpireLineView;

    open spec fn view(&self) -> ExpireLineView {
        match self {
            ExpireLine::Skip => ExpireLineView::Skip,
            ExpireLine::Expire { path, idle } => ExpireLineView::Expire {
                path: path@,
                idle: *idle as int,
            },
            ExpireLine::Malformed(warning) => ExpireLineView::Malformed(warning@),
            ExpireLine::Invalid(e) => ExpireLineView::Invalid(e@),
        }
    }
}

/// What a line asks for. Blank lines and lines that start with `#` ask for nothing.
/// Any other line is a path, white space and an idle time in minutes.
pub open spec fn expire_of(line: Seq<char>) -> ExpireLineView {
    let line = trimmed(line);
    if line.len() == 0 || line.first() == '#' {
        ExpireLineView::Skip
    } else {
        let k = first_space(line);
        if k == line.len() {
            ExpireLineView::Malformed("warn: skipping malformed line: "@ + line + "\n"@)
        } else {
            let value = line.skip(k + 1);
            match i32_number(trimmed(value)) {
                Some(idle) => ExpireLineView::Expire { path: line.take(k), idle },
                None => ExpireLineView::Invalid(TomcatErrorView::InvalidIdle { value, line }),
            }
        }
    }
}

/// Reads what a line asks for.
pub fn cmd_expire_from_stdin(line: &str) -> (r: ExpireLine)
    ensures
        r@ == expire_of(line@),
{
    let cs = chars_of(line);
    let text = trim(cs.as_slice());
    if text.len() == 0 || text[0] == '#' {
        return ExpireLine::Skip;
    }
    let k: usize = find_space(text);
    if k == text.len() {
        let mut warning = "warn: skipping malformed line: ".to_owned();
        warning.append(text_of(text).as_str());
        warning.append("\n");
        return ExpireLine::Malformed(warning);
    }
    let value = slice_subrange(text, k + 1, text.len());
    assert(value@ == text@.skip(k + 1));
    match parse_i32(trim(value)) {
        Some(idle) => {
            let path = slice_subrange(text, 0, k);
            assert(path@ == text@.take(k as int));
            ExpireLine::Expire { path: text_of(path), idle }
        },
        None => ExpireLine::Invalid(
            TomcatError::InvalidIdle { value: text_of(value), line: text_of(text) },
        ),
    }
}

/// What to tell at the end.
pub open spec fn processed_text(count: nat) -> Seq<char> {
    "Processed "@ + decimal_text(count) + " expire-session requests.\n"@
}

/// How far a list of paths and idle times has been worked through.
#[derive(Debug)]
pub struct ExpireRun {
    /// Number of requests that were answered.
    pub count: u32,
}

impl ExpireRun {
    /// The start of a list.
    pub fn new() -> (r: Self)
        ensures
            r.count == 0,
    {
        ExpireRun { count: 0 }
    }

    /// Takes the answer to a request; gives the text that reports it.
    pub fn answered(&mut self, body: &str) -> (r: String)
        requires
            old(self).count < u32::MAX,
        ensures
            final(self).count == old(self).count + 1,
            r@ == expire_report(body@).push('\n'),
    {
        self.count = self.count + 1;
        cmd_expire_sessions(body)
    }

    /// What to tell at the end of the list.
    pub fn finish(&self) -> (r: String)
        ensures
            r@ == processed_text(self.count as nat),
            r@ == "Processed "@ + decimal_text(self.count as nat) + " expire-session requests.\n"@,
    {
        let mut out = "Processed ".to_owned();
        out.append(u64_text(self.count as u64).as_str());
        out.append(" expire-session requests.\n");
        out
    }
}

/// What working through a list leads to, up to its end or to its first line that
/// fails: the requests in their order, what is written to standard output and to
/// standard error, and the error.
pub struct ExpireLog {
    pub requests: Seq<(Seq<char>, int)>,
    pub out: Seq<char>,
    pub err: Seq<char>,
    pub error: Option<TomcatErrorView>,
}

/// What working through some lines leads to, where the request with number `k` gets
/// the answer `answers[k]`.
pub open spec fn expire_log(lines: Seq<Seq<char>>, answers: Seq<Seq<char>>) -> ExpireLog
    decreases lines.len(),
{
    if lines.len() == 0 {
        ExpireLog { requests: Seq::empty(), out: Seq::empty(), err: Seq::empty(), error: None }
    } else {
        let log = expire_log(lines.drop_last(), answers);
        if log.error is Some {
            log
        } else {
            match expire_of(lines.last()) {
                ExpireLineView::Skip => log,
                ExpireLineView::Malformed(warning) => ExpireLog { err: log.err + warning, ..log },
                ExpireLineView::Invalid(e) => ExpireLog { error: Some(e), ..log },
                ExpireLineView::Expire { path, idle } => ExpireLog {
                    requests: log.requests.push((path, idle)),
                    out: log.out + expire_report(answers[log.requests.len() as int]).push('\n'),
                    ..log
                },
            }
        }
    }
}

/// The paths and idle times that some lines ask for.
pub open spec fn asked_of(lines: Seq<Seq<char>>) -> Seq<(Seq<char>, int)>
    decreases lines.len(),
{
    if lines.len() == 0 {
        Seq::empty()
    } else {
        let before = asked_of(lines.drop_last());
        match expire_of(lines.last()) {
            ExpireLineView::Expire { path, idle } => before.push((path, idle)),
            _ => before,
        }
    }
}

/// A list with no idle time that fails is worked through to its end: every request
/// that it asks for is made, in its order, and each answer is reported on a line.
pub proof fn lemma_expire_list(lines: Seq<Seq<char>>, answers: Seq<Seq<char>>)
    requires
        forall|i: int| 0 <= i < lines.len() ==> !(expire_of(#[trigger] lines[i]) is Invalid),
        asked_of(lines).len() <= answers.len(),
    ensures
        expire_log(lines, answers).error is None,
        expire_log(lines, answers).requests == asked_of(lines),
        expire_log(lines, answers).out == line_block(
            answers.take(asked_of(lines).len() as int).map_values(
                |body: Seq<char>| expire_report(body),
            ),
        ),
    decreases lines.len(),
{
    let report = |body: Seq<char>| expire_report(body);
    let n = asked_of(lines).len() as int;
    if lines.len() == 0 {
        assert(answers.take(0).map_values(report) == Seq::<Seq<char>>::empty());
    } else {
        let front = lines.drop_last();
        assert forall|i: int| 0 <= i < front.len() implies !(expire_of(
            #[trigger] front[i],
        ) is Invalid) by {
            assert(front[i] == lines[i]);
        }
        lemma_expire_list(front, answers);
        assert(!(expire_of(lines[lines.len() - 1]) is Invalid));
        if expire_of(lines.last()) is Expire {
            let shown = answers.take(n).map_values(report);
            assert(shown.drop_last() == answers.take(n - 1).map_values(report));
            assert(expire_log(lines, answers).out == line_block(shown));
        }
    }
}

/// An idle time that fails ends the work: the lines after it make no difference.
pub proof fn lemma_expire_stops(
    lines: Seq<Seq<char>>,
    more: Seq<Seq<char>>,
    answers: Seq<Seq<char>>,
)
    requires
        expire_log(lines, answers).error is Some,
    ensures
        expire_log(lines + more, answers) == expire_log(lines, answers),
    decreases more.len(),
{
    if more.len() == 0 {
        assert(lines + more == lines);
    } else {
        assert((lines + more).drop_last() == lines + more.drop_last());
        lemma_expire_stops(lines, more.drop_last(), answers);
    }
}

proof fn lemma_first_space_is(s: Seq<char>, k: int)
    requires
        0 <= k < s.len(),
        is_white_space(s[k]),
        forall|i: int| 0 <= i < k ==> !is_white_space(#[trigger] s[i]),
    ensures
        first_space(s) == k,
    decreases k,
{
    if k > 0 {
        assert(!is_white_space(s[0]));
        let rest = s.drop_first();
        assert forall|i: int| 0 <= i < k - 1 implies !is_white_space(#[trigger] rest[i]) by {
            assert(rest[i] == s[i + 1]);
        }
        lemma_first_space_is(rest, k - 1);
    }
}

/// A path, a space and the text of an idle time ask for just that, whatever the path,
/// if it has no white space and does not start with `#`.
pub proof fn lemma_expire_line(path: Seq<char>, idle: i32)
    requires
        path.len() > 0,
        path.first() != '#',
        forall|i: int| 0 <= i < path.len() ==> !is_white_space(#[trigger] path[i]),
    ensures
        expire_of(path + seq![' '] + integer_text(idle as int)) == (ExpireLineView::Expire {
            path,
            idle: idle as int,
        }),
{
    let number = integer_text(idle as int);
    let line = path + seq![' '] + number;
    if idle < 0 {
        lemma_decimal_text((-idle) as nat);
        let digits = decimal_text((-idle) as nat);
        assert(number.last() == digits[digits.len() - 1]);
        assert(is_digit(digits[digits.len() - 1]));
    } else {
        lemma_decimal_text(idle as nat);
        assert(is_digit(number[0]) && is_digit(number[number.len() - 1]));
    }
    lemma_trimmed_is(number);
    assert(!is_white_space(path[0]));
    lemma_trimmed_is(line);
    let k = path.len() as int;
    assert(line[k] == ' ');
    assert forall|i: int| 0 <= i < k implies !is_white_space(#[trigger] line[i]) by {
        assert(line[i] == path[i]);
    }
    lemma_first_space_is(line, k);
    assert(line.skip(k + 1) == number);
    assert(line.take(k) == path);
    lemma_i32_round_trip(idle);
}

/// A line asks for nothing exactly when it is blank or starts, after white space,
/// with `#`.
pub proof fn lemma_skipped_lines(line: Seq<char>)
    ensures
        expire_of(line) == ExpireLineView::Skip <==> trimmed(line).len() == 0 || trimmed(
            line,
        ).first() == '#',
{
}

/// What a line with a path and a value asks for, whatever white space stands around
/// them and between them: to expire the sessions at that path after the time that the
/// value stands for, and an error that names the value and the line where it stands for
/// no number.
pub proof fn lemma_expire_of(
    before: Seq<char>,
    path: Seq<char>,
    space: char,
    between: Seq<char>,
    value: Seq<char>,
    after: Seq<char>,
)
    requires
        all_white_space(before) && all_white_space(between) && all_white_space(after),
        is_white_space(space),
        path.len() > 0 && path.first() != '#',
        forall|i: int| 0 <= i < path.len() ==> !is_white_space(#[trigger] path[i]),
        value.len() > 0 && !is_white_space(value.first()) && !is_white_space(value.last()),
    ensures
        expire_of(before + (path + seq![space] + between + value) + after) == match i32_number(
            value,
        ) {
            Some(idle) => ExpireLineView::Expire { path, idle },
            None => ExpireLineView::Invalid(
                TomcatErrorView::InvalidIdle {
                    value: between + value,
                    line: path + seq![space] + between + value,
                },
            ),
        },
{
    let line = path + seq![space] + between + value;
    assert(!is_white_space(path[0]));
    assert(line.first() == path[0] && line.last() == value.last());
    lemma_trimmed_parts(before, line, after);
    let k = path.len() as int;
    assert(line[k] == space);
    assert forall|i: int| 0 <= i < k implies !is_white_space(#[trigger] line[i]) by {
        assert(line[i] == path[i]);
    }
    lemma_first_space_is(line, k);
    assert(line.skip(k + 1) == between + value);
    assert(line.take(k) == path);
    lemma_trimmed_parts(between, value, Seq::empty());
    assert(between + value + Seq::<char>::empty() == between + value);
}

/// A line of white space alone, and one that starts with `#` after white space, ask for
/// nothing; one word alone is skipped with a warning that names it.
pub proof fn lemma_expire_of_others(
    before: Seq<char>,
    word: Seq<char>,
    after: Seq<char>,
    comment: Seq<char>,
)
    requires
        all_white_space(before) && all_white_space(after),
        word.len() > 0 && word.first() != '#',
        forall|i: int| 0 <= i < word.len() ==> !is_white_space(#[trigger] word[i]),
    ensures
        expire_of(before) == ExpireLineView::Skip,
        expire_of(before + seq!['#'] + comment) == ExpireLineView::Skip,
        expire_of(before + word + after) == ExpireLineView::Malformed(
            "warn: skipping malformed line: "@ + word + "\n"@,
        ),
{
    lemma_trimmed_parts(before, Seq::empty(), Seq::empty());
    assert(before + Seq::<char>::empty() + Seq::<char>::empty() == before);
    let text = seq!['#'] + comment;
    assert(before + seq!['#'] + comment == before + text);
    lemma_trimmed_start_skips(before, text);
    assert(trimmed_start(text) == text);
    lemma_trimmed_end_first(text);
    assert(!is_white_space(word[0]) && !is_white_space(word[word.len() - 1]));
    lemma_trimmed_parts(before, word, after);
    lemma_first_space(word);
    assert(first_space(word) == word.len());
}

} // verus!
