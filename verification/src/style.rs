//! Coloured terminal text.
//!
//! Whether colours are on is decided by the environment of the process, so what is
//! stated of a painted text holds for both outcomes.

use colored::Colorize;
use vstd::prelude::*;

use crate::output::OutputFmt;
use crate::text::same_text;

verus! {

/// The escape sequence that ends every style.
pub open spec fn reset() -> Seq<char> {
    "\x1b[0m"@
}

/// The escape sequence that starts the style with the given code.
pub open spec fn style_start(code: Seq<char>) -> Seq<char> {
    "\x1b["@ + code + "m"@
}

/// `s` with the style started again after each reset that it holds.
pub open spec fn restyled(s: Seq<char>, code: Seq<char>) -> Seq<char>
    decreases s.len(),
{
    if s.len() == 0 {
        s
    } else if reset().len() > 0 && reset().is_prefix_of(s) {
        reset() + style_start(code) + restyled(s.skip(reset().len() as int), code)
    } else {
        seq![s.first()] + restyled(s.drop_first(), code)
    }
}

/// `s` between the start of a style and the reset.
pub open spec fn styled(s: Seq<char>, code: Seq<char>) -> Seq<char> {
    style_start(code) + restyled(s, code) + reset()
}

/// `r` shows `s` in the style with the given code, or plainly where colours are off.
pub open spec fn is_painted(r: Seq<char>, s: Seq<char>, code: Seq<char>) -> bool {
    r == s || r == styled(s, code)
}

/// `r` is `s`, in the style with the given code or plainly where colours are off, and
/// then `rest`.
pub open spec fn is_painted_before(
    r: Seq<char>,
    s: Seq<char>,
    code: Seq<char>,
    rest: Seq<char>,
) -> bool {
    r == s + rest || r == styled(s, code) + rest
}

/// `s` filled up with spaces to `width` characters.
pub open spec fn padded(s: Seq<char>, width: nat) -> Seq<char> {
    if s.len() >= width {
        s
    } else {
        s + Seq::new((width - s.len()) as nat, |i: int| ' ')
    }
}

/// `r` shows `s` in bold in a field of `width` characters, or plainly in such a
/// field where colours are off.
pub open spec fn is_bold_field(r: Seq<char>, s: Seq<char>, width: nat) -> bool {
    ||| r == padded(s, width)
    ||| r == style_start("1"@) + padded(restyled(s, "1"@), width) + reset()
}

/// `Colorize::green` of the crate `colored`, shown: the text in code 32, or the text
/// itself where colours are off.
#[verifier::external_body]
pub(crate) fn green(s: &str) -> (r: String)
    ensures
        is_painted(r@, s@, "32"@),
{
    s.green().to_string()
}

/// `Colorize::red` of the crate `colored`, shown: the text in code 31, or the text
/// itself where colours are off.
#[verifier::external_body]
pub(crate) fn red(s: &str) -> (r: String)
    ensures
        is_painted(r@, s@, "31"@),
{
    s.red().to_string()
}

/// `Colorize::yellow` of the crate `colored`, shown: the text in code 33, or the text
/// itself where colours are off.
#[verifier::external_body]
pub(crate) fn yellow(s: &str) -> (r: String)
    ensures
        is_painted(r@, s@, "33"@),
{
    s.yellow().to_string()
}

/// `Colorize::green` and then `Colorize::bold` of the crate `colored`, shown: the text
/// in code 1;32, or the text itself where colours are off.
#[verifier::external_body]
pub(crate) fn green_bold(s: &str) -> (r: String)
    ensures
        is_painted(r@, s@, "1;32"@),
{
    s.green().bold().to_string()
}

/// `Colorize::red` and then `Colorize::bold` of the crate `colored`, shown: the text
/// in code 1;31, or the text itself where colours are off.
#[verifier::external_body]
pub(crate) fn red_bold(s: &str) -> (r: String)
    ensures
        is_painted(r@, s@, "1;31"@),
{
    s.red().bold().to_string()
}

/// `Colorize::bold` of the crate `colored`, shown left-aligned in a field of `width`
/// characters: the style surrounds the field, or is left out where colours are off.
/// A field is at most 65535 characters wide, the widest that formatting takes.
#[verifier::external_body]
pub(crate) fn bold_field(s: &str, width: usize) -> (r: String)
    requires
        width <= 65535,
    ensures
        is_bold_field(r@, s@, width as nat),
{
    format!("{:<width$}", s.bold(), width = width)
}

/// `r` is a mark and then `rest`: the mark in the style with the given code, or plainly
/// where colours are off. A machine gets no colour, whatever is on or off.
pub open spec fn is_marked(
    r: Seq<char>,
    mark: Seq<char>,
    code: Seq<char>,
    rest: Seq<char>,
    fmt: OutputFmt,
) -> bool {
    if fmt == OutputFmt::Table {
        is_painted_before(r, mark, code, rest)
    } else {
        r == mark + rest
    }
}

/// A colour that a status is shown in.
#[derive(Clone, Copy, Debug, PartialEq, Eq, Structural)]
pub enum Colour {
    Green,
    Red,
    Yellow,
}

/// The code of a colour.
pub open spec fn colour_code(c: Colour) -> Seq<char> {
    match c {
        Colour::Green => "32"@,
        Colour::Red => "31"@,
        Colour::Yellow => "33"@,
    }
}

/// The colour that an application's status is shown in: green when running, red when
/// stopped, yellow otherwise.
pub open spec fn colour_of(s: Seq<char>) -> Colour {
    if s == "running"@ {
        Colour::Green
    } else if s == "stopped"@ {
        Colour::Red
    } else {
        Colour::Yellow
    }
}

/// The code of the colour that an application's status is shown in.
pub open spec fn status_code(s: Seq<char>) -> Seq<char> {
    colour_code(colour_of(s))
}

/// Chooses the colour that an application's status is shown in.
pub fn status_colour(s: &str) -> (r: Colour)
    ensures
        r == colour_of(s@),
{
    if same_text(s, "running") {
        Colour::Green
    } else if same_text(s, "stopped") {
        Colour::Red
    } else {
        Colour::Yellow
    }
}

/// Shows an application's status in its colour, or plainly where colours are off: the
/// environment of the process decides between the two.
pub fn colorize_status(s: &str) -> (r: String)
    ensures
        is_painted(r@, s@, status_code(s@)),
{
    match status_colour(s) {
        Colour::Green => green(s),
        Colour::Red => red(s),
        Colour::Yellow => yellow(s),
    }
}

proof fn lemma_restyled_plain(s: Seq<char>, code: Seq<char>)
    requires
        !s.contains('\u{1b}'),
    ensures
        restyled(s, code) == s,
    decreases s.len(),
{
    reveal_strlit("\x1b[0m");
    if s.len() > 0 {
        assert(s.contains(s[0]));
        if reset().is_prefix_of(s) {
            assert(reset()[0] == s[0]);
        }
        let rest = s.drop_first();
        assert forall|i: int| 0 <= i < rest.len() implies rest[i] != '\u{1b}' by {
            assert(s.contains(s[i + 1]));
        }
        lemma_restyled_plain(rest, code);
        assert(seq![s[0]] + rest == s);
    }
}

/// A text is painted by an escape sequence with the code before it and a reset after
/// it, or is left plain; it is never changed itself.
pub proof fn lemma_painted(r: Seq<char>, s: Seq<char>, code: Seq<char>, rest: Seq<char>)
    requires
        !s.contains('\u{1b}'),
    ensures
        is_painted(r, s, code) <==> (r == s || r == "\x1b["@ + code + "m"@ + s + "\x1b[0m"@),
        is_painted_before(r, s, code, rest) <==> (r == s + rest || r == "\x1b["@ + code + "m"@ + s
            + "\x1b[0m"@ + rest),
{
    lemma_restyled_plain(s, code);
}

/// A field is filled up with spaces at its end; a text that is longer stays as it is.
pub proof fn lemma_padded(s: Seq<char>, width: nat)
    ensures
        s.len() >= width ==> padded(s, width) == s,
        s.len() < width ==> padded(s, width).len() == width && padded(s, width).take(
            s.len() as int,
        ) == s && (forall|i: int| s.len() <= i < width ==> padded(s, width)[i] == ' '),
{
}

/// A key is shown in its field plainly, or in bold with the style around the field.
pub proof fn lemma_bold_field(r: Seq<char>, s: Seq<char>, width: nat)
    requires
        !s.contains('\u{1b}'),
    ensures
        is_bold_field(r, s, width) <==> (r == padded(s, width) || r == "\x1b["@ + "1"@ + "m"@
            + padded(s, width) + "\x1b[0m"@),
{
    lemma_restyled_plain(s, "1"@);
}

/// Running is green and nothing else is; stopped is red and nothing else is.
pub proof fn lemma_status_colour(s: Seq<char>)
    ensures
        colour_of(s) == Colour::Green <==> s == "running"@,
        colour_of(s) == Colour::Red <==> s == "stopped"@,
        status_code(s) == if s == "running"@ {
            "32"@
        } else if s == "stopped"@ {
            "31"@
        } else {
            "33"@
        },
{
    reveal_strlit("running");
    reveal_strlit("stopped");
    assert("running"@[0] == 'r' && "stopped"@[0] == 's');
}

} // verus!
