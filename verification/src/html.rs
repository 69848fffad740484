//! Readable text from an HTML page.

use vstd::prelude::*;

use crate::output::{
    block_of_lines, is_line, lemma_line_block_keeps, lemma_lines_of_block, line_block, string_views,
};
use crate::text::{
    all_white_space, blank, chars_of, first_at, is_blank, lemma_first_at, lemma_is_blank,
    lemma_lines_keep, lemma_lines_of_append, lemma_lines_of_cons, lemma_lines_of_have_no_feed,
    lines, lines_of, slice_views, text_of, written,
};

verus! {

/// The characters of `s` outside tags, where reading starts inside a tag or outside.
/// A tag goes from `<` to `>`; neither character is ever part of the text.
pub open spec fn untagged(s: Seq<char>, in_tag: bool) -> Seq<char>
    decreases s.len(),
{
    if s.len() == 0 {
        s
    } else if s.first() == '<' {
        untagged(s.drop_first(), true)
    } else if s.first() == '>' {
        untagged(s.drop_first(), false)
    } else if in_tag {
        untagged(s.drop_first(), true)
    } else {
        seq![s.first()] + untagged(s.drop_first(), false)
    }
}

/// The lines that are left when a blank line after a blank line is dropped.
pub open spec fn squeezed(lines: Seq<Seq<char>>, after_blank: bool) -> Seq<Seq<char>>
    decreases lines.len(),
{
    if lines.len() == 0 {
        lines
    } else if is_blank(lines.first()) && after_blank {
        squeezed(lines.drop_first(), true)
    } else {
        seq![lines.first()] + squeezed(lines.drop_first(), is_blank(lines.first()))
    }
}

/// The lines of the text of a page.
pub open spec fn page_lines(html: Seq<char>) -> Seq<Seq<char>> {
    squeezed(lines_of(untagged(html, false)), false)
}

/// The text of a page: its characters outside tags, with runs of blank lines reduced
/// to one.
pub open spec fn page_text(html: Seq<char>) -> Seq<char> {
    line_block(page_lines(html))
}

fn remove_tags(html: &[char]) -> (r: Vec<char>)
    ensures
        r@ == untagged(html@, false),
{
    let mut out: Vec<char> = Vec::new();
    let mut in_tag: bool = false;
    let mut i: usize = 0;
    assert(html@.skip(0) == html@);
    assert(out@ + untagged(html@, false) == untagged(html@, false));
    while i < html.len()
        invariant
            i <= html@.len(),
            out@ + untagged(html@.skip(i as int), in_tag) == untagged(html@, false),
        decreases html.len() - i,
    {
        let c: char = html[i];
        let ghost rest = html@.skip(i + 1);
        let ghost before = out@;
        assert(html@.skip(i as int).drop_first() == rest);
        if c == '<' {
            in_tag = true;
        } else if c == '>' {
            in_tag = false;
        } else if !in_tag {
            out.push(c);
            assert(before + (seq![c] + untagged(rest, false)) == out@ + untagged(rest, false));
        }
        i = i + 1;
    }
    assert(html@.skip(i as int).len() == 0);
    assert(out@ + untagged(html@.skip(i as int), in_tag) == out@);
    out
}

/// Removes the tags of a page and reduces runs of blank lines to one.
pub fn strip_html(html: &str) -> (r: String)
    ensures
        r@ == page_text(html@),
{
    let cs = chars_of(html);
    let text = remove_tags(cs.as_slice());
    let ls = lines(text.as_slice());
    let mut kept: Vec<String> = Vec::new();
    let mut after_blank: bool = false;
    let mut i: usize = 0;
    let ghost views = slice_views(ls@);
    assert(views.skip(0) == views);
    assert(string_views(kept@) + squeezed(views, false) == page_lines(html@));
    while i < ls.len()
        invariant
            i <= ls@.len(),
            views == slice_views(ls@),
            string_views(kept@) + squeezed(views.skip(i as int), after_blank) == page_lines(html@),
        decreases ls.len() - i,
    {
        let line_is_blank = blank(ls[i]);
        let ghost rest = views.skip(i + 1);
        let ghost before = string_views(kept@);
        assert(views.skip(i as int).drop_first() == rest);
        if !(line_is_blank && after_blank) {
            kept.push(text_of(ls[i]));
            assert(string_views(kept@) == before.push(views[i as int]));
            assert(before + (seq![views[i as int]] + squeezed(rest, line_is_blank))
                == string_views(kept@) + squeezed(rest, line_is_blank));
            after_blank = line_is_blank;
        }
        i = i + 1;
    }
    assert(views.skip(i as int).len() == 0);
    assert(string_views(kept@) + squeezed(views.skip(i as int), after_blank) == string_views(
        kept@,
    ));
    block_of_lines(&kept)
}

proof fn lemma_untagged_has_no_tag(s: Seq<char>, in_tag: bool)
    ensures
        !untagged(s, in_tag).contains('<'),
        !untagged(s, in_tag).contains('>'),
    decreases s.len(),
{
    if s.len() > 0 {
        let rest = s.drop_first();
        lemma_untagged_has_no_tag(rest, true);
        lemma_untagged_has_no_tag(rest, false);
        if s.first() != '<' && s.first() != '>' && !in_tag {
            let t = untagged(rest, false);
            let u = seq![s.first()] + t;
            assert forall|i: int| 0 <= i < u.len() implies u[i] != '<' && u[i] != '>' by {
                if i > 0 {
                    assert(u[i] == t[i - 1]);
                    assert(t.contains(t[i - 1]));
                }
            }
        }
    }
}

proof fn lemma_squeezed_keeps(lines: Seq<Seq<char>>, after_blank: bool, c: char)
    requires
        forall|i: int| 0 <= i < lines.len() ==> !(#[trigger] lines[i]).contains(c),
    ensures
        forall|i: int|
            0 <= i < squeezed(lines, after_blank).len() ==> !(#[trigger] squeezed(
                lines,
                after_blank,
            )[i]).contains(c),
    decreases lines.len(),
{
    if lines.len() > 0 {
        let rest = lines.drop_first();
        assert forall|i: int| 0 <= i < rest.len() implies !(#[trigger] rest[i]).contains(c) by {
            assert(rest[i] == lines[i + 1]);
        }
        lemma_squeezed_keeps(rest, true, c);
        lemma_squeezed_keeps(rest, is_blank(lines.first()), c);
        if !(is_blank(lines.first()) && after_blank) {
            let tail = squeezed(rest, is_blank(lines.first()));
            let all = squeezed(lines, after_blank);
            assert forall|i: int| 0 <= i < all.len() implies !(#[trigger] all[i]).contains(c) by {
                if i > 0 {
                    assert(all[i] == tail[i - 1]);
                } else {
                    assert(all[0] == lines[0]);
                }
            }
        }
    }
}

/// The text of a page holds no part of a tag: neither `<` nor `>` is left in it.
pub proof fn lemma_page_has_no_tag(html: Seq<char>)
    ensures
        forall|i: int|
            0 <= i < page_lines(html).len() ==> !(#[trigger] page_lines(html)[i]).contains('<')
                && !page_lines(html)[i].contains('>'),
{
    let s = untagged(html, false);
    lemma_untagged_has_no_tag(html, false);
    lemma_lines_keep(s, '<');
    lemma_lines_keep(s, '>');
    lemma_squeezed_keeps(lines_of(s), false, '<');
    lemma_squeezed_keeps(lines_of(s), false, '>');
}

/// No two blank lines follow each other.
pub open spec fn is_squeezed(lines: Seq<Seq<char>>) -> bool {
    forall|i: int|
        0 < i < lines.len() ==> !(is_blank(#[trigger] lines[i]) && is_blank(lines[i - 1]))
}

proof fn lemma_squeezed(lines: Seq<Seq<char>>, after_blank: bool)
    ensures
        is_squeezed(squeezed(lines, after_blank)),
        after_blank && squeezed(lines, after_blank).len() > 0 ==> !is_blank(
            squeezed(lines, after_blank)[0],
        ),
    decreases lines.len(),
{
    if lines.len() > 0 {
        let rest = lines.drop_first();
        if is_blank(lines.first()) && after_blank {
            lemma_squeezed(rest, true);
        } else {
            let b = is_blank(lines.first());
            lemma_squeezed(rest, b);
            let tail = squeezed(rest, b);
            let all = squeezed(lines, after_blank);
            assert forall|i: int| 0 < i < all.len() implies !(is_blank(#[trigger] all[i])
                && is_blank(all[i - 1])) by {
                assert(all[i] == tail[i - 1]);
                if i > 1 {
                    assert(all[i - 1] == tail[i - 2]);
                }
            }
        }
    }
}

/// The text of a page has no two blank lines in a row.
pub proof fn lemma_page_is_squeezed(html: Seq<char>)
    ensures
        is_squeezed(page_lines(html)),
{
    lemma_squeezed(lines_of(untagged(html, false)), false);
}

proof fn lemma_squeezed_written(lines: Seq<Seq<char>>, after_blank: bool)
    ensures
        written(squeezed(lines, after_blank)) == written(lines),
    decreases lines.len(),
{
    if lines.len() > 0 {
        let rest = lines.drop_first();
        if is_blank(lines.first()) && after_blank {
            lemma_squeezed_written(rest, true);
        } else {
            lemma_squeezed_written(rest, is_blank(lines.first()));
            assert(squeezed(lines, after_blank).drop_first() == squeezed(
                rest,
                is_blank(lines.first()),
            ));
        }
    }
}

/// Of the lines outside tags, every one that is not blank is kept, in its place.
pub proof fn lemma_page_keeps_written_lines(html: Seq<char>)
    ensures
        written(page_lines(html)) == written(lines_of(untagged(html, false))),
{
    lemma_squeezed_written(lines_of(untagged(html, false)), false);
}

proof fn lemma_untagged_plain(s: Seq<char>)
    requires
        !s.contains('<'),
        !s.contains('>'),
    ensures
        untagged(s, false) == s,
    decreases s.len(),
{
    if s.len() > 0 {
        let rest = s.drop_first();
        assert forall|i: int| 0 <= i < rest.len() implies rest[i] != '<' && rest[i] != '>' by {
            assert(s.contains(s[i + 1]));
        }
        assert(s.contains(s[0]));
        lemma_untagged_plain(rest);
        assert(s == seq![s.first()] + rest);
    }
}

proof fn lemma_squeezed_is(lines: Seq<Seq<char>>, after_blank: bool)
    requires
        is_squeezed(lines),
        after_blank && lines.len() > 0 ==> !is_blank(lines[0]),
    ensures
        squeezed(lines, after_blank) == lines,
    decreases lines.len(),
{
    if lines.len() > 0 {
        let rest = lines.drop_first();
        assert forall|i: int| 0 < i < rest.len() implies !(is_blank(#[trigger] rest[i])
            && is_blank(rest[i - 1])) by {
            assert(rest[i] == lines[i + 1] && rest[i - 1] == lines[i]);
        }
        if rest.len() > 0 {
            assert(rest[0] == lines[1]);
        }
        lemma_squeezed_is(rest, is_blank(lines.first()));
        assert(lines == seq![lines.first()] + rest);
    }
}

/// Text without tags and without runs of blank lines is left as it is: stripping
/// twice is stripping once, where no line that is kept ends in a carriage return.
pub proof fn lemma_page_text_is_stable(html: Seq<char>)
    requires
        forall|i: int|
            0 <= i < page_lines(html).len() ==> (#[trigger] page_lines(html)[i]).len() > 0
                ==> page_lines(html)[i].last() != '\r',
    ensures
        page_text(page_text(html)) == page_text(html),
{
    let ls = page_lines(html);
    lemma_page_has_no_tag(html);
    lemma_page_is_squeezed(html);
    lemma_lines_of_have_no_feed(untagged(html, false));
    lemma_squeezed_keeps(lines_of(untagged(html, false)), false, '\n');
    assert forall|i: int| 0 <= i < ls.len() implies is_line(#[trigger] ls[i]) by {}
    lemma_line_block_keeps(ls, '<');
    lemma_line_block_keeps(ls, '>');
    lemma_untagged_plain(page_text(html));
    lemma_lines_of_block(ls);
    lemma_squeezed_is(ls, false);
}

/// Reading `s` ends inside a tag, where it starts inside a tag or outside.
pub open spec fn ends_in_tag(s: Seq<char>, in_tag: bool) -> bool
    decreases s.len(),
{
    if s.len() == 0 {
        in_tag
    } else if s.last() == '<' {
        true
    } else if s.last() == '>' {
        false
    } else {
        ends_in_tag(s.drop_last(), in_tag)
    }
}

proof fn lemma_ends_in_tag_first(s: Seq<char>, in_tag: bool)
    requires
        s.len() > 0,
    ensures
        ends_in_tag(s, in_tag) == ends_in_tag(
            s.drop_first(),
            s.first() == '<' || (s.first() != '>' && in_tag),
        ),
    decreases s.len(),
{
    if s.len() == 1 {
        assert(s.drop_last() == Seq::<char>::empty());
        assert(s.drop_first() == Seq::<char>::empty());
        assert(ends_in_tag(s.drop_last(), in_tag) == in_tag);
    } else {
        lemma_ends_in_tag_first(s.drop_last(), in_tag);
        assert(s.drop_last().drop_first() == s.drop_first().drop_last());
    }
}

proof fn lemma_untagged_append(a: Seq<char>, b: Seq<char>, in_tag: bool)
    ensures
        untagged(a + b, in_tag) == untagged(a, in_tag) + untagged(b, ends_in_tag(a, in_tag)),
    decreases a.len(),
{
    if a.len() == 0 {
        assert(a + b == b);
        assert(untagged(a, in_tag) + untagged(b, in_tag) == untagged(b, in_tag));
    } else {
        let rest = a.drop_first();
        let next = a.first() == '<' || (a.first() != '>' && in_tag);
        assert((a + b).drop_first() == rest + b);
        lemma_untagged_append(rest, b, next);
        lemma_ends_in_tag_first(a, in_tag);
        if a.first() != '<' && a.first() != '>' && !in_tag {
            assert(seq![a.first()] + (untagged(rest, false) + untagged(b, ends_in_tag(a, false)))
                == seq![a.first()] + untagged(rest, false) + untagged(b, ends_in_tag(a, false)));
        }
    }
}

proof fn lemma_inside_tag(tag: Seq<char>)
    requires
        !tag.contains('>'),
    ensures
        untagged(tag, true) == Seq::<char>::empty(),
        ends_in_tag(tag, true),
    decreases tag.len(),
{
    if tag.len() > 0 {
        let rest = tag.drop_first();
        assert forall|i: int| 0 <= i < rest.len() implies rest[i] != '>' by {
            assert(tag.contains(tag[i + 1]));
        }
        assert(tag.contains(tag[0]));
        lemma_inside_tag(rest);
        lemma_ends_in_tag_first(tag, true);
    }
}

/// A tag leaves no trace: a page with a tag between two parts has the text of the page
/// without it.
pub proof fn lemma_tag_leaves_no_trace(before: Seq<char>, tag: Seq<char>, rest: Seq<char>)
    requires
        !ends_in_tag(before, false),
        !tag.contains('>'),
    ensures
        page_text(before + seq!['<'] + tag + seq!['>'] + rest) == page_text(before + rest),
{
    lemma_inside_tag(tag);
    let close = seq!['>'] + rest;
    let inside = tag + close;
    let whole = seq!['<'] + inside;
    assert(before + seq!['<'] + tag + seq!['>'] + rest == before + whole);
    lemma_untagged_append(before, whole, false);
    lemma_untagged_append(before, rest, false);
    assert(whole.drop_first() == inside);
    lemma_untagged_append(tag, close, true);
    assert(close.drop_first() == rest);
    assert(untagged(close, true) == untagged(rest, false));
    assert(untagged(inside, true) == untagged(rest, false));
    assert(untagged(whole, false) == untagged(rest, false));
}

proof fn lemma_outside_tag(s: Seq<char>)
    requires
        !s.contains('<'),
    ensures
        !ends_in_tag(s, false),
    decreases s.len(),
{
    if s.len() > 0 {
        assert(s.contains(s[s.len() - 1]));
        let front = s.drop_last();
        assert forall|i: int| 0 <= i < front.len() implies front[i] != '<' by {
            assert(s.contains(s[i]));
        }
        lemma_outside_tag(front);
    }
}

/// The first tag of a page leaves no trace, a `>` outside a tag is dropped, and so is
/// what follows a `<` that no `>` closes.
pub proof fn lemma_tags(before: Seq<char>, tag: Seq<char>, rest: Seq<char>)
    requires
        !before.contains('<'),
        !tag.contains('>'),
    ensures
        page_text(before + seq!['<'] + tag + seq!['>'] + rest) == page_text(before + rest),
        page_text(before + seq!['>'] + rest) == page_text(before + rest),
        page_text(before + seq!['<'] + tag) == page_text(before),
{
    lemma_outside_tag(before);
    lemma_tag_leaves_no_trace(before, tag, rest);
    let close = seq!['>'] + rest;
    lemma_untagged_append(before, close, false);
    lemma_untagged_append(before, rest, false);
    assert(before + seq!['>'] + rest == before + close);
    assert(close.drop_first() == rest);
    let open = seq!['<'] + tag;
    lemma_untagged_append(before, open, false);
    assert(before + seq!['<'] + tag == before + open);
    assert(open.drop_first() == tag);
    lemma_inside_tag(tag);
    assert(untagged(before, false) + Seq::<char>::empty() == untagged(before, false));
}

/// A line of the text of a page.
pub open spec fn is_page_line(line: Seq<char>) -> bool {
    &&& !line.contains('\n') && !line.contains('<') && !line.contains('>')
    &&& line.len() > 0 ==> line.last() != '\r'
}

proof fn lemma_page_of_lines(lines: Seq<Seq<char>>)
    requires
        forall|i: int| 0 <= i < lines.len() ==> is_page_line(#[trigger] lines[i]),
    ensures
        page_text(line_block(lines)) == line_block(squeezed(lines, false)),
{
    assert forall|i: int| 0 <= i < lines.len() implies !(#[trigger] lines[i]).contains('<')
        && !lines[i].contains('>') by {
        assert(is_page_line(lines[i]));
    }
    assert forall|i: int| 0 <= i < lines.len() implies is_line(#[trigger] lines[i]) by {
        assert(is_page_line(lines[i]));
    }
    lemma_line_block_keeps(lines, '<');
    lemma_line_block_keeps(lines, '>');
    lemma_untagged_plain(line_block(lines));
    lemma_lines_of_block(lines);
}

/// Text without tags stays as it is, where no two blank lines follow each other.
pub proof fn lemma_page_of_text(lines: Seq<Seq<char>>)
    requires
        forall|i: int| 0 <= i < lines.len() ==> is_page_line(#[trigger] lines[i]),
        forall|i: int|
            0 < i < lines.len() ==> !(all_white_space(#[trigger] lines[i]) && all_white_space(
                lines[i - 1],
            )),
    ensures
        page_text(line_block(lines)) == line_block(lines),
{
    lemma_page_of_lines(lines);
    assert forall|i: int| 0 < i < lines.len() implies !(is_blank(#[trigger] lines[i]) && is_blank(
        lines[i - 1],
    )) by {
        lemma_is_blank(lines[i]);
        lemma_is_blank(lines[i - 1]);
    }
    lemma_squeezed_is(lines, false);
}

proof fn lemma_squeezed_blank(
    before: Seq<Seq<char>>,
    first: Seq<char>,
    second: Seq<char>,
    rest: Seq<Seq<char>>,
    after_blank: bool,
)
    requires
        is_blank(first),
        is_blank(second),
    ensures
        squeezed(before + seq![first, second] + rest, after_blank) == squeezed(
            before + seq![first] + rest,
            after_blank,
        ),
    decreases before.len(),
{
    let long = before + seq![first, second] + rest;
    let short = before + seq![first] + rest;
    if before.len() == 0 {
        assert(long.first() == first && short.first() == first);
        assert(long.drop_first() == seq![second] + rest);
        assert(short.drop_first() == rest);
        assert((seq![second] + rest).drop_first() == rest);
        assert(squeezed(seq![second] + rest, true) == squeezed(rest, true));
    } else {
        let front = before.drop_first();
        assert(long.first() == before[0] && short.first() == before[0]);
        assert(long.drop_first() == front + seq![first, second] + rest);
        assert(short.drop_first() == front + seq![first] + rest);
        lemma_squeezed_blank(front, first, second, rest, true);
        lemma_squeezed_blank(front, first, second, rest, is_blank(before[0]));
    }
}

/// A blank line after a blank line makes no difference.
pub proof fn lemma_blank_run(
    before: Seq<Seq<char>>,
    first: Seq<char>,
    second: Seq<char>,
    rest: Seq<Seq<char>>,
)
    requires
        forall|i: int| 0 <= i < before.len() ==> is_page_line(#[trigger] before[i]),
        forall|i: int| 0 <= i < rest.len() ==> is_page_line(#[trigger] rest[i]),
        is_page_line(first) && all_white_space(first),
        is_page_line(second) && all_white_space(second),
    ensures
        page_text(line_block(before + seq![first, second] + rest)) == page_text(
            line_block(before + seq![first] + rest),
        ),
{
    lemma_is_blank(first);
    lemma_is_blank(second);
    let long = before + seq![first, second] + rest;
    let short = before + seq![first] + rest;
    let n = before.len() as int;
    assert forall|i: int| 0 <= i < long.len() implies is_page_line(#[trigger] long[i]) by {
        if i < n {
            assert(long[i] == before[i]);
        } else if i >= n + 2 {
            assert(long[i] == rest[i - n - 2]);
        }
    }
    assert forall|i: int| 0 <= i < short.len() implies is_page_line(#[trigger] short[i]) by {
        if i < n {
            assert(short[i] == before[i]);
        } else if i >= n + 1 {
            assert(short[i] == rest[i - n - 1]);
        }
    }
    lemma_page_of_lines(long);
    lemma_page_of_lines(short);
    lemma_squeezed_blank(before, first, second, rest, false);
}

/// The line feed at the end of a page makes no difference.
pub proof fn lemma_last_feed(s: Seq<char>)
    requires
        !s.contains('<'),
        !s.contains('>'),
        s.len() > 0,
        s.last() != '\n',
        s.last() != '\r',
    ensures
        page_text(s + seq!['\n']) == page_text(s),
{
    let t = s + seq!['\n'];
    assert forall|i: int| 0 <= i < t.len() implies t[i] != '<' && t[i] != '>' by {
        if i < s.len() {
            assert(s.contains(s[i]));
        }
    }
    lemma_untagged_plain(s);
    lemma_untagged_plain(t);
    lemma_lines_of_last_feed(s);
}

proof fn lemma_lines_of_last_feed(s: Seq<char>)
    requires
        s.len() > 0,
        s.last() != '\n',
        s.last() != '\r',
    ensures
        lines_of(s + seq!['\n']) == lines_of(s),
    decreases s.len(),
{
    let k = first_at(s, '\n');
    lemma_first_at(s, '\n');
    if k == s.len() {
        assert(!s.contains('\n'));
        lemma_lines_of_cons(s, Seq::empty());
        assert(s + seq!['\n'] + Seq::<char>::empty() == s + seq!['\n']);
        assert(lines_of(Seq::<char>::empty()) == Seq::<Seq<char>>::empty());
        assert(seq![s] + Seq::<Seq<char>>::empty() == seq![s]);
    } else {
        let head = s.take(k + 1);
        let rest = s.skip(k + 1);
        assert(s == head + rest);
        assert(s + seq!['\n'] == head + (rest + seq!['\n']));
        lemma_lines_of_append(head, rest);
        lemma_lines_of_append(head, rest + seq!['\n']);
        lemma_lines_of_last_feed(rest);
    }
}

} // verus!
