//! Plain text operations: trimming, splitting and searching over characters.
//!
//! Every operation is specified on `Seq<char>`, the view of `str` and `String`,
//! and executed on character slices.

use vstd::prelude::*;
use vstd::slice::slice_subrange;

verus! {

/// `String::push`: the character is appended to the text.
pub assume_specification[ String::push ](s: &mut String, c: char)
    ensures
        final(s)@ == old(s)@.push(c),
;

/// The characters with the Unicode property `White_Space`.
pub open spec fn is_white_space(c: char) -> bool {
    ||| '\u{9}' <= c <= '\u{d}'
    ||| c == ' '
    ||| c == '\u{85}'
    ||| c == '\u{a0}'
    ||| c == '\u{1680}'
    ||| '\u{2000}' <= c <= '\u{200a}'
    ||| c == '\u{2028}'
    ||| c == '\u{2029}'
    ||| c == '\u{202f}'
    ||| c == '\u{205f}'
    ||| c == '\u{3000}'
}

/// Tells whether `c` is white space.
pub fn white_space(c: char) -> (r: bool)
    ensures
        r == is_white_space(c),
{
    ('\u{9}' <= c && c <= '\u{d}') || c == ' ' || c == '\u{85}' || c == '\u{a0}' || c == '\u{1680}'
        || ('\u{2000}' <= c && c <= '\u{200a}') || c == '\u{2028}' || c == '\u{2029}' || c
        == '\u{202f}' || c == '\u{205f}' || c == '\u{3000}'
}

/// The characters of a text.
pub fn chars_of(s: &str) -> (r: Vec<char>)
    ensures
        r@ == s@,
{
    let mut v: Vec<char> = Vec::new();
    for c in it: s.chars()
        invariant
            it.seq() == s@,
            v@ == s@.take(it.index() as int),
    {
        v.push(c);
    }
    assert(s@.take(s@.len() as int) == s@);
    v
}

/// The text made of the given characters.
pub fn text_of(s: &[char]) -> (r: String)
    ensures
        r@ == s@,
{
    let mut out = String::new();
    let mut i: usize = 0;
    while i < s.len()
        invariant
            i <= s@.len(),
            out@ == s@.take(i as int),
        decreases s.len() - i,
    {
        out.push(s[i]);
        i = i + 1;
    }
    assert(s@.take(s@.len() as int) == s@);
    out
}

/// `s` without its leading white space.
pub open spec fn trimmed_start(s: Seq<char>) -> Seq<char>
    decreases s.len(),
{
    if s.len() > 0 && is_white_space(s.first()) {
        trimmed_start(s.drop_first())
    } else {
        s
    }
}

/// `s` without its trailing white space.
pub open spec fn trimmed_end(s: Seq<char>) -> Seq<char>
    decreases s.len(),
{
    if s.len() > 0 && is_white_space(s.last()) {
        trimmed_end(s.drop_last())
    } else {
        s
    }
}

/// `s` without its leading and trailing white space.
pub open spec fn trimmed(s: Seq<char>) -> Seq<char> {
    trimmed_end(trimmed_start(s))
}

/// `s` without the copies of `c` at its start.
pub open spec fn trimmed_start_of(s: Seq<char>, c: char) -> Seq<char>
    decreases s.len(),
{
    if s.len() > 0 && s.first() == c {
        trimmed_start_of(s.drop_first(), c)
    } else {
        s
    }
}

/// `s` without the copies of `c` at its end.
pub open spec fn trimmed_end_of(s: Seq<char>, c: char) -> Seq<char>
    decreases s.len(),
{
    if s.len() > 0 && s.last() == c {
        trimmed_end_of(s.drop_last(), c)
    } else {
        s
    }
}

/// `s` without the copies of `c` at either end.
pub open spec fn trimmed_of(s: Seq<char>, c: char) -> Seq<char> {
    trimmed_end_of(trimmed_start_of(s, c), c)
}

/// A text of nothing but white space.
pub open spec fn is_blank(s: Seq<char>) -> bool {
    trimmed(s).len() == 0
}

/// A text with no white space at either end is left as it is.
pub proof fn lemma_trimmed_is(s: Seq<char>)
    requires
        s.len() > 0,
        !is_white_space(s.first()),
        !is_white_space(s.last()),
    ensures
        trimmed(s) == s,
{
}

/// Trimming adds no character.
pub proof fn lemma_trimmed_keeps(s: Seq<char>, c: char)
    requires
        !s.contains(c),
    ensures
        !trimmed(s).contains(c),
{
    lemma_trimmed_start_keeps(s, c);
    lemma_trimmed_end_keeps(trimmed_start(s), c);
}

proof fn lemma_trimmed_start_keeps(s: Seq<char>, c: char)
    requires
        !s.contains(c),
    ensures
        !trimmed_start(s).contains(c),
    decreases s.len(),
{
    if s.len() > 0 && is_white_space(s.first()) {
        let t = s.drop_first();
        assert forall|i: int| 0 <= i < t.len() implies t[i] != c by {
            assert(s.contains(s[i + 1]));
        }
        lemma_trimmed_start_keeps(t, c);
    }
}

proof fn lemma_trimmed_end_keeps(s: Seq<char>, c: char)
    requires
        !s.contains(c),
    ensures
        !trimmed_end(s).contains(c),
    decreases s.len(),
{
    if s.len() > 0 && is_white_space(s.last()) {
        let t = s.drop_last();
        assert forall|i: int| 0 <= i < t.len() implies t[i] != c by {
            assert(s.contains(s[i]));
        }
        lemma_trimmed_end_keeps(t, c);
    }
}

proof fn lemma_trimmed_start_of(s: Seq<char>, q: char, c: char)
    requires
        !s.contains(c),
    ensures
        !trimmed_start_of(s, q).contains(c),
        trimmed_start_of(s, q).len() > 0 ==> trimmed_start_of(s, q).first() != q,
    decreases s.len(),
{
    if s.len() > 0 && s.first() == q {
        let t = s.drop_first();
        assert forall|i: int| 0 <= i < t.len() implies t[i] != c by {
            assert(s.contains(s[i + 1]));
        }
        lemma_trimmed_start_of(t, q, c);
    }
}

proof fn lemma_trimmed_end_of(s: Seq<char>, q: char, c: char)
    requires
        !s.contains(c),
    ensures
        !trimmed_end_of(s, q).contains(c),
        trimmed_end_of(s, q).len() > 0 ==> trimmed_end_of(s, q).last() != q,
        trimmed_end_of(s, q).len() > 0 ==> trimmed_end_of(s, q).first() == s.first(),
    decreases s.len(),
{
    if s.len() > 0 && s.last() == q {
        let t = s.drop_last();
        assert forall|i: int| 0 <= i < t.len() implies t[i] != c by {
            assert(s.contains(s[i]));
        }
        lemma_trimmed_end_of(t, q, c);
    }
}

/// What is left after copies of `q` are removed from both ends has none there, and
/// no character that was not there before.
pub proof fn lemma_trimmed_of(s: Seq<char>, q: char, c: char)
    requires
        !s.contains(c),
    ensures
        !trimmed_of(s, q).contains(c),
        trimmed_of(s, q).len() > 0 ==> trimmed_of(s, q).first() != q && trimmed_of(s, q).last()
            != q,
{
    lemma_trimmed_start_of(s, q, c);
    lemma_trimmed_end_of(trimmed_start_of(s, q), q, c);
}

/// Trailing white space does not hide a first character that is none.
pub proof fn lemma_trimmed_end_first(s: Seq<char>)
    requires
        s.len() > 0,
        !is_white_space(s.first()),
    ensures
        trimmed_end(s).len() > 0,
        trimmed_end(s).first() == s.first(),
    decreases s.len(),
{
    if is_white_space(s.last()) {
        lemma_trimmed_end_first(s.drop_last());
    }
}

/// What stands before a text that is not blank stays when its end is trimmed.
pub proof fn lemma_trimmed_end_append(a: Seq<char>, b: Seq<char>)
    requires
        trimmed_end(b).len() > 0,
    ensures
        trimmed_end(a + b) == a + trimmed_end(b),
    decreases b.len(),
{
    assert((a + b).last() == b.last());
    if is_white_space(b.last()) {
        assert((a + b).drop_last() == a + b.drop_last());
        lemma_trimmed_end_append(a, b.drop_last());
    }
}

/// A text with a character that is not white space is not blank.
pub proof fn lemma_trimmed_has(s: Seq<char>, k: int)
    requires
        0 <= k < s.len(),
        !is_white_space(s[k]),
    ensures
        !is_blank(s),
    decreases s.len(),
{
    if is_white_space(s.first()) {
        lemma_trimmed_has(s.drop_first(), k - 1);
    } else {
        lemma_trimmed_end_first(s);
    }
}

/// Removes white space from both ends.
pub fn trim<'a>(s: &'a [char]) -> (r: &'a [char])
    ensures
        r@ == trimmed(s@),
{
    let n: usize = s.len();
    let mut i: usize = 0;
    assert(s@.skip(0) == s@);
    while i < n && white_space(s[i])
        invariant
            i <= n,
            n == s@.len(),
            trimmed_start(s@) == trimmed_start(s@.skip(i as int)),
        decreases n - i,
    {
        assert(s@.skip(i as int).drop_first() == s@.skip(i + 1));
        i = i + 1;
    }
    assert(trimmed_start(s@) == s@.skip(i as int));
    let mut j: usize = n;
    assert(s@.subrange(i as int, n as int) == s@.skip(i as int));
    while i < j && white_space(s[j - 1])
        invariant
            i <= j <= n,
            n == s@.len(),
            trimmed(s@) == trimmed_end(s@.subrange(i as int, j as int)),
        decreases j - i,
    {
        assert(s@.subrange(i as int, j as int).drop_last() == s@.subrange(i as int, j - 1));
        j = j - 1;
    }
    slice_subrange(s, i, j)
}

/// Removes the copies of `c` at the end.
pub fn trim_end_of<'a>(s: &'a [char], c: char) -> (r: &'a [char])
    ensures
        r@ == trimmed_end_of(s@, c),
{
    let mut j: usize = s.len();
    assert(s@.take(j as int) == s@);
    while 0 < j && s[j - 1] == c
        invariant
            j <= s@.len(),
            trimmed_end_of(s@, c) == trimmed_end_of(s@.take(j as int), c),
        decreases j,
    {
        assert(s@.take(j as int).drop_last() == s@.take(j - 1));
        j = j - 1;
    }
    assert(s@.subrange(0, j as int) == s@.take(j as int));
    slice_subrange(s, 0, j)
}

/// Removes the copies of `c` at both ends.
pub fn trim_of<'a>(s: &'a [char], c: char) -> (r: &'a [char])
    ensures
        r@ == trimmed_of(s@, c),
{
    let n: usize = s.len();
    let mut i: usize = 0;
    assert(s@.skip(0) == s@);
    while i < n && s[i] == c
        invariant
            i <= n,
            n == s@.len(),
            trimmed_start_of(s@, c) == trimmed_start_of(s@.skip(i as int), c),
        decreases n - i,
    {
        assert(s@.skip(i as int).drop_first() == s@.skip(i + 1));
        i = i + 1;
    }
    assert(s@.subrange(i as int, n as int) == s@.skip(i as int));
    trim_end_of(slice_subrange(s, i, n), c)
}

/// Tells whether nothing but white space is there.
pub fn blank(s: &[char]) -> (r: bool)
    ensures
        r == is_blank(s@),
{
    trim(s).len() == 0
}

/// The index of the first `c` of `s`, or the length of `s` where it has none.
pub open spec fn first_at(s: Seq<char>, c: char) -> int
    decreases s.len(),
{
    if s.len() == 0 {
        0
    } else if s.first() == c {
        0
    } else {
        1 + first_at(s.drop_first(), c)
    }
}

/// What `first_at` finds: the first index that holds `c`.
pub proof fn lemma_first_at(s: Seq<char>, c: char)
    ensures
        0 <= first_at(s, c) <= s.len(),
        first_at(s, c) < s.len() ==> s[first_at(s, c)] == c,
        forall|i: int| 0 <= i < first_at(s, c) ==> s[i] != c,
    decreases s.len(),
{
    if s.len() > 0 && s.first() != c {
        lemma_first_at(s.drop_first(), c);
        assert forall|i: int| 0 <= i < first_at(s, c) implies s[i] != c by {
            if i > 0 {
                assert(s.drop_first()[i - 1] == s[i]);
            }
        }
    }
}

/// The index that `first_at` finds, from what it has to hold.
pub proof fn lemma_first_at_is(s: Seq<char>, c: char, k: int)
    requires
        0 <= k <= s.len(),
        k < s.len() ==> s[k] == c,
        forall|i: int| 0 <= i < k ==> s[i] != c,
    ensures
        first_at(s, c) == k,
{
    lemma_first_at(s, c);
}

/// Finds the first `c`; the length of `s` means that there is none.
pub fn find_char(s: &[char], c: char) -> (r: usize)
    ensures
        r == first_at(s@, c),
        r <= s@.len(),
{
    let mut i: usize = 0;
    while i < s.len() && s[i] != c
        invariant
            i <= s@.len(),
            forall|j: int| 0 <= j < i ==> s@[j] != c,
        decreases s.len() - i,
    {
        i = i + 1;
    }
    proof {
        lemma_first_at_is(s@, c, i as int);
    }
    i
}

/// A line without the carriage return at its end.
pub open spec fn chomped(s: Seq<char>) -> Seq<char> {
    if s.len() > 0 && s.last() == '\r' {
        s.drop_last()
    } else {
        s
    }
}

/// The lines of a text. A line ends with a line feed, or with a carriage return and
/// a line feed, neither of which belongs to it; the last line may lack its end.
pub open spec fn lines_of(s: Seq<char>) -> Seq<Seq<char>>
    decreases s.len(),
    via lines_of_shrinks
{
    if s.len() == 0 {
        Seq::empty()
    } else {
        let k = first_at(s, '\n');
        if k == s.len() {
            seq![s]
        } else {
            seq![chomped(s.take(k))] + lines_of(s.skip(k + 1))
        }
    }
}

#[via_fn]
proof fn lines_of_shrinks(s: Seq<char>) {
    lemma_first_at(s, '\n');
}

/// No line of a text holds a line feed.
pub proof fn lemma_lines_of_have_no_feed(s: Seq<char>)
    ensures
        forall|i: int| 0 <= i < lines_of(s).len() ==> !(#[trigger] lines_of(s)[i]).contains('\n'),
    decreases s.len(),
{
    if s.len() > 0 {
        let k = first_at(s, '\n');
        lemma_first_at(s, '\n');
        if k < s.len() {
            lemma_lines_of_have_no_feed(s.skip(k + 1));
            let line = chomped(s.take(k));
            assert forall|i: int| 0 <= i < line.len() implies line[i] != '\n' by {
                assert(line[i] == s[i]);
            }
            assert forall|i: int| 0 <= i < lines_of(s).len() implies !(
            #[trigger] lines_of(s)[i]).contains('\n') by {
                if i > 0 {
                    assert(lines_of(s)[i] == lines_of(s.skip(k + 1))[i - 1]);
                }
            }
        }
    }
}

/// The lines of a text hold no character that is not in it.
pub proof fn lemma_lines_keep(s: Seq<char>, c: char)
    requires
        !s.contains(c),
    ensures
        forall|i: int| 0 <= i < lines_of(s).len() ==> !(#[trigger] lines_of(s)[i]).contains(c),
    decreases s.len(),
{
    if s.len() > 0 {
        let k = first_at(s, '\n');
        lemma_first_at(s, '\n');
        if k < s.len() {
            let rest = s.skip(k + 1);
            assert forall|i: int| 0 <= i < rest.len() implies rest[i] != c by {
                assert(s.contains(s[k + 1 + i]));
            }
            lemma_lines_keep(rest, c);
            let line = chomped(s.take(k));
            assert forall|i: int| 0 <= i < line.len() implies line[i] != c by {
                assert(line[i] == s[i]);
                assert(s.contains(s[i]));
            }
            assert forall|i: int| 0 <= i < lines_of(s).len() implies !(
            #[trigger] lines_of(s)[i]).contains(c) by {
                if i > 0 {
                    assert(lines_of(s)[i] == lines_of(rest)[i - 1]);
                }
            }
        }
    }
}

/// The views of a list of slices.
pub open spec fn slice_views(v: Seq<&[char]>) -> Seq<Seq<char>> {
    v.map_values(|l: &[char]| l@)
}

/// Splits a text into its lines.
pub fn lines<'a>(s: &'a [char]) -> (r: Vec<&'a [char]>)
    ensures
        slice_views(r@) == lines_of(s@),
{
    let n: usize = s.len();
    let mut out: Vec<&'a [char]> = Vec::new();
    let mut i: usize = 0;
    assert(s@.skip(0) == s@);
    while i < n
        invariant
            i <= n,
            n == s@.len(),
            slice_views(out@) + lines_of(s@.skip(i as int)) == lines_of(s@),
        decreases n - i,
    {
        let rest = slice_subrange(s, i, n);
        assert(rest@ == s@.skip(i as int));
        let k: usize = find_char(rest, '\n');
        let ghost before = slice_views(out@);
        if k == n - i {
            out.push(rest);
            assert(slice_views(out@) == before + seq![rest@]);
            i = n;
        } else {
            let line = if k > 0 && rest[k - 1] == '\r' {
                slice_subrange(rest, 0, k - 1)
            } else {
                slice_subrange(rest, 0, k)
            };
            assert(line@ == chomped(rest@.take(k as int)));
            out.push(line);
            assert(slice_views(out@) == before + seq![line@]);
            assert(rest@.skip(k + 1) == s@.skip(i + k + 1));
            assert(before + (seq![line@] + lines_of(s@.skip(i + k + 1))) == (before + seq![line@])
                + lines_of(s@.skip(i + k + 1)));
            i = i + k + 1;
        }
    }
    assert(s@.skip(i as int).len() == 0);
    assert(slice_views(out@) + Seq::<Seq<char>>::empty() == slice_views(out@));
    out
}

/// The parts before and after the first `c`, if there is one.
pub open spec fn split_once_at(s: Seq<char>, c: char) -> Option<(Seq<char>, Seq<char>)> {
    let k = first_at(s, c);
    if k < s.len() {
        Some((s.take(k), s.skip(k + 1)))
    } else {
        None
    }
}

/// Splits at the first `c`.
pub fn split_once<'a>(s: &'a [char], c: char) -> (r: Option<(&'a [char], &'a [char])>)
    ensures
        match r {
            Some((a, b)) => split_once_at(s@, c) == Some((a@, b@)),
            None => split_once_at(s@, c) is None,
        },
{
    let k: usize = find_char(s, c);
    if k < s.len() {
        let a = slice_subrange(s, 0, k);
        let b = slice_subrange(s, k + 1, s.len());
        assert(a@ == s@.take(k as int));
        assert(b@ == s@.skip(k + 1));
        Some((a, b))
    } else {
        None
    }
}

/// The parts of `s` between the copies of `c`, at most `n` of them: the last part
/// holds whatever is left.
pub open spec fn split_n_at(s: Seq<char>, c: char, n: nat) -> Seq<Seq<char>>
    decreases n,
{
    let k = first_at(s, c);
    if n <= 1 || k == s.len() {
        seq![s]
    } else {
        seq![s.take(k)] + split_n_at(s.skip(k + 1), c, (n - 1) as nat)
    }
}

/// A part without `c`, then `c`, is the first part of the split.
pub proof fn lemma_split_n_first(a: Seq<char>, b: Seq<char>, c: char, n: nat)
    requires
        n > 1,
        !a.contains(c),
    ensures
        split_n_at(a + seq![c] + b, c, n) == seq![a] + split_n_at(b, c, (n - 1) as nat),
{
    let s = a + seq![c] + b;
    assert(s[a.len() as int] == c);
    assert forall|i: int| 0 <= i < a.len() implies s[i] != c by {
        assert(s[i] == a[i]);
    }
    lemma_first_at_is(s, c, a.len() as int);
    assert(s.take(a.len() as int) == a);
    assert(s.skip(a.len() as int + 1) == b);
}

/// Splits at the copies of `c` into at most `n` parts.
pub fn split_n<'a>(s: &'a [char], c: char, n: usize) -> (r: Vec<&'a [char]>)
    requires
        n > 0,
    ensures
        slice_views(r@) == split_n_at(s@, c, n as nat),
{
    let mut out: Vec<&'a [char]> = Vec::new();
    let mut rest: &'a [char] = s;
    let mut left: usize = n;
    assert(slice_views(out@) + split_n_at(s@, c, n as nat) == split_n_at(s@, c, n as nat));
    loop
        invariant_except_break
            left > 0,
            slice_views(out@) + split_n_at(rest@, c, left as nat) == split_n_at(s@, c, n as nat),
        ensures
            slice_views(out@) == split_n_at(s@, c, n as nat),
        decreases left,
    {
        let k: usize = find_char(rest, c);
        let ghost before = slice_views(out@);
        if left == 1 || k == rest.len() {
            out.push(rest);
            assert(slice_views(out@) == before + seq![rest@]);
            break;
        }
        let part = slice_subrange(rest, 0, k);
        assert(part@ == rest@.take(k as int));
        let tail = slice_subrange(rest, k + 1, rest.len());
        assert(tail@ == rest@.skip(k + 1));
        out.push(part);
        assert(slice_views(out@) == before + seq![part@]);
        assert(before + (seq![part@] + split_n_at(tail@, c, (left - 1) as nat)) == (before
            + seq![part@]) + split_n_at(tail@, c, (left - 1) as nat));
        rest = tail;
        left = left - 1;
    }
    out
}

/// The index of the first white space of `s`, or its length where it has none.
pub open spec fn first_space(s: Seq<char>) -> int
    decreases s.len(),
{
    if s.len() == 0 {
        0
    } else if is_white_space(s.first()) {
        0
    } else {
        1 + first_space(s.drop_first())
    }
}

/// Finds the first white space; the length of `s` means that there is none.
pub fn find_space(s: &[char]) -> (r: usize)
    ensures
        r == first_space(s@),
        r <= s@.len(),
{
    let mut i: usize = 0;
    assert(s@.skip(0) == s@);
    while i < s.len() && !white_space(s[i])
        invariant
            i <= s@.len(),
            first_space(s@) == i + first_space(s@.skip(i as int)),
        decreases s.len() - i,
    {
        assert(s@.skip(i as int).drop_first() == s@.skip(i + 1));
        i = i + 1;
    }
    i
}

/// `pat` stands in `s` at index `i`.
pub open spec fn occurs_at(s: Seq<char>, pat: Seq<char>, i: int) -> bool {
    0 <= i && i + pat.len() <= s.len() && s.subrange(i, i + pat.len()) == pat
}

/// The first index from `i` on at which `pat` stands in `s`.
pub open spec fn find_from(s: Seq<char>, pat: Seq<char>, i: int) -> Option<int>
    decreases s.len() - i + 1,
{
    if i > s.len() {
        None
    } else if occurs_at(s, pat, i) {
        Some(i)
    } else {
        find_from(s, pat, i + 1)
    }
}

/// The first index at which `pat` stands in `s`.
pub open spec fn first_match(s: Seq<char>, pat: Seq<char>) -> Option<int> {
    find_from(s, pat, 0)
}

/// The last index up to `i` at which `pat` stands in `s`.
pub open spec fn rfind_from(s: Seq<char>, pat: Seq<char>, i: int) -> Option<int>
    decreases i + 1,
{
    if i < 0 {
        None
    } else if occurs_at(s, pat, i) {
        Some(i)
    } else {
        rfind_from(s, pat, i - 1)
    }
}

/// The last index at which `pat` stands in `s`.
pub open spec fn last_match(s: Seq<char>, pat: Seq<char>) -> Option<int> {
    rfind_from(s, pat, s.len() as int)
}

proof fn lemma_find_from_is(s: Seq<char>, pat: Seq<char>, i: int, k: int)
    requires
        0 <= i <= k,
        occurs_at(s, pat, k),
        forall|j: int| i <= j < k ==> !occurs_at(s, pat, j),
    ensures
        find_from(s, pat, i) == Some(k),
    decreases k - i,
{
    if i < k {
        lemma_find_from_is(s, pat, i + 1, k);
    }
}

/// A copy of `pat` with none before it is the first one.
pub proof fn lemma_first_match_is(s: Seq<char>, pat: Seq<char>, k: int)
    requires
        occurs_at(s, pat, k),
        forall|j: int| 0 <= j < k ==> !occurs_at(s, pat, j),
    ensures
        first_match(s, pat) == Some(k),
{
    lemma_find_from_is(s, pat, 0, k);
}

proof fn lemma_find_from_none(s: Seq<char>, pat: Seq<char>, i: int)
    requires
        forall|j: int| !occurs_at(s, pat, j),
    ensures
        find_from(s, pat, i) is None,
    decreases s.len() - i + 1,
{
    if i <= s.len() {
        lemma_find_from_none(s, pat, i + 1);
    }
}

/// Where `pat` stands nowhere, there is no first copy of it.
pub proof fn lemma_no_first_match(s: Seq<char>, pat: Seq<char>)
    requires
        forall|j: int| !occurs_at(s, pat, j),
    ensures
        first_match(s, pat) is None,
{
    lemma_find_from_none(s, pat, 0);
}

proof fn lemma_rfind_from_is(s: Seq<char>, pat: Seq<char>, i: int, k: int)
    requires
        k <= i,
        occurs_at(s, pat, k),
        forall|j: int| k < j <= i ==> !occurs_at(s, pat, j),
    ensures
        rfind_from(s, pat, i) == Some(k),
    decreases i - k,
{
    if k < i {
        lemma_rfind_from_is(s, pat, i - 1, k);
    }
}

/// A copy of `pat` with none after it is the last one.
pub proof fn lemma_last_match_is(s: Seq<char>, pat: Seq<char>, k: int)
    requires
        occurs_at(s, pat, k),
        forall|j: int| k < j <= s.len() ==> !occurs_at(s, pat, j),
    ensures
        last_match(s, pat) == Some(k),
{
    lemma_rfind_from_is(s, pat, s.len() as int, k);
}

/// `pat` does not stand where its first character does not.
pub proof fn lemma_no_match(s: Seq<char>, pat: Seq<char>, i: int)
    requires
        pat.len() > 0,
        0 <= i < s.len() ==> s[i] != pat[0],
    ensures
        !occurs_at(s, pat, i),
{
    if occurs_at(s, pat, i) {
        assert(s.subrange(i, i + pat.len())[0] == s[i]);
    }
}

/// Tells whether `pat` stands in `s` at index `i`.
pub fn matches_at(s: &[char], pat: &[char], i: usize) -> (r: bool)
    requires
        i <= s@.len(),
    ensures
        r == occurs_at(s@, pat@, i as int),
{
    let n: usize = pat.len();
    if n > s.len() - i {
        return false;
    }
    let mut j: usize = 0;
    while j < n
        invariant
            j <= n,
            n == pat@.len(),
            i + n <= s.len(),
            forall|k: int| 0 <= k < j ==> s@[i + k] == pat@[k],
        decreases n - j,
    {
        if s[i + j] != pat[j] {
            assert(s@.subrange(i as int, i + n)[j as int] != pat@[j as int]);
            return false;
        }
        j = j + 1;
    }
    assert(s@.subrange(i as int, i + n) == pat@);
    true
}

/// Finds the first copy of `pat`.
pub fn find(s: &[char], pat: &[char]) -> (r: Option<usize>)
    ensures
        match r {
            Some(i) => first_match(s@, pat@) == Some(i as int) && i + pat@.len() <= s@.len(),
            None => first_match(s@, pat@) is None,
        },
{
    let mut i: usize = 0;
    loop
        invariant
            i <= s@.len(),
            find_from(s@, pat@, i as int) == first_match(s@, pat@),
        decreases s.len() - i,
    {
        if matches_at(s, pat, i) {
            return Some(i);
        }
        if i == s.len() {
            assert(find_from(s@, pat@, i + 1) is None);
            return None;
        }
        i = i + 1;
    }
}

/// Finds the last copy of `pat`.
pub fn rfind(s: &[char], pat: &[char]) -> (r: Option<usize>)
    ensures
        match r {
            Some(i) => last_match(s@, pat@) == Some(i as int) && i + pat@.len() <= s@.len(),
            None => last_match(s@, pat@) is None,
        },
{
    let mut i: usize = s.len();
    loop
        invariant
            i <= s@.len(),
            rfind_from(s@, pat@, i as int) == last_match(s@, pat@),
        decreases i,
    {
        if matches_at(s, pat, i) {
            return Some(i);
        }
        if i == 0 {
            assert(rfind_from(s@, pat@, -1) is None);
            return None;
        }
        i = i - 1;
    }
}

/// Tells whether `s` starts with `pat`.
pub fn starts_with(s: &[char], pat: &[char]) -> (r: bool)
    ensures
        r == pat@.is_prefix_of(s@),
{
    matches_at(s, pat, 0)
}

/// What follows `pat` at the start of `s`, if `s` starts with it.
pub open spec fn after_prefix(s: Seq<char>, pat: Seq<char>) -> Option<Seq<char>> {
    if pat.is_prefix_of(s) {
        Some(s.skip(pat.len() as int))
    } else {
        None
    }
}

/// Removes `pat` from the start of `s`.
pub fn strip_prefix<'a>(s: &'a [char], pat: &[char]) -> (r: Option<&'a [char]>)
    ensures
        match r {
            Some(t) => after_prefix(s@, pat@) == Some(t@),
            None => after_prefix(s@, pat@) is None,
        },
{
    if starts_with(s, pat) {
        let t = slice_subrange(s, pat.len(), s.len());
        assert(t@ == s@.skip(pat@.len() as int));
        Some(t)
    } else {
        None
    }
}

/// What precedes `pat` at the end of `s`, if `s` ends with it.
pub open spec fn before_suffix(s: Seq<char>, pat: Seq<char>) -> Option<Seq<char>> {
    if pat.is_suffix_of(s) {
        Some(s.take(s.len() - pat.len()))
    } else {
        None
    }
}

/// Removes `pat` from the end of `s`.
pub fn strip_suffix<'a>(s: &'a [char], pat: &[char]) -> (r: Option<&'a [char]>)
    ensures
        match r {
            Some(t) => before_suffix(s@, pat@) == Some(t@),
            None => before_suffix(s@, pat@) is None,
        },
{
    if pat.len() <= s.len() && matches_at(s, pat, s.len() - pat.len()) {
        let t = slice_subrange(s, 0, s.len() - pat.len());
        assert(t@ == s@.take(s@.len() - pat@.len()));
        Some(t)
    } else {
        None
    }
}

/// Tells whether two texts are the same.
pub fn same(a: &[char], b: &[char]) -> (r: bool)
    ensures
        r == (a@ == b@),
{
    if a.len() != b.len() {
        return false;
    }
    assert(a@.subrange(0, a@.len() as int) == a@);
    matches_at(a, b, 0)
}

/// Tells whether two strings are the same.
pub fn same_text(a: &str, b: &str) -> (r: bool)
    ensures
        r == (a@ == b@),
{
    let x = chars_of(a);
    let y = chars_of(b);
    same(x.as_slice(), y.as_slice())
}

/// The first line of a text, empty where the text is.
pub open spec fn first_line_of(s: Seq<char>) -> Seq<char> {
    if lines_of(s).len() == 0 {
        Seq::empty()
    } else {
        lines_of(s)[0]
    }
}

/// The first line.
pub fn first_line<'a>(s: &'a [char]) -> (r: &'a [char])
    ensures
        r@ == first_line_of(s@),
{
    let ls = lines(s);
    if ls.len() == 0 {
        slice_subrange(s, 0, 0)
    } else {
        assert(slice_views(ls@)[0] == ls@[0]@);
        ls[0]
    }
}

/// The lines of a text after its first line.
pub open spec fn rest_lines_of(s: Seq<char>) -> Seq<Seq<char>> {
    if lines_of(s).len() == 0 {
        Seq::empty()
    } else {
        lines_of(s).drop_first()
    }
}

/// Splits a text into the lines after its first line.
pub fn rest_lines<'a>(s: &'a [char]) -> (r: Vec<&'a [char]>)
    ensures
        slice_views(r@) == rest_lines_of(s@),
{
    let mut ls = lines(s);
    if ls.len() > 0 {
        let ghost all = ls@;
        let _ = ls.remove(0);
        assert(slice_views(ls@) == slice_views(all).drop_first());
    }
    ls
}

/// The lines that are not blank.
pub open spec fn written(lines: Seq<Seq<char>>) -> Seq<Seq<char>>
    decreases lines.len(),
{
    if lines.len() == 0 {
        lines
    } else if is_blank(lines.first()) {
        written(lines.drop_first())
    } else {
        seq![lines.first()] + written(lines.drop_first())
    }
}

/// The lines of a text that ends with a line feed, and of what follows it, are those
/// of the two texts one after another.
pub proof fn lemma_lines_of_append(a: Seq<char>, b: Seq<char>)
    requires
        a.len() > 0,
        a.last() == '\n',
    ensures
        lines_of(a + b) == lines_of(a) + lines_of(b),
        rest_lines_of(a + b) == rest_lines_of(a) + lines_of(b),
    decreases a.len(),
{
    let k = first_at(a, '\n');
    lemma_first_at(a, '\n');
    assert(k < a.len());
    let s = a + b;
    assert forall|i: int| 0 <= i < k implies s[i] != '\n' by {
        assert(s[i] == a[i]);
    }
    lemma_first_at_is(s, '\n', k);
    assert(s.take(k) == a.take(k));
    let rest = a.skip(k + 1);
    assert(s.skip(k + 1) == rest + b);
    if rest.len() == 0 {
        assert(rest + b == b);
    } else {
        lemma_lines_of_append(rest, b);
    }
    let first = seq![chomped(a.take(k))];
    assert(lines_of(a) == first + lines_of(rest));
    assert(lines_of(s) == lines_of(a) + lines_of(b));
    assert(rest_lines_of(s) == rest_lines_of(a) + lines_of(b));
}

/// Whether a line is blank does not depend on the others.
pub proof fn lemma_written_append(a: Seq<Seq<char>>, b: Seq<Seq<char>>)
    ensures
        written(a + b) == written(a) + written(b),
    decreases a.len(),
{
    if a.len() == 0 {
        assert(a + b == b);
        assert(written(a) + written(b) == written(b));
    } else {
        assert((a + b).drop_first() == a.drop_first() + b);
        lemma_written_append(a.drop_first(), b);
        assert(written(a + b) == written(a) + written(b));
    }
}

/// Only white space.
pub open spec fn all_white_space(s: Seq<char>) -> bool {
    forall|i: int| 0 <= i < s.len() ==> is_white_space(#[trigger] s[i])
}

/// Only copies of `c`.
pub open spec fn all_are(s: Seq<char>, c: char) -> bool {
    forall|i: int| 0 <= i < s.len() ==> #[trigger] s[i] == c
}

/// White space is the twenty-five characters that Unicode calls so.
pub proof fn lemma_white_space(c: char)
    ensures
        is_white_space(c) <==> (9 <= c as int <= 13 || c as int == 0x20 || c as int == 0x85
            || c as int == 0xa0 || c as int == 0x1680 || 0x2000 <= c as int <= 0x200a || c as int
            == 0x2028 || c as int == 0x2029 || c as int == 0x202f || c as int == 0x205f || c as int
            == 0x3000),
{
}

/// White space at the start makes no difference to what is left after it.
pub proof fn lemma_trimmed_start_skips(a: Seq<char>, t: Seq<char>)
    requires
        all_white_space(a),
    ensures
        trimmed_start(a + t) == trimmed_start(t),
    decreases a.len(),
{
    if a.len() == 0 {
        assert(a + t == t);
    } else {
        assert((a + t).first() == a[0]);
        assert((a + t).drop_first() == a.drop_first() + t);
        assert forall|i: int| 0 <= i < a.drop_first().len() implies is_white_space(
            #[trigger] a.drop_first()[i],
        ) by {
            assert(a.drop_first()[i] == a[i + 1]);
        }
        lemma_trimmed_start_skips(a.drop_first(), t);
    }
}

/// White space at the end makes no difference to what is left before it.
pub proof fn lemma_trimmed_end_skips(t: Seq<char>, b: Seq<char>)
    requires
        all_white_space(b),
    ensures
        trimmed_end(t + b) == trimmed_end(t),
    decreases b.len(),
{
    if b.len() == 0 {
        assert(t + b == t);
    } else {
        assert((t + b).last() == b[b.len() - 1]);
        assert((t + b).drop_last() == t + b.drop_last());
        assert forall|i: int| 0 <= i < b.drop_last().len() implies is_white_space(
            #[trigger] b.drop_last()[i],
        ) by {
            assert(b.drop_last()[i] == b[i]);
        }
        lemma_trimmed_end_skips(t, b.drop_last());
    }
}

/// Trimming removes just the white space around a text, and nothing is left of white
/// space alone.
pub proof fn lemma_trimmed_parts(a: Seq<char>, t: Seq<char>, b: Seq<char>)
    requires
        all_white_space(a),
        all_white_space(b),
        t.len() > 0 ==> !is_white_space(t.first()) && !is_white_space(t.last()),
    ensures
        trimmed(a + t + b) == t,
{
    assert(a + t + b == a + (t + b));
    lemma_trimmed_start_skips(a, t + b);
    if t.len() > 0 {
        assert((t + b).first() == t.first());
        assert(trimmed_start(t + b) == t + b);
    } else {
        assert(t + b == b + Seq::<char>::empty());
        lemma_trimmed_start_skips(b, Seq::empty());
        assert(trimmed_start(Seq::<char>::empty()) == Seq::<char>::empty());
        assert(trimmed(a + t + b) == t);
    }
    lemma_trimmed_end_skips(t, b);
}

/// A text is blank exactly when it has nothing but white space.
pub proof fn lemma_is_blank(s: Seq<char>)
    ensures
        is_blank(s) <==> all_white_space(s),
{
    if all_white_space(s) {
        lemma_trimmed_parts(s, Seq::empty(), Seq::empty());
        assert(s + Seq::<char>::empty() + Seq::<char>::empty() == s);
    } else {
        let k = choose|k: int| 0 <= k < s.len() && !is_white_space(#[trigger] s[k]);
        lemma_trimmed_has(s, k);
    }
}

/// The copies of a character at the end go, and nothing else.
pub proof fn lemma_trimmed_end_of_parts(t: Seq<char>, b: Seq<char>, c: char)
    requires
        all_are(b, c),
        t.len() > 0 ==> t.last() != c,
    ensures
        trimmed_end_of(t + b, c) == t,
    decreases b.len(),
{
    if b.len() == 0 {
        assert(t + b == t);
    } else {
        assert((t + b).last() == b[b.len() - 1]);
        assert((t + b).drop_last() == t + b.drop_last());
        assert forall|i: int| 0 <= i < b.drop_last().len() implies #[trigger] b.drop_last()[i]
            == c by {
            assert(b.drop_last()[i] == b[i]);
        }
        lemma_trimmed_end_of_parts(t, b.drop_last(), c);
    }
}

proof fn lemma_trimmed_start_of_parts(a: Seq<char>, t: Seq<char>, c: char)
    requires
        all_are(a, c),
        t.len() > 0 ==> t.first() != c,
    ensures
        trimmed_start_of(a + t, c) == t,
    decreases a.len(),
{
    if a.len() == 0 {
        assert(a + t == t);
    } else {
        assert((a + t).first() == a[0]);
        assert((a + t).drop_first() == a.drop_first() + t);
        assert forall|i: int| 0 <= i < a.drop_first().len() implies #[trigger] a.drop_first()[i]
            == c by {
            assert(a.drop_first()[i] == a[i + 1]);
        }
        lemma_trimmed_start_of_parts(a.drop_first(), t, c);
    }
}

/// The copies of a character at both ends go, and nothing else.
pub proof fn lemma_trimmed_of_parts(a: Seq<char>, t: Seq<char>, b: Seq<char>, c: char)
    requires
        all_are(a, c),
        all_are(b, c),
        t.len() > 0 ==> t.first() != c && t.last() != c,
    ensures
        trimmed_of(a + t + b, c) == t,
{
    if t.len() > 0 {
        assert(a + t + b == a + (t + b));
        assert((t + b).first() == t.first());
        lemma_trimmed_start_of_parts(a, t + b, c);
        lemma_trimmed_end_of_parts(t, b, c);
    } else {
        let ab = a + b;
        assert forall|i: int| 0 <= i < ab.len() implies #[trigger] ab[i] == c by {
            if i >= a.len() {
                assert(ab[i] == b[i - a.len()]);
            }
        }
        assert(a + t + b == ab + Seq::<char>::empty());
        lemma_trimmed_start_of_parts(ab, Seq::empty(), c);
        lemma_trimmed_end_of_parts(Seq::empty(), Seq::empty(), c);
        assert(Seq::<char>::empty() + Seq::<char>::empty() == Seq::<char>::empty());
    }
}

/// A line feed ends a line, and a carriage return before it belongs to the end; what
/// follows is read on its own.
pub proof fn lemma_lines_of_cons(line: Seq<char>, rest: Seq<char>)
    requires
        !line.contains('\n'),
        line.len() > 0 ==> line.last() != '\r',
    ensures
        lines_of(line + seq!['\n'] + rest) == seq![line] + lines_of(rest),
        lines_of(line + seq!['\r', '\n'] + rest) == seq![line] + lines_of(rest),
{
    lemma_lines_of_cut(line, rest);
    let with_return = line.push('\r');
    assert forall|i: int| 0 <= i < with_return.len() implies with_return[i] != '\n' by {
        if i < line.len() {
            assert(line.contains(line[i]));
        }
    }
    lemma_lines_of_cut(with_return, rest);
    assert(with_return.drop_last() == line);
    assert(line + seq!['\r', '\n'] + rest == with_return + seq!['\n'] + rest);
}

proof fn lemma_lines_of_cut(line: Seq<char>, rest: Seq<char>)
    requires
        !line.contains('\n'),
    ensures
        lines_of(line + seq!['\n'] + rest) == seq![chomped(line)] + lines_of(rest),
{
    let s = line + seq!['\n'] + rest;
    let k = line.len() as int;
    assert(s[k] == '\n');
    assert forall|i: int| 0 <= i < k implies s[i] != '\n' by {
        assert(s[i] == line[i]);
        assert(line.contains(line[i]));
    }
    lemma_first_at_is(s, '\n', k);
    assert(s.take(k) == line);
    assert(s.skip(k + 1) == rest);
}

/// A text without a line feed is one line, and no text has no line.
pub proof fn lemma_lines_of_one(line: Seq<char>)
    requires
        !line.contains('\n'),
    ensures
        lines_of(line) == if line.len() == 0 {
            Seq::<Seq<char>>::empty()
        } else {
            seq![line]
        },
{
    assert forall|i: int| 0 <= i < line.len() implies line[i] != '\n' by {
        assert(line.contains(line[i]));
    }
    lemma_first_at_is(line, '\n', line.len() as int);
}

/// The first line and the lines after it are the lines.
pub proof fn lemma_first_and_rest(s: Seq<char>)
    requires
        s.len() > 0,
    ensures
        lines_of(s) == seq![first_line_of(s)] + rest_lines_of(s),
{
    lemma_first_at(s, '\n');
    assert(lines_of(s).len() > 0);
    assert(lines_of(s) == seq![first_line_of(s)] + rest_lines_of(s));
}

/// The first line of a text, and the lines after it one by one.
pub proof fn lemma_rest_lines(first: Seq<char>, line: Seq<char>, more: Seq<char>)
    requires
        !first.contains('\n'),
        !line.contains('\n'),
        line.len() > 0 ==> line.last() != '\r',
    ensures
        rest_lines_of(first) == Seq::<Seq<char>>::empty(),
        rest_lines_of(first + seq!['\n']) == Seq::<Seq<char>>::empty(),
        rest_lines_of(first + seq!['\n'] + more) == lines_of(more),
        rest_lines_of(first + seq!['\n'] + line + seq!['\n'] + more) == seq![line]
            + rest_lines_of(first + seq!['\n'] + more),
        rest_lines_of(first + seq!['\n'] + line + seq!['\r', '\n'] + more) == seq![line]
            + rest_lines_of(first + seq!['\n'] + more),
        line.len() > 0 ==> rest_lines_of(first + seq!['\n'] + line) == seq![line],
{
    lemma_lines_of_one(first);
    assert(rest_lines_of(first) == Seq::<Seq<char>>::empty());
    lemma_rest_after_first(first, Seq::empty());
    assert(first + seq!['\n'] + Seq::<char>::empty() == first + seq!['\n']);
    assert(lines_of(Seq::<char>::empty()) == Seq::<Seq<char>>::empty());
    lemma_rest_after_first(first, more);
    let a = line + seq!['\n'] + more;
    let b = line + seq!['\r', '\n'] + more;
    lemma_rest_after_first(first, a);
    lemma_rest_after_first(first, b);
    assert(first + seq!['\n'] + line + seq!['\n'] + more == first + seq!['\n'] + a);
    assert(first + seq!['\n'] + line + seq!['\r', '\n'] + more == first + seq!['\n'] + b);
    lemma_lines_of_cons(line, more);
    lemma_rest_after_first(first, line);
    lemma_lines_of_one(line);
}

proof fn lemma_rest_after_first(first: Seq<char>, more: Seq<char>)
    requires
        !first.contains('\n'),
    ensures
        rest_lines_of(first + seq!['\n'] + more) == lines_of(more),
{
    lemma_lines_of_cut(first, more);
    assert((seq![chomped(first)] + lines_of(more)).drop_first() == lines_of(more));
}

/// The first line of a text, whatever lines follow.
pub proof fn lemma_first_line(line: Seq<char>, more: Seq<char>)
    requires
        !line.contains('\n'),
        line.len() > 0 ==> line.last() != '\r',
    ensures
        first_line_of(line) == line,
        first_line_of(line + seq!['\n'] + more) == line,
        first_line_of(line + seq!['\r', '\n'] + more) == line,
{
    lemma_lines_of_one(line);
    lemma_lines_of_cons(line, more);
}

/// What a split at a character finds: the text up to the first one and the text after
/// it, and nothing where there is none.
pub proof fn lemma_split_once(a: Seq<char>, b: Seq<char>, c: char)
    requires
        !a.contains(c),
    ensures
        split_once_at(a + seq![c] + b, c) == Some((a, b)),
        split_once_at(a, c) is None,
{
    let s = a + seq![c] + b;
    assert(s[a.len() as int] == c);
    assert forall|i: int| 0 <= i < a.len() implies s[i] != c && a[i] != c by {
        assert(s[i] == a[i]);
        assert(a.contains(a[i]));
    }
    lemma_first_at_is(s, c, a.len() as int);
    lemma_first_at_is(a, c, a.len() as int);
    assert(s.take(a.len() as int) == a);
    assert(s.skip(a.len() as int + 1) == b);
}

/// A text without the character, or with no part left to cut off, is one part.
pub proof fn lemma_split_n_last(s: Seq<char>, c: char, n: nat)
    requires
        n == 1 || !s.contains(c),
    ensures
        split_n_at(s, c, n) == seq![s],
{
    if !s.contains(c) {
        assert forall|i: int| 0 <= i < s.len() implies s[i] != c by {
            assert(s.contains(s[i]));
        }
        lemma_first_at_is(s, c, s.len() as int);
    }
}

/// The first white space of a text: none stands before it.
pub proof fn lemma_first_space(s: Seq<char>)
    ensures
        0 <= first_space(s) <= s.len(),
        first_space(s) < s.len() ==> is_white_space(s[first_space(s)]),
        forall|i: int| 0 <= i < first_space(s) ==> !is_white_space(#[trigger] s[i]),
    decreases s.len(),
{
    if s.len() > 0 && !is_white_space(s.first()) {
        lemma_first_space(s.drop_first());
        assert forall|i: int| 0 <= i < first_space(s) implies !is_white_space(#[trigger] s[i]) by {
            if i > 0 {
                assert(s.drop_first()[i - 1] == s[i]);
            }
        }
    }
}

/// A text stands in another at an index exactly when it is cut out there.
pub proof fn lemma_occurs_at(a: Seq<char>, pat: Seq<char>, b: Seq<char>)
    ensures
        occurs_at(a + pat + b, pat, a.len() as int),
        forall|s: Seq<char>, i: int| #[trigger]
            occurs_at(s, pat, i) ==> 0 <= i <= s.len() - pat.len() && s == s.take(i) + pat
                + s.skip(i + pat.len()),
{
    let t = a + pat + b;
    assert(t.subrange(a.len() as int, a.len() as int + pat.len()) == pat);
    assert forall|s: Seq<char>, i: int| #[trigger] occurs_at(s, pat, i) implies 0 <= i <= s.len()
        - pat.len() && s == s.take(i) + pat + s.skip(i + pat.len()) by {
        assert(s == s.take(i) + s.subrange(i, i + pat.len()) + s.skip(i + pat.len()));
    }
}

proof fn lemma_find_from(s: Seq<char>, pat: Seq<char>, i: int)
    requires
        0 <= i,
    ensures
        match find_from(s, pat, i) {
            Some(k) => i <= k && occurs_at(s, pat, k) && forall|j: int|
                i <= j < k ==> !#[trigger] occurs_at(s, pat, j),
            None => forall|j: int| i <= j ==> !#[trigger] occurs_at(s, pat, j),
        },
    decreases s.len() - i + 1,
{
    if i <= s.len() && !occurs_at(s, pat, i) {
        lemma_find_from(s, pat, i + 1);
    }
}

/// The first copy of a text is one, and none stands before it.
pub proof fn lemma_first_match(s: Seq<char>, pat: Seq<char>)
    ensures
        match first_match(s, pat) {
            Some(k) => occurs_at(s, pat, k) && forall|j: int|
                j < k ==> !#[trigger] occurs_at(s, pat, j),
            None => forall|j: int| !#[trigger] occurs_at(s, pat, j),
        },
{
    lemma_find_from(s, pat, 0);
}

proof fn lemma_rfind_from(s: Seq<char>, pat: Seq<char>, i: int)
    ensures
        match rfind_from(s, pat, i) {
            Some(k) => k <= i && occurs_at(s, pat, k) && forall|j: int|
                k < j <= i ==> !#[trigger] occurs_at(s, pat, j),
            None => forall|j: int| j <= i ==> !#[trigger] occurs_at(s, pat, j),
        },
    decreases i + 1,
{
    if i >= 0 && !occurs_at(s, pat, i) {
        lemma_rfind_from(s, pat, i - 1);
    }
}

/// The last copy of a text is one, and none stands after it.
pub proof fn lemma_last_match(s: Seq<char>, pat: Seq<char>)
    ensures
        match last_match(s, pat) {
            Some(k) => occurs_at(s, pat, k) && forall|j: int|
                k < j ==> !#[trigger] occurs_at(s, pat, j),
            None => forall|j: int| !#[trigger] occurs_at(s, pat, j),
        },
{
    lemma_rfind_from(s, pat, s.len() as int);
}

/// A prefix that is taken off leaves what follows it, and a suffix what precedes it.
pub proof fn lemma_affixes(pat: Seq<char>, s: Seq<char>)
    ensures
        after_prefix(pat + s, pat) == Some(s),
        before_suffix(s + pat, pat) == Some(s),
        after_prefix(s, pat) matches Some(t) ==> s == pat + t,
        before_suffix(s, pat) matches Some(t) ==> s == t + pat,
{
    assert(pat.is_prefix_of(pat + s));
    assert((pat + s).skip(pat.len() as int) == s);
    assert(pat.is_suffix_of(s + pat));
    assert((s + pat).take(s.len() as int) == s);
    if pat.is_prefix_of(s) {
        assert(s == pat + s.skip(pat.len() as int));
    }
    if pat.is_suffix_of(s) {
        assert(s == s.take(s.len() - pat.len()) + pat);
    }
}

/// A line that is not blank is kept in its place, and a blank one is dropped.
pub proof fn lemma_written(line: Seq<char>, rest: Seq<Seq<char>>)
    ensures
        written(Seq::<Seq<char>>::empty()) == Seq::<Seq<char>>::empty(),
        written(seq![line] + rest) == if all_white_space(line) {
            written(rest)
        } else {
            seq![line] + written(rest)
        },
{
    lemma_is_blank(line);
    assert((seq![line] + rest).drop_first() == rest);
}

} // verus!
