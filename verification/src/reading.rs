//! How answers are read, line by line, from the text of the answer itself.

use vstd::prelude::*;

use crate::apps::{line_app, line_apps, listed_apps, status_at, AppEntryView};
use crate::commands::expire_report;
use crate::error::TomcatErrorView;
use crate::info::{info_pairs, line_pair, line_pairs, PairView};
use crate::leaks::leakers_of;
use crate::number::{decimal_text, is_digit, lemma_decimal_text, lemma_no_number, u64_number};
use crate::response::{answer_error, ok_message, refusal};
use crate::sessions::{
    before_word, idle_bound, lemma_histogram_line, lemma_idle_bound_interval,
    lemma_idle_bound_labelled, line_bucket, line_buckets, session_buckets, SessionBucketView,
};
use crate::text::{
    all_white_space, is_white_space, lemma_affixes, lemma_first_line, lemma_is_blank,
    lemma_last_match, lemma_last_match_is, lemma_no_match, lemma_rest_lines, lemma_split_n_first,
    lemma_split_n_last, lemma_split_once, lemma_trimmed_is, lemma_trimmed_parts, lemma_written,
    occurs_at, rest_lines_of, split_n_at, trimmed,
};

verus! {

/// A line of an answer: it holds no line feed and does not end in a carriage return.
pub open spec fn is_answer_line(line: Seq<char>) -> bool {
    !line.contains('\n') && (line.len() > 0 ==> line.last() != '\r')
}

/// An answer that consists of a first line, a line and the lines of `more`.
pub open spec fn answer_with(first: Seq<char>, line: Seq<char>, more: Seq<char>) -> Seq<char> {
    first + seq!['\n'] + line + seq!['\n'] + more
}

proof fn lemma_line_apps_cons(line: Seq<char>, rest: Seq<Seq<char>>)
    ensures
        line_apps(Seq::<Seq<char>>::empty()) == Seq::<AppEntryView>::empty(),
        line_apps(seq![line] + rest) == if all_white_space(line) {
            line_apps(rest)
        } else {
            seq![line_app(line)] + line_apps(rest)
        },
    decreases rest.len(),
{
    let all = seq![line] + rest;
    lemma_is_blank(line);
    assert(line_apps(Seq::<Seq<char>>::empty()) == Seq::<AppEntryView>::empty());
    if rest.len() == 0 {
        assert(all.drop_last() == Seq::<Seq<char>>::empty());
        assert(all.last() == line);
        assert(line_apps(rest) == Seq::<AppEntryView>::empty());
        assert(line_apps(all) == if all_white_space(line) {
            line_apps(rest)
        } else {
            seq![line_app(line)] + line_apps(rest)
        });
    } else {
        lemma_line_apps_cons(line, rest.drop_last());
        assert(all.drop_last() == seq![line] + rest.drop_last());
        assert(all.last() == rest.last());
        assert(line_apps(all) == if all_white_space(line) {
            line_apps(rest)
        } else {
            seq![line_app(line)] + line_apps(rest)
        });
    }
}

/// The list is read line by line: a line that is not blank gives one application, and
/// a blank one gives none, whatever else is listed. The first line, and an answer of
/// nothing else, give none.
proof fn lemma_listed_line(first: Seq<char>, line: Seq<char>, more: Seq<char>)
    requires
        !first.contains('\n'),
        is_answer_line(line),
    ensures
        listed_apps(first) == Seq::<AppEntryView>::empty(),
        listed_apps(first + seq!['\n']) == Seq::<AppEntryView>::empty(),
        listed_apps(answer_with(first, line, more)) == if all_white_space(line) {
            listed_apps(first + seq!['\n'] + more)
        } else {
            seq![line_app(line)] + listed_apps(first + seq!['\n'] + more)
        },
        listed_apps(first + seq!['\n'] + line + seq!['\r', '\n'] + more) == listed_apps(
            answer_with(first, line, more),
        ),
        listed_apps(first + seq!['\n'] + line) == listed_apps(
            answer_with(first, line, Seq::empty()),
        ),
{
    lemma_rest_lines(first, line, more);
    lemma_line_apps_cons(line, rest_lines_of(first + seq!['\n'] + more));
    lemma_rest_lines(first, line, Seq::empty());
    assert(first + seq!['\n'] + Seq::<char>::empty() == first + seq!['\n']);
    lemma_line_apps_cons(line, Seq::empty());
    if line.len() == 0 {
        assert(first + seq!['\n'] + line == first + seq!['\n']);
    } else {
        assert(seq![line] + Seq::<Seq<char>>::empty() == seq![line]);
    }
}

/// A line `path:status:sessions:description` of the list gives an application with
/// just these parts, before those of the lines that follow; the description may hold
/// more colons. The line may end in a carriage return, or the answer with it.
pub proof fn lemma_list_reads_application(
    first: Seq<char>,
    path: Seq<char>,
    status: Seq<char>,
    sessions: Seq<char>,
    description: Seq<char>,
    more: Seq<char>,
)
    requires
        !first.contains('\n'),
        !path.contains('\n') && !path.contains(':'),
        !status.contains('\n') && !status.contains(':'),
        !sessions.contains('\n') && !sessions.contains(':'),
        !description.contains('\n'),
        description.len() > 0 ==> description.last() != '\r',
    ensures
        ({
            let line = path + seq![':'] + status + seq![':'] + sessions + seq![':'] + description;
            let app = AppEntryView { path, status, sessions, description };
            &&& listed_apps(first + seq!['\n'] + line + seq!['\n'] + more) == seq![app]
                + listed_apps(first + seq!['\n'] + more)
            &&& listed_apps(first + seq!['\n'] + line + seq!['\r', '\n'] + more) == seq![app]
                + listed_apps(first + seq!['\n'] + more)
            &&& listed_apps(first + seq!['\n'] + line) == seq![app]
        }),
{
    let line = path + seq![':'] + status + seq![':'] + sessions + seq![':'] + description;
    let c = sessions + seq![':'] + description;
    let b = status + seq![':'] + c;
    assert(line == path + seq![':'] + b);
    lemma_split_n_first(path, b, ':', 4);
    lemma_split_n_first(status, c, ':', 3);
    lemma_split_n_first(sessions, description, ':', 2);
    lemma_split_n_last(description, ':', 1);
    let parts = split_n_at(line, ':', 4);
    assert(parts == seq![path, status, sessions, description]);
    assert forall|i: int| 0 <= i < line.len() implies line[i] != '\n' by {
        let p = path.len() as int;
        let q = p + 1 + status.len();
        let r = q + 1 + sessions.len();
        if i < p {
            assert(path.contains(path[i]));
        } else if p < i < q {
            assert(line[i] == status[i - p - 1]);
            assert(status.contains(status[i - p - 1]));
        } else if q < i < r {
            assert(line[i] == sessions[i - q - 1]);
            assert(sessions.contains(sessions[i - q - 1]));
        } else if r < i {
            assert(line[i] == description[i - r - 1]);
            assert(description.contains(description[i - r - 1]));
        }
    }
    assert(line[path.len() as int] == ':');
    assert(!all_white_space(line)) by {
        assert(!is_white_space(line[path.len() as int]));
    }
    lemma_listed_line(first, line, more);
    lemma_listed_line(first, line, Seq::empty());
    assert(first + seq!['\n'] + Seq::<char>::empty() == first + seq!['\n']);
    let app = AppEntryView { path, status, sessions, description };
    assert(line_app(line) == app);
    assert(seq![app] + Seq::<AppEntryView>::empty() == seq![app]);
}

/// A line of the list that lacks parts gives an application all the same: what is
/// missing is empty, and the sessions are 0.
pub proof fn lemma_list_reads_short_line(
    first: Seq<char>,
    path: Seq<char>,
    status: Seq<char>,
    sessions: Seq<char>,
    more: Seq<char>,
)
    requires
        !first.contains('\n'),
        is_answer_line(path) && !path.contains(':'),
        is_answer_line(status) && !status.contains(':'),
        is_answer_line(sessions) && !sessions.contains(':'),
    ensures
        listed_apps(
            first + seq!['\n'] + (path + seq![':'] + status + seq![':'] + sessions) + seq!['\n']
                + more,
        ) == seq![AppEntryView { path, status, sessions, description: Seq::empty() }]
            + listed_apps(first + seq!['\n'] + more),
        listed_apps(first + seq!['\n'] + (path + seq![':'] + status) + seq!['\n'] + more) == seq![
            AppEntryView { path, status, sessions: seq!['0'], description: Seq::empty() },
        ] + listed_apps(first + seq!['\n'] + more),
        !all_white_space(path) ==> listed_apps(first + seq!['\n'] + path + seq!['\n'] + more)
            == seq![
            AppEntryView {
                path,
                status: Seq::empty(),
                sessions: seq!['0'],
                description: Seq::empty(),
            },
        ] + listed_apps(first + seq!['\n'] + more),
{
    reveal_strlit("");
    reveal_strlit("0");
    assert(""@ == Seq::<char>::empty());
    assert("0"@ == seq!['0']);
    let b = status + seq![':'] + sessions;
    let three = path + seq![':'] + status + seq![':'] + sessions;
    let two = path + seq![':'] + status;
    assert(three == path + seq![':'] + b);
    lemma_split_n_first(path, b, ':', 4);
    lemma_split_n_first(status, sessions, ':', 3);
    lemma_split_n_last(sessions, ':', 2);
    assert(split_n_at(three, ':', 4) == seq![path, status, sessions]);
    lemma_split_n_first(path, status, ':', 4);
    lemma_split_n_last(status, ':', 3);
    assert(split_n_at(two, ':', 4) == seq![path, status]);
    lemma_split_n_last(path, ':', 4);
    assert forall|i: int| 0 <= i < three.len() implies three[i] != '\n' by {
        let p = path.len() as int;
        let q = p + 1 + status.len();
        if i < p {
            assert(path.contains(path[i]));
        } else if p < i < q {
            assert(three[i] == status[i - p - 1]);
            assert(status.contains(status[i - p - 1]));
        } else if q < i {
            assert(three[i] == sessions[i - q - 1]);
            assert(sessions.contains(sessions[i - q - 1]));
        }
    }
    assert forall|i: int| 0 <= i < two.len() implies two[i] != '\n' by {
        assert(two[i] == three[i]);
    }
    assert(!is_white_space(three[path.len() as int]));
    assert(!is_white_space(two[path.len() as int]));
    lemma_listed_line(first, three, more);
    lemma_listed_line(first, two, more);
    lemma_listed_line(first, path, more);
    assert(line_app(three) == (AppEntryView {
        path,
        status,
        sessions,
        description: Seq::empty(),
    }));
    assert(line_app(two) == (AppEntryView {
        path,
        status,
        sessions: seq!['0'],
        description: Seq::empty(),
    }));
    assert(line_app(path) == (AppEntryView {
        path,
        status: Seq::empty(),
        sessions: seq!['0'],
        description: Seq::empty(),
    }));
}

/// Nothing is listed by the first line, or by a line of white space alone.
pub proof fn lemma_list_skips(first: Seq<char>, line: Seq<char>, more: Seq<char>)
    requires
        !first.contains('\n'),
        is_answer_line(line),
        all_white_space(line),
    ensures
        listed_apps(first) == Seq::<AppEntryView>::empty(),
        listed_apps(first + seq!['\n']) == Seq::<AppEntryView>::empty(),
        listed_apps(first + seq!['\n'] + line + seq!['\n'] + more) == listed_apps(
            first + seq!['\n'] + more,
        ),
{
    lemma_listed_line(first, line, more);
}

/// The status at a path is that of the first application at exactly that path, and
/// there is none exactly when no application is there.
pub proof fn lemma_status_at(v: Seq<AppEntryView>, path: Seq<char>)
    ensures
        match status_at(v, path) {
            Some(s) => exists|k: int|
                0 <= k < v.len() && (#[trigger] v[k]).path == path && v[k].status == s && (forall|
                    j: int,
                | 0 <= j < k ==> (#[trigger] v[j]).path != path),
            None => forall|k: int| 0 <= k < v.len() ==> (#[trigger] v[k]).path != path,
        },
    decreases v.len(),
{
    if v.len() > 0 {
        if v[0].path == path {
            assert(status_at(v, path) == Some(v[0].status));
            assert(0 <= 0 < v.len() && v[0].path == path && v[0].status == v[0].status);
        } else {
            let rest = v.drop_first();
            lemma_status_at(rest, path);
            assert(status_at(v, path) == status_at(rest, path));
            match status_at(rest, path) {
                Some(s) => {
                    let k = choose|k: int|
                        0 <= k < rest.len() && (#[trigger] rest[k]).path == path && rest[k].status
                            == s && (forall|j: int|
                            0 <= j < k ==> (#[trigger] rest[j]).path != path);
                    assert(v[k + 1] == rest[k]);
                    assert forall|j: int| 0 <= j < k + 1 implies (#[trigger] v[j]).path != path by {
                        if j > 0 {
                            assert(v[j] == rest[j - 1]);
                        }
                    }
                },
                None => {
                    assert forall|k: int| 0 <= k < v.len() implies (#[trigger] v[k]).path
                        != path by {
                        if k > 0 {
                            assert(v[k] == rest[k - 1]);
                        }
                    }
                },
            }
        }
    }
}

proof fn lemma_line_pairs_cons(line: Seq<char>, rest: Seq<Seq<char>>)
    ensures
        line_pairs(Seq::<Seq<char>>::empty()) == Seq::<PairView>::empty(),
        line_pairs(seq![line] + rest) == match line_pair(line) {
            Some(p) => seq![p] + line_pairs(rest),
            None => line_pairs(rest),
        },
    decreases rest.len(),
{
    let all = seq![line] + rest;
    assert(line_pairs(Seq::<Seq<char>>::empty()) == Seq::<PairView>::empty());
    if rest.len() == 0 {
        assert(all.drop_last() == Seq::<Seq<char>>::empty());
        assert(all.last() == line);
        assert(line_pairs(rest) == Seq::<PairView>::empty());
        assert(line_pairs(all) == match line_pair(line) {
            Some(p) => seq![p] + line_pairs(rest),
            None => line_pairs(rest),
        });
    } else {
        lemma_line_pairs_cons(line, rest.drop_last());
        assert(all.drop_last() == seq![line] + rest.drop_last());
        assert(all.last() == rest.last());
        assert(line_pairs(all) == match line_pair(line) {
            Some(p) => seq![p] + line_pairs(rest),
            None => line_pairs(rest),
        });
    }
}

/// A line `key:value` of the server information, with any white space around its two
/// parts, gives a pair of just these, before those of the lines that follow; the value
/// may hold more colons. A line without a colon gives none, and neither does the first
/// line.
pub proof fn lemma_info_reads_pair(
    first: Seq<char>,
    key: Seq<char>,
    value: Seq<char>,
    spaces: (Seq<char>, Seq<char>, Seq<char>, Seq<char>),
    more: Seq<char>,
)
    requires
        !first.contains('\n'),
        !key.contains(':'),
        key.len() > 0 ==> !is_white_space(key.first()) && !is_white_space(key.last()),
        value.len() > 0 ==> !is_white_space(value.first()) && !is_white_space(value.last()),
        all_white_space(spaces.0) && all_white_space(spaces.1),
        all_white_space(spaces.2) && all_white_space(spaces.3),
        is_answer_line(
            spaces.0 + key + spaces.1 + seq![':'] + (spaces.2 + value + spaces.3),
        ),
    ensures
        info_pairs(first) == Seq::<PairView>::empty(),
        info_pairs(first + seq!['\n']) == Seq::<PairView>::empty(),
        info_pairs(
            first + seq!['\n'] + (spaces.0 + key + spaces.1 + seq![':'] + (spaces.2 + value
                + spaces.3)) + seq!['\n'] + more,
        ) == seq![(key, value)] + info_pairs(first + seq!['\n'] + more),
        info_pairs(
            first + seq!['\n'] + (spaces.0 + key + spaces.1 + seq![':'] + (spaces.2 + value
                + spaces.3)),
        ) == seq![(key, value)],
{
    let left = spaces.0 + key + spaces.1;
    let right = spaces.2 + value + spaces.3;
    let line = left + seq![':'] + right;
    assert forall|i: int| 0 <= i < left.len() implies left[i] != ':' by {
        let a = spaces.0.len() as int;
        let b = a + key.len();
        if i < a {
            assert(left[i] == spaces.0[i]);
        } else if i < b {
            assert(left[i] == key[i - a]);
            assert(key.contains(key[i - a]));
        } else {
            assert(left[i] == spaces.1[i - b]);
        }
    }
    lemma_split_once(left, right, ':');
    lemma_trimmed_parts(spaces.0, key, spaces.1);
    lemma_trimmed_parts(spaces.2, value, spaces.3);
    assert(line_pair(line) == Some((key, value)));
    lemma_rest_lines(first, line, more);
    lemma_line_pairs_cons(line, rest_lines_of(first + seq!['\n'] + more));
    lemma_line_pairs_cons(line, Seq::empty());
    assert(seq![line] + Seq::<Seq<char>>::empty() == seq![line]);
    assert(seq![(key, value)] + Seq::<PairView>::empty() == seq![(key, value)]);
}

/// A line of the server information without a colon gives no pair.
pub proof fn lemma_info_skips(first: Seq<char>, line: Seq<char>, more: Seq<char>)
    requires
        !first.contains('\n'),
        is_answer_line(line),
        !line.contains(':'),
    ensures
        info_pairs(first + seq!['\n'] + line + seq!['\n'] + more) == info_pairs(
            first + seq!['\n'] + more,
        ),
{
    lemma_split_once(line, Seq::empty(), ':');
    lemma_rest_lines(first, line, more);
    lemma_line_pairs_cons(line, rest_lines_of(first + seq!['\n'] + more));
}

/// A line of the report of leaks gives the application that it names, before those of
/// the lines that follow, unless it is white space alone; the first line gives none.
pub proof fn lemma_leaks_reads_line(first: Seq<char>, line: Seq<char>, more: Seq<char>)
    requires
        !first.contains('\n'),
        is_answer_line(line),
    ensures
        leakers_of(first) == Seq::<Seq<char>>::empty(),
        leakers_of(first + seq!['\n']) == Seq::<Seq<char>>::empty(),
        leakers_of(first + seq!['\n'] + line + seq!['\n'] + more) == if all_white_space(line) {
            leakers_of(first + seq!['\n'] + more)
        } else {
            seq![line] + leakers_of(first + seq!['\n'] + more)
        },
        !all_white_space(line) ==> leakers_of(first + seq!['\n'] + line) == seq![line],
{
    lemma_rest_lines(first, line, more);
    lemma_written(line, rest_lines_of(first + seq!['\n'] + more));
    lemma_written(line, Seq::empty());
    if !all_white_space(line) {
        assert(line.len() > 0);
        assert(seq![line] + Seq::<Seq<char>>::empty() == seq![line]);
    }
}

/// The rows of lines are those of each line, one after another: a line gives its row,
/// or none.
pub proof fn lemma_line_buckets_cons(line: Seq<char>, rest: Seq<Seq<char>>, path: Seq<char>)
    ensures
        line_buckets(Seq::<Seq<char>>::empty(), path) == Seq::<SessionBucketView>::empty(),
        line_buckets(seq![line], path) == match line_bucket(line, path) {
            Some(b) => seq![b],
            None => Seq::<SessionBucketView>::empty(),
        },
        line_buckets(seq![line] + rest, path) == match line_bucket(line, path) {
            Some(b) => seq![b] + line_buckets(rest, path),
            None => line_buckets(rest, path),
        },
    decreases rest.len(),
{
    let all = seq![line] + rest;
    let none = Seq::<Seq<char>>::empty();
    assert(line_buckets(none, path) == Seq::<SessionBucketView>::empty());
    assert(seq![line].drop_last() == none);
    assert(line_buckets(seq![line], path) == match line_bucket(line, path) {
        Some(b) => seq![b],
        None => Seq::<SessionBucketView>::empty(),
    });
    if rest.len() == 0 {
        assert(all == seq![line]);
        assert(rest == none);
        assert(line_buckets(all, path) == match line_bucket(line, path) {
            Some(b) => seq![b] + line_buckets(rest, path),
            None => line_buckets(rest, path),
        });
    } else {
        lemma_line_buckets_cons(line, rest.drop_last(), path);
        assert(all.drop_last() == seq![line] + rest.drop_last());
        assert(all.last() == rest.last());
        assert(line_buckets(all, path) == match line_bucket(line, path) {
            Some(b) => seq![b] + line_buckets(rest, path),
            None => line_buckets(rest, path),
        });
    }
}

proof fn lemma_sessions_line(first: Seq<char>, line: Seq<char>, path: Seq<char>, more: Seq<char>)
    requires
        !first.contains('\n'),
        is_answer_line(line),
    ensures
        session_buckets(first, path) == Seq::<SessionBucketView>::empty(),
        session_buckets(first + seq!['\n'], path) == Seq::<SessionBucketView>::empty(),
        session_buckets(answer_with(first, line, more), path) == match line_bucket(line, path) {
            Some(b) => seq![b] + session_buckets(first + seq!['\n'] + more, path),
            None => session_buckets(first + seq!['\n'] + more, path),
        },
{
    lemma_rest_lines(first, line, more);
    lemma_line_buckets_cons(line, rest_lines_of(first + seq!['\n'] + more), path);
}

/// The words that may end a line of the histogram.
pub open spec fn is_session_word(word: Seq<char>) -> bool {
    word == " sessions"@ || word == " session"@
}

/// A line `RANGE: COUNT sessions` of the histogram, or `RANGE: COUNT session`, gives
/// one row with the lower bound of the range and just that count, for the application
/// that was asked for, before the rows of the lines that follow. A count of 0 gives no
/// row.
pub proof fn lemma_sessions_reads_row(
    first: Seq<char>,
    range: Seq<char>,
    count: u64,
    word: Seq<char>,
    path: Seq<char>,
    more: Seq<char>,
)
    requires
        !first.contains('\n'),
        !range.contains('\n'),
        range.len() > 0 && !is_white_space(range.first()) && !is_white_space(range.last()),
        is_session_word(word),
    ensures
        session_buckets(first, path) == Seq::<SessionBucketView>::empty(),
        session_buckets(
            first + seq!['\n'] + (range + ": "@ + decimal_text(count as nat) + word) + seq!['\n']
                + more,
            path,
        ) == if count == 0 {
            session_buckets(first + seq!['\n'] + more, path)
        } else {
            seq![SessionBucketView { idle_min: idle_bound(range), count, path }] + session_buckets(
                first + seq!['\n'] + more,
                path,
            )
        },
{
    reveal_strlit(": ");
    reveal_strlit(" sessions");
    reveal_strlit(" session");
    let number = decimal_text(count as nat);
    let line = range + ": "@ + number + word;
    lemma_decimal_text(count as nat);
    lemma_histogram_line(range, count, path);
    assert forall|i: int| 0 <= i < line.len() implies line[i] != '\n' by {
        let a = range.len() as int;
        let b = a + 2 + number.len();
        if i < a {
            assert(range.contains(range[i]));
        } else if a + 2 <= i < b {
            assert(line[i] == number[i - a - 2]);
            assert(is_digit(number[i - a - 2]));
        } else if b <= i {
            assert(line[i] == word[i - b]);
        }
    }
    assert(line.last() == word.last());
    lemma_sessions_line(first, line, path, more);
}

/// A line `N - M minutes: COUNT sessions` of the histogram gives one row, of `N`
/// minutes and that count, for all numbers; so does the line with the label of the
/// histogram before it.
pub proof fn lemma_sessions_reads_interval(
    first: Seq<char>,
    low: u64,
    high: u64,
    count: u64,
    word: Seq<char>,
    path: Seq<char>,
    more: Seq<char>,
)
    requires
        !first.contains('\n'),
        is_session_word(word),
        count > 0,
    ensures
        ({
            let range = decimal_text(low as nat) + " - "@ + decimal_text(high as nat)
                + " minutes"@;
            let rest = session_buckets(first + seq!['\n'] + more, path);
            let row = SessionBucketView { idle_min: low, count, path };
            &&& session_buckets(
                first + seq!['\n'] + (range + ": "@ + decimal_text(count as nat) + word)
                    + seq!['\n'] + more,
                path,
            ) == seq![row] + rest
            &&& session_buckets(
                first + seq!['\n'] + ("Session idle times histogram: "@ + range + ": "@
                    + decimal_text(count as nat) + word) + seq!['\n'] + more,
                path,
            ) == seq![row] + rest
        }),
{
    reveal_strlit(" - ");
    reveal_strlit(" minutes");
    reveal_strlit("Session idle times histogram: ");
    let a = decimal_text(low as nat);
    let b = decimal_text(high as nat);
    let range = a + " - "@ + b + " minutes"@;
    lemma_decimal_text(low as nat);
    lemma_decimal_text(high as nat);
    assert(is_digit(a[0]) && range[0] == a[0]);
    assert forall|i: int| 0 <= i < range.len() implies range[i] != '\n' by {
        let p = a.len() as int;
        let q = p + 3 + b.len();
        if i < p {
            assert(range[i] == a[i] && is_digit(a[i]));
        } else if p + 3 <= i < q {
            assert(range[i] == b[i - p - 3] && is_digit(b[i - p - 3]));
        }
    }
    lemma_idle_bound_interval(low, high);
    lemma_sessions_reads_row(first, range, count, word, path, more);
    let label = "Session idle times histogram: "@;
    if label.is_prefix_of(range) {
        assert(label[0] == range[0]);
    }
    lemma_idle_bound_labelled(range);
    let labelled = label + range;
    assert forall|i: int| 0 <= i < labelled.len() implies labelled[i] != '\n' by {
        if i >= label.len() {
            assert(labelled[i] == range[i - label.len()]);
            assert(!range.contains('\n'));
            assert(range.contains(range[i - label.len()]));
        }
    }
    lemma_sessions_reads_row(first, labelled, count, word, path, more);
}

/// A line that does not end in ` sessions` or ` session`, white space aside, gives no
/// row.
pub proof fn lemma_sessions_skips_other_line(
    first: Seq<char>,
    line: Seq<char>,
    path: Seq<char>,
    more: Seq<char>,
)
    requires
        !first.contains('\n'),
        is_answer_line(line),
        forall|before: Seq<char>, word: Seq<char>|
            is_session_word(word) ==> trimmed(line) != #[trigger] (before + word),
    ensures
        session_buckets(first + seq!['\n'] + line + seq!['\n'] + more, path) == session_buckets(
            first + seq!['\n'] + more,
            path,
        ),
{
    lemma_affixes(" sessions"@, trimmed(line));
    lemma_affixes(" session"@, trimmed(line));
    assert(line_bucket(line, path) is None) by {
        if let Some(before) = before_word(trimmed(line)) {
            assert(trimmed(line) == before + " sessions"@ || trimmed(line) == before
                + " session"@);
        }
    }
    lemma_sessions_line(first, line, path, more);
}

/// A line whose count is no number gives no row, and neither does one without a colon
/// before its count.
pub proof fn lemma_sessions_skips_no_count(
    first: Seq<char>,
    range: Seq<char>,
    count: Seq<char>,
    word: Seq<char>,
    path: Seq<char>,
    more: Seq<char>,
    k: int,
)
    requires
        !first.contains('\n'),
        is_session_word(word),
        !range.contains('\n') && !count.contains('\n') && !count.contains(':'),
        range.len() > 0 && !is_white_space(range.first()),
        count.len() > 0 && !is_white_space(count.first()) && !is_white_space(count.last()),
        0 <= k < count.len(),
        !('0' <= count[k] <= '9') && (k > 0 || (count[0] != '+' && count[0] != '-')),
    ensures
        session_buckets(
            first + seq!['\n'] + (range + ": "@ + count + word) + seq!['\n'] + more,
            path,
        ) == session_buckets(first + seq!['\n'] + more, path),
        !range.contains(':') ==> session_buckets(
            first + seq!['\n'] + (range + seq![' '] + count + word) + seq!['\n'] + more,
            path,
        ) == session_buckets(first + seq!['\n'] + more, path),
{
    reveal_strlit(": ");
    reveal_strlit(" sessions");
    reveal_strlit(" session");
    let before = range + ": "@ + count;
    let line = before + word;
    lemma_row_word(range + ": "@ + count, word);
    let colon = range.len() as int;
    assert(before.subrange(colon, colon + 2) == ": "@);
    assert forall|j: int| colon < j <= before.len() implies !occurs_at(before, ": "@, j) by {
        if colon + 2 <= j < before.len() {
            assert(before[j] == count[j - colon - 2]);
            assert(count.contains(count[j - colon - 2]));
        }
        lemma_no_match(before, ": "@, j);
    }
    lemma_last_match_is(before, ": "@, colon);
    assert(before.skip(colon + 2) == count);
    lemma_trimmed_is(count);
    lemma_no_number(count, k);
    assert(line_bucket(line, path) is None);
    assert forall|i: int| 0 <= i < line.len() implies line[i] != '\n' by {
        if i < colon {
            assert(range.contains(range[i]));
        } else if colon + 2 <= i < before.len() {
            assert(line[i] == count[i - colon - 2]);
            assert(count.contains(count[i - colon - 2]));
        } else if before.len() <= i {
            assert(line[i] == word[i - before.len()]);
        }
    }
    lemma_sessions_line(first, line, path, more);
    if !range.contains(':') {
        let bare = range + seq![' '] + count;
        let plain = bare + word;
        lemma_row_word(bare, word);
        assert forall|j: int| !#[trigger] occurs_at(bare, ": "@, j) by {
            if 0 <= j < bare.len() {
                if j < colon {
                    assert(bare[j] == range[j]);
                    assert(range.contains(range[j]));
                } else if j > colon {
                    assert(bare[j] == count[j - colon - 1]);
                    assert(count.contains(count[j - colon - 1]));
                }
            }
            lemma_no_match(bare, ": "@, j);
        }
        lemma_last_match(bare, ": "@);
        assert(line_bucket(plain, path) is None);
        assert forall|i: int| 0 <= i < plain.len() implies plain[i] != '\n' by {
            if i < colon {
                assert(range.contains(range[i]));
            } else if colon < i < bare.len() {
                assert(plain[i] == count[i - colon - 1]);
                assert(count.contains(count[i - colon - 1]));
            } else if bare.len() <= i {
                assert(plain[i] == word[i - bare.len()]);
            }
        }
        lemma_sessions_line(first, plain, path, more);
    }
}

proof fn lemma_row_word(before: Seq<char>, word: Seq<char>)
    requires
        before.len() > 0,
        !is_white_space(before.first()),
        is_session_word(word),
    ensures
        trimmed(before + word) == before + word,
        before_word(before + word) == Some(before),
        (before + word).last() != '\r',
{
    reveal_strlit(" sessions");
    reveal_strlit(" session");
    let line = before + word;
    lemma_trimmed_is(line);
    lemma_affixes(word, before);
    if word == " session"@ {
        if " sessions"@.is_suffix_of(line) {
            assert(line[line.len() - 1] == " sessions"@[8]);
        }
    }
}

/// White space around a line of the histogram makes no difference.
pub proof fn lemma_sessions_line_is_trimmed(
    before: Seq<char>,
    line: Seq<char>,
    after: Seq<char>,
    path: Seq<char>,
)
    requires
        all_white_space(before),
        all_white_space(after),
        line.len() > 0 && !is_white_space(line.first()) && !is_white_space(line.last()),
    ensures
        line_bucket(before + line + after, path) == line_bucket(line, path),
{
    lemma_trimmed_parts(before, line, after);
    lemma_trimmed_is(line);
}

/// An answer whose first line starts with `FAIL`, white space aside, is a refusal. Its
/// reason is what follows `FAIL - `, or the whole line where that is not how it starts.
pub proof fn lemma_refusal(
    before: Seq<char>,
    line: Seq<char>,
    after: Seq<char>,
    more: Seq<char>,
)
    requires
        all_white_space(before) && all_white_space(after),
        line.len() > 0 && !is_white_space(line.first()) && !is_white_space(line.last()),
        is_answer_line(before + line + after),
    ensures
        ({
            let body = before + line + after;
            let expected = if "FAIL - "@ == line.take(7) && line.len() >= 7 {
                Some(line.skip(7))
            } else if "FAIL"@ == line.take(4) && line.len() >= 4 {
                Some(line)
            } else {
                None
            };
            &&& refusal(body) == expected
            &&& refusal(body + seq!['\n'] + more) == expected
            &&& refusal(body + seq!['\r', '\n'] + more) == expected
        }),
{
    reveal_strlit("FAIL");
    reveal_strlit("FAIL - ");
    let text = before + line + after;
    lemma_trimmed_parts(before, line, after);
    lemma_first_line(text, more);
    if line.len() >= 4 {
        assert("FAIL"@.is_prefix_of(line) <==> line.take(4) == "FAIL"@);
    } else {
        assert(!"FAIL"@.is_prefix_of(line));
    }
    if line.len() >= 7 {
        assert("FAIL - "@.is_prefix_of(line) <==> line.take(7) == "FAIL - "@);
        if "FAIL - "@.is_prefix_of(line) {
            assert(line.take(4) == "FAIL"@) by {
                assert forall|i: int| 0 <= i < 4 implies line[i] == "FAIL"@[i] by {
                    assert(line[i] == "FAIL - "@[i]);
                }
            }
        }
    } else {
        assert(!"FAIL - "@.is_prefix_of(line));
    }
}

/// An answer whose first line is blank is no refusal.
pub proof fn lemma_blank_is_no_refusal(line: Seq<char>, more: Seq<char>)
    requires
        is_answer_line(line),
        all_white_space(line),
    ensures
        refusal(line) is None,
        refusal(line + seq!['\n'] + more) is None,
{
    reveal_strlit("FAIL");
    lemma_first_line(line, more);
    lemma_is_blank(line);
}

/// The message of an answer is what follows `OK - ` in its first line, to the end of
/// that line, and `OK` for any other first line.
pub proof fn lemma_ok_message(line: Seq<char>, more: Seq<char>)
    requires
        is_answer_line(line),
    ensures
        ok_message("OK - "@ + line) == line,
        ok_message("OK - "@ + line + seq!['\n'] + more) == line,
        ok_message("OK - "@ + line + seq!['\r', '\n'] + more) == line,
        !(line.len() >= 5 && line.take(5) == "OK - "@) ==> ok_message(line) == "OK"@ && ok_message(
            line + seq!['\n'] + more,
        ) == "OK"@,
{
    reveal_strlit("OK - ");
    let whole = "OK - "@ + line;
    assert forall|i: int| 0 <= i < whole.len() implies whole[i] != '\n' by {
        if i >= 5 {
            assert(line.contains(line[i - 5]));
        }
    }
    if line.len() > 0 {
        assert(whole.last() == line.last());
    }
    lemma_first_line(whole, more);
    lemma_affixes("OK - "@, line);
    lemma_first_line(line, more);
    if "OK - "@.is_prefix_of(line) {
        assert(line.take(5) == "OK - "@);
    }
}

/// An answer with a status below 200 or from 300 on is an error, with that status and
/// the body without white space around it, whatever the body says. With any other
/// status it is an error only where the manager refuses, and then with its reason.
pub proof fn lemma_answer_error(code: u16, status: Seq<char>, body: Seq<char>)
    ensures
        code < 200 || code >= 300 ==> answer_error(code, status, body) == Some(
            TomcatErrorView::Http { status, body: trimmed(body) },
        ),
        200 <= code < 300 ==> answer_error(code, status, body) == match refusal(body) {
            Some(reason) => Some(TomcatErrorView::Refused(reason)),
            None => None,
        },
{
}

/// The report of an expiry is the first line of the answer, without white space around
/// it.
pub proof fn lemma_expire_report(
    before: Seq<char>,
    line: Seq<char>,
    after: Seq<char>,
    more: Seq<char>,
)
    requires
        all_white_space(before) && all_white_space(after),
        line.len() > 0 ==> !is_white_space(line.first()) && !is_white_space(line.last()),
        is_answer_line(before + line + after),
    ensures
        expire_report(before + line + after) == line,
        expire_report(before + line + after + seq!['\n'] + more) == line,
{
    lemma_first_line(before + line + after, more);
    lemma_trimmed_parts(before, line, after);
}

/// A line of the histogram gives a row just where what stands between its last colon
/// and the word at its end is a number above 0, whatever white space is around it: one
/// row, of that number.
pub proof fn lemma_sessions_reads_count(
    first: Seq<char>,
    range: Seq<char>,
    before: Seq<char>,
    number: Seq<char>,
    after: Seq<char>,
    word: Seq<char>,
    path: Seq<char>,
    more: Seq<char>,
)
    requires
        !first.contains('\n'),
        is_session_word(word),
        !range.contains('\n') && !before.contains('\n') && !number.contains('\n')
            && !after.contains('\n'),
        !number.contains(':'),
        range.len() > 0 ==> !is_white_space(range.first()),
        all_white_space(before) && all_white_space(after),
        number.len() > 0 ==> !is_white_space(number.first()) && !is_white_space(number.last()),
    ensures
        session_buckets(
            first + seq!['\n'] + (range + ": "@ + (before + number + after) + word) + seq!['\n']
                + more,
            path,
        ) == match u64_number(number) {
            Some(n) => if n == 0 {
                session_buckets(first + seq!['\n'] + more, path)
            } else {
                seq![
                    SessionBucketView {
                        idle_min: idle_bound(trimmed(range)),
                        count: n as u64,
                        path,
                    },
                ] + session_buckets(first + seq!['\n'] + more, path)
            },
            None => session_buckets(first + seq!['\n'] + more, path),
        },
{
    reveal_strlit(": ");
    reveal_strlit(" sessions");
    reveal_strlit(" session");
    let count = before + number + after;
    let text = range + ": "@ + count;
    let line = text + word;
    let colon = range.len() as int;
    if range.len() > 0 {
        assert(text.first() == range.first());
    } else {
        assert(text.first() == ':');
    }
    lemma_row_word(text, word);
    assert(text.subrange(colon, colon + 2) == ": "@);
    assert forall|i: int| 0 <= i < count.len() implies count[i] != ':' && count[i] != '\n' by {
        let a = before.len() as int;
        let b = a + number.len();
        if i < a {
            assert(count[i] == before[i]);
            assert(before.contains(before[i]));
        } else if i < b {
            assert(count[i] == number[i - a]);
            assert(number.contains(number[i - a]));
        } else {
            assert(count[i] == after[i - b]);
            assert(after.contains(after[i - b]));
        }
    }
    assert forall|j: int| colon < j <= text.len() implies !occurs_at(text, ": "@, j) by {
        if colon + 2 <= j < text.len() {
            assert(text[j] == count[j - colon - 2]);
        }
        lemma_no_match(text, ": "@, j);
    }
    lemma_last_match_is(text, ": "@, colon);
    assert(text.skip(colon + 2) == count);
    assert(text.take(colon) == range);
    lemma_trimmed_parts(before, number, after);
    assert forall|i: int| 0 <= i < line.len() implies line[i] != '\n' by {
        if i < colon {
            assert(range.contains(range[i]));
        } else if colon + 2 <= i < text.len() {
            assert(line[i] == count[i - colon - 2]);
        } else if text.len() <= i {
            assert(line[i] == word[i - text.len()]);
        }
    }
    lemma_sessions_line(first, line, path, more);
}

} // verus!
