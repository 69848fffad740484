//! JSON text: how records are written, and how a reader takes them back.

use vstd::prelude::*;
use vstd::string::*;

use crate::number::{decimal_text, decimal_value, is_digit, lemma_decimal_text, u64_text};
use crate::output::{join, joined, json_array_text, string_views};
use crate::text::{chars_of, text_of};

verus! {

/// A control character: one below the space.
pub open spec fn is_control(c: char) -> bool {
    c <= '\u{1f}'
}

/// A hexadecimal digit.
pub open spec fn hex_digit(n: int) -> char {
    if n < 10 {
        ('0' as int + n) as char
    } else {
        ('a' as int + n - 10) as char
    }
}

/// A character as it stands in a JSON string.
pub open spec fn json_char(c: char) -> Seq<char> {
    if c == '\\' {
        seq!['\\', '\\']
    } else if c == '"' {
        seq!['\\', '"']
    } else if c == '\n' {
        seq!['\\', 'n']
    } else if c == '\r' {
        seq!['\\', 'r']
    } else if c == '\t' {
        seq!['\\', 't']
    } else if is_control(c) {
        seq!['\\', 'u', '0', '0', hex_digit(c as int / 16), hex_digit(c as int % 16)]
    } else {
        seq![c]
    }
}

/// The characters of `s` as they stand in a JSON string.
pub open spec fn json_escaped(s: Seq<char>) -> Seq<char>
    decreases s.len(),
{
    if s.len() == 0 {
        s
    } else {
        json_char(s.first()) + json_escaped(s.drop_first())
    }
}

/// `s` as a JSON string, with backslashes, quotes and control characters escaped.
pub open spec fn json_text(s: Seq<char>) -> Seq<char> {
    seq!['"'] + json_escaped(s) + seq!['"']
}

fn hex_digit_of(n: u8) -> (r: char)
    requires
        n < 16,
    ensures
        r == hex_digit(n as int),
{
    if n < 10 {
        (48u8 + n) as char
    } else {
        (87u8 + n) as char
    }
}

fn push_json_char(out: &mut Vec<char>, c: char)
    ensures
        final(out)@ == old(out)@ + json_char(c),
{
    if c == '\\' || c == '"' {
        out.push('\\');
        out.push(c);
    } else if c == '\n' {
        out.push('\\');
        out.push('n');
    } else if c == '\r' {
        out.push('\\');
        out.push('r');
    } else if c == '\t' {
        out.push('\\');
        out.push('t');
    } else if c <= '\u{1f}' {
        let n: u8 = (c as u32) as u8;
        out.push('\\');
        out.push('u');
        out.push('0');
        out.push('0');
        out.push(hex_digit_of(n / 16));
        out.push(hex_digit_of(n % 16));
    } else {
        out.push(c);
    }
    assert(out@ == old(out)@ + json_char(c));
}

/// The JSON string of a text.
pub fn json_str(s: &str) -> (r: String)
    ensures
        r@ == json_text(s@),
{
    let cs = chars_of(s);
    let n: usize = cs.len();
    let mut out: Vec<char> = Vec::new();
    out.push('"');
    let mut i: usize = 0;
    assert(cs@.skip(0) == cs@);
    while i < n
        invariant
            i <= n,
            n == cs@.len(),
            out@ + json_escaped(cs@.skip(i as int)) == seq!['"'] + json_escaped(cs@),
        decreases n - i,
    {
        let c: char = cs[i];
        let ghost before = out@;
        push_json_char(&mut out, c);
        assert(cs@.skip(i as int).drop_first() == cs@.skip(i + 1));
        assert(before + (json_char(c) + json_escaped(cs@.skip(i + 1))) == (before + json_char(c))
            + json_escaped(cs@.skip(i + 1)));
        i = i + 1;
    }
    assert(out@ + json_escaped(cs@.skip(n as int)) == out@);
    out.push('"');
    assert(out@ == json_text(s@));
    text_of(out.as_slice())
}

/// A value of a JSON object.
#[derive(Debug)]
pub enum JsonValue {
    Text(String),
    Number(u64),
}

/// The contents of a `JsonValue`.
pub enum JsonValueView {
    Text(Seq<char>),
    Number(nat),
}

impl View for JsonValue {
    type V = JsonValueView;

    open spec fn view(&self) -> JsonValueView {
        match self {
            JsonValue::Text(s) => JsonValueView::Text(s@),
            JsonValue::Number(n) => JsonValueView::Number(*n as nat),
        }
    }
}

/// A JSON object: its keys and values, in their order.
pub type JsonObjectView = Seq<(Seq<char>, JsonValueView)>;

/// The contents of the fields of an object.
pub open spec fn field_views(v: Seq<(String, JsonValue)>) -> JsonObjectView {
    v.map_values(|f: (String, JsonValue)| (f.0@, f.1@))
}

/// The text of a value.
pub open spec fn value_text(v: JsonValueView) -> Seq<char> {
    match v {
        JsonValueView::Text(s) => json_text(s),
        JsonValueView::Number(n) => decimal_text(n),
    }
}

/// The text of a key and its value.
pub open spec fn member_text(m: (Seq<char>, JsonValueView)) -> Seq<char> {
    json_text(m.0) + ": "@ + value_text(m.1)
}

/// The texts of the keys and values of an object.
pub open spec fn member_texts(o: JsonObjectView) -> Seq<Seq<char>> {
    o.map_values(|m: (Seq<char>, JsonValueView)| member_text(m))
}

/// An object as an entry of an array, on a line of its own.
pub open spec fn object_text(o: JsonObjectView) -> Seq<char> {
    "  { "@ + joined(member_texts(o), ", "@) + " }"@
}

/// Objects as the entries of an array.
pub open spec fn object_texts(objects: Seq<JsonObjectView>) -> Seq<Seq<char>> {
    objects.map_values(|o: JsonObjectView| object_text(o))
}

fn json_member(key: &str, value: &JsonValue) -> (r: String)
    ensures
        r@ == member_text((key@, value@)),
{
    let mut out = json_str(key);
    out.append(": ");
    match value {
        JsonValue::Text(s) => out.append(json_str(s.as_str()).as_str()),
        JsonValue::Number(n) => out.append(u64_text(*n).as_str()),
    }
    out
}

/// Writes an object as an entry of an array.
pub fn json_object(fields: &Vec<(String, JsonValue)>) -> (r: String)
    ensures
        r@ == object_text(field_views(fields@)),
{
    let mut members: Vec<String> = Vec::new();
    let ghost views = field_views(fields@);
    assert(string_views(members@) == member_texts(views.take(0)));
    let mut i: usize = 0;
    while i < fields.len()
        invariant
            i <= fields@.len(),
            views == field_views(fields@),
            string_views(members@) == member_texts(views.take(i as int)),
        decreases fields.len() - i,
    {
        let ghost before = string_views(members@);
        members.push(json_member(fields[i].0.as_str(), &fields[i].1));
        assert(string_views(members@) == before.push(member_text(views[i as int])));
        assert(member_texts(views.take(i + 1)) == member_texts(views.take(i as int)).push(
            member_text(views[i as int]),
        ));
        i = i + 1;
    }
    assert(views.take(views.len() as int) == views);
    let mut out = "  { ".to_owned();
    out.append(join(&members, ", ").as_str());
    out.append(" }");
    out
}

/// A value that was read, and the text after it.
pub type Reading<T> = Option<(T, Seq<char>)>;

/// The value of a hexadecimal digit.
pub open spec fn hex_value(c: char) -> Option<int> {
    if '0' <= c <= '9' {
        Some(c as int - '0' as int)
    } else if 'a' <= c <= 'f' {
        Some(c as int - 'a' as int + 10)
    } else if 'A' <= c <= 'F' {
        Some(c as int - 'A' as int + 10)
    } else {
        None
    }
}

/// The value of the four hexadecimal digits from index `i` on.
pub open spec fn hex_code(t: Seq<char>, i: int) -> Option<int> {
    if i + 4 > t.len() {
        None
    } else {
        match (hex_value(t[i]), hex_value(t[i + 1]), hex_value(t[i + 2]), hex_value(t[i + 3])) {
            (Some(a), Some(b), Some(c), Some(d)) => Some(a * 4096 + b * 256 + c * 16 + d),
            _ => None,
        }
    }
}

/// The character that an escape at the start of `t` stands for, and its length. Two
/// escaped surrogates stand for one character.
pub open spec fn read_escape(t: Seq<char>) -> Option<(char, int)> {
    if t.len() < 2 {
        None
    } else if t[1] == '"' || t[1] == '\\' || t[1] == '/' {
        Some((t[1], 2))
    } else if t[1] == 'b' {
        Some(('\u{8}', 2))
    } else if t[1] == 'f' {
        Some(('\u{c}', 2))
    } else if t[1] == 'n' {
        Some(('\n', 2))
    } else if t[1] == 'r' {
        Some(('\r', 2))
    } else if t[1] == 't' {
        Some(('\t', 2))
    } else if t[1] == 'u' {
        match hex_code(t, 2) {
            None => None,
            Some(code) => if code < 0xd800 || code > 0xdfff {
                Some((code as char, 6))
            } else if code < 0xdc00 && t.len() >= 12 && t[6] == '\\' && t[7] == 'u' {
                match hex_code(t, 8) {
                    Some(low) => if 0xdc00 <= low <= 0xdfff {
                        Some(((0x10000 + (code - 0xd800) * 0x400 + (low - 0xdc00)) as char, 12))
                    } else {
                        None
                    },
                    None => None,
                }
            } else {
                None
            },
        }
    } else {
        None
    }
}

/// Reads the inside of a string up to the quote that ends it. A control character
/// must be escaped.
pub open spec fn read_chars(t: Seq<char>) -> Reading<Seq<char>>
    decreases t.len(),
{
    if t.len() == 0 || is_control(t[0]) {
        None
    } else if t[0] == '"' {
        Some((Seq::empty(), t.skip(1)))
    } else if t[0] == '\\' {
        match read_escape(t) {
            Some((c, n)) => match read_chars(t.skip(n)) {
                Some((s, rest)) => Some((seq![c] + s, rest)),
                None => None,
            },
            None => None,
        }
    } else {
        match read_chars(t.skip(1)) {
            Some((s, rest)) => Some((seq![t[0]] + s, rest)),
            None => None,
        }
    }
}

/// Reads a string.
pub open spec fn read_string(t: Seq<char>) -> Reading<Seq<char>> {
    if t.len() > 0 && t[0] == '"' {
        read_chars(t.skip(1))
    } else {
        None
    }
}

/// The text that a JSON string stands for, if it is one.
pub open spec fn json_decoded(t: Seq<char>) -> Option<Seq<char>> {
    match read_string(t) {
        Some((s, rest)) => if rest.len() == 0 {
            Some(s)
        } else {
            None
        },
        None => None,
    }
}

/// The number of digits at the start of `t`.
pub open spec fn digit_run(t: Seq<char>) -> int
    decreases t.len(),
{
    if t.len() > 0 && is_digit(t[0]) {
        1 + digit_run(t.skip(1))
    } else {
        0
    }
}

/// Reads a natural number. It has no zero before its other digits.
pub open spec fn read_number(t: Seq<char>) -> Reading<nat> {
    let k = digit_run(t);
    if k == 0 || (k > 1 && t[0] == '0') {
        None
    } else {
        Some((decimal_value(t.take(k)) as nat, t.skip(k)))
    }
}

/// Reads a value: a string or a natural number.
pub open spec fn read_value(t: Seq<char>) -> Reading<JsonValueView> {
    match read_string(t) {
        Some((s, rest)) => Some((JsonValueView::Text(s), rest)),
        None => match read_number(t) {
            Some((n, rest)) => Some((JsonValueView::Number(n), rest)),
            None => None,
        },
    }
}

/// White space between the parts of JSON text.
pub open spec fn is_json_space(c: char) -> bool {
    c == ' ' || c == '\t' || c == '\n' || c == '\r'
}

/// `t` without the white space at its start.
pub open spec fn skip_space(t: Seq<char>) -> Seq<char>
    decreases t.len(),
{
    if t.len() > 0 && is_json_space(t[0]) {
        skip_space(t.skip(1))
    } else {
        t
    }
}

/// `t` starts with `c`.
pub open spec fn starts(t: Seq<char>, c: char) -> bool {
    t.len() > 0 && t[0] == c
}

/// Reads a key and its value.
pub open spec fn read_member(t: Seq<char>) -> Reading<(Seq<char>, JsonValueView)> {
    match read_string(skip_space(t)) {
        None => None,
        Some((key, after_key)) => {
            let colon = skip_space(after_key);
            if !starts(colon, ':') {
                None
            } else {
                match read_value(skip_space(colon.skip(1))) {
                    None => None,
                    Some((value, rest)) => Some(((key, value), skip_space(rest))),
                }
            }
        },
    }
}

/// Reads keys and values up to the brace that ends their object.
pub open spec fn read_members(t: Seq<char>) -> Reading<JsonObjectView>
    decreases t.len(),
    via read_members_shrinks
{
    match read_member(t) {
        None => None,
        Some((m, rest)) => if starts(rest, '}') {
            Some((seq![m], rest.skip(1)))
        } else if starts(rest, ',') {
            match read_members(rest.skip(1)) {
                Some((o, end)) => Some((seq![m] + o, end)),
                None => None,
            }
        } else {
            None
        },
    }
}

/// Reads an object.
pub open spec fn read_object(t: Seq<char>) -> Reading<JsonObjectView> {
    let start = skip_space(t);
    if !starts(start, '{') {
        None
    } else if starts(skip_space(start.skip(1)), '}') {
        Some((Seq::empty(), skip_space(start.skip(1)).skip(1)))
    } else {
        read_members(start.skip(1))
    }
}

/// Reads objects up to the bracket that ends their array.
pub open spec fn read_objects(t: Seq<char>) -> Reading<Seq<JsonObjectView>>
    decreases t.len(),
    via read_objects_shrinks
{
    match read_object(t) {
        None => None,
        Some((o, after)) => {
            let rest = skip_space(after);
            if starts(rest, ']') {
                Some((seq![o], rest.skip(1)))
            } else if starts(rest, ',') {
                match read_objects(rest.skip(1)) {
                    Some((more, end)) => Some((seq![o] + more, end)),
                    None => None,
                }
            } else {
                None
            }
        },
    }
}

/// The objects of a JSON text that is an array of objects of strings and natural
/// numbers, with nothing but white space around it.
pub open spec fn json_records(t: Seq<char>) -> Option<Seq<JsonObjectView>> {
    let start = skip_space(t);
    if !starts(start, '[') {
        None
    } else {
        let first = skip_space(start.skip(1));
        let read = if starts(first, ']') {
            Some((Seq::empty(), first.skip(1)))
        } else {
            read_objects(first)
        };
        match read {
            Some((objects, end)) => if skip_space(end).len() == 0 {
                Some(objects)
            } else {
                None
            },
            None => None,
        }
    }
}

proof fn lemma_skip_space_shrinks(t: Seq<char>)
    ensures
        skip_space(t).len() <= t.len(),
    decreases t.len(),
{
    if t.len() > 0 && is_json_space(t[0]) {
        lemma_skip_space_shrinks(t.skip(1));
    }
}

proof fn lemma_read_chars_shrinks(t: Seq<char>)
    ensures
        read_chars(t) matches Some((_, rest)) ==> rest.len() < t.len(),
    decreases t.len(),
{
    if t.len() > 0 && !is_control(t[0]) && t[0] != '"' {
        if t[0] == '\\' {
            if let Some((_, n)) = read_escape(t) {
                lemma_read_chars_shrinks(t.skip(n));
            }
        } else {
            lemma_read_chars_shrinks(t.skip(1));
        }
    }
}

proof fn lemma_digit_run(t: Seq<char>)
    ensures
        0 <= digit_run(t) <= t.len(),
    decreases t.len(),
{
    if t.len() > 0 && is_digit(t[0]) {
        lemma_digit_run(t.skip(1));
    }
}

proof fn lemma_read_member_shrinks(t: Seq<char>)
    ensures
        read_member(t) matches Some((_, rest)) ==> rest.len() < t.len(),
{
    let start = skip_space(t);
    lemma_skip_space_shrinks(t);
    if let Some((_, after_key)) = read_string(start) {
        lemma_read_chars_shrinks(start.skip(1));
        let colon = skip_space(after_key);
        lemma_skip_space_shrinks(after_key);
        if starts(colon, ':') {
            let v = skip_space(colon.skip(1));
            lemma_skip_space_shrinks(colon.skip(1));
            lemma_digit_run(v);
            if starts(v, '"') {
                lemma_read_chars_shrinks(v.skip(1));
            }
            if let Some((_, rest)) = read_value(v) {
                lemma_skip_space_shrinks(rest);
            }
        }
    }
}

#[via_fn]
proof fn read_members_shrinks(t: Seq<char>) {
    lemma_read_member_shrinks(t);
}

proof fn lemma_read_members_shrinks(t: Seq<char>)
    ensures
        read_members(t) matches Some((_, rest)) ==> rest.len() < t.len(),
    decreases t.len(),
{
    lemma_read_member_shrinks(t);
    if let Some((_, rest)) = read_member(t) {
        if starts(rest, ',') {
            lemma_read_members_shrinks(rest.skip(1));
        }
    }
}

#[via_fn]
proof fn read_objects_shrinks(t: Seq<char>) {
    let start = skip_space(t);
    lemma_skip_space_shrinks(t);
    if starts(start, '{') {
        lemma_skip_space_shrinks(start.skip(1));
        lemma_read_members_shrinks(start.skip(1));
    }
    if let Some((_, after)) = read_object(t) {
        lemma_skip_space_shrinks(after);
    }
}

proof fn lemma_escape_is_read(c: char, rest: Seq<char>)
    requires
        c == '\\' || c == '"' || is_control(c),
    ensures
        read_escape(json_char(c) + rest) == Some((c, json_char(c).len() as int)),
        (json_char(c) + rest)[0] == '\\',
{
    let e = json_char(c);
    let t = e + rest;
    assert(t[0] == e[0] && t[1] == e[1]);
    if e.len() == 6 {
        let n = c as int;
        assert(t[2] == e[2] && t[3] == e[3] && t[4] == e[4] && t[5] == e[5]);
        assert(hex_value('0') == Some(0int));
        assert(hex_value(hex_digit(n / 16)) == Some(n / 16));
        assert(hex_value(hex_digit(n % 16)) == Some(n % 16));
        assert(hex_code(t, 2) == Some(n));
    }
}

proof fn lemma_chars_are_read(s: Seq<char>, rest: Seq<char>)
    ensures
        read_chars(json_escaped(s) + seq!['"'] + rest) == Some((s, rest)),
    decreases s.len(),
{
    let t = json_escaped(s) + seq!['"'] + rest;
    if s.len() == 0 {
        assert(t[0] == '"');
        assert(t.skip(1) == rest);
    } else {
        let c = s[0];
        let more = json_escaped(s.drop_first()) + seq!['"'] + rest;
        lemma_chars_are_read(s.drop_first(), rest);
        assert(t == json_char(c) + more);
        assert(t.skip(json_char(c).len() as int) == more);
        assert(seq![c] + s.drop_first() == s);
        if c == '\\' || c == '"' || is_control(c) {
            lemma_escape_is_read(c, more);
        } else {
            assert(t[0] == c);
        }
    }
}

proof fn lemma_string_is_read(s: Seq<char>, rest: Seq<char>)
    ensures
        read_string(json_text(s) + rest) == Some((s, rest)),
{
    let t = json_text(s) + rest;
    assert(t[0] == '"');
    assert(t.skip(1) == json_escaped(s) + seq!['"'] + rest);
    lemma_chars_are_read(s, rest);
}

/// The JSON string of a text is one JSON string, and stands for that text.
pub proof fn lemma_json_round_trip(s: Seq<char>)
    ensures
        json_decoded(json_text(s)) == Some(s),
{
    lemma_string_is_read(s, Seq::empty());
    assert(json_text(s) + Seq::<char>::empty() == json_text(s));
}

/// Two texts have the same JSON string only when they are the same text.
pub proof fn lemma_json_text_injective(a: Seq<char>, b: Seq<char>)
    requires
        json_text(a) == json_text(b),
    ensures
        a == b,
{
    lemma_json_round_trip(a);
    lemma_json_round_trip(b);
}

/// No control character stands in a JSON string.
pub proof fn lemma_json_text_has_no_control(s: Seq<char>)
    ensures
        forall|i: int| 0 <= i < json_text(s).len() ==> !is_control(#[trigger] json_text(s)[i]),
{
    lemma_json_escaped_has_no_control(s);
    let e = json_escaped(s);
    assert forall|i: int| 0 <= i < json_text(s).len() implies !is_control(#[trigger] json_text(s)[i]) by {
        if 0 < i <= e.len() {
            assert(json_text(s)[i] == e[i - 1]);
        }
    }
}

proof fn lemma_json_char_has_no_control(c: char)
    ensures
        forall|i: int| 0 <= i < json_char(c).len() ==> !is_control(#[trigger] json_char(c)[i]),
{
    let e = json_char(c);
    if e.len() == 6 {
        let n = c as int;
        assert(0 <= n / 16 < 16 && 0 <= n % 16 < 16);
        assert(!is_control(e[4]));
        assert(!is_control(e[5]));
    }
    assert forall|i: int| 0 <= i < e.len() implies !is_control(#[trigger] e[i]) by {
        assert(i == 0 || i == 1 || i == 2 || i == 3 || i == 4 || i == 5);
    }
}

proof fn lemma_json_escaped_has_no_control(s: Seq<char>)
    ensures
        forall|i: int| 0 <= i < json_escaped(s).len() ==> !is_control(#[trigger] json_escaped(s)[i]),
    decreases s.len(),
{
    if s.len() > 0 {
        let head = json_char(s.first());
        let tail = json_escaped(s.drop_first());
        lemma_json_escaped_has_no_control(s.drop_first());
        lemma_json_char_has_no_control(s.first());
        assert forall|i: int| 0 <= i < json_escaped(s).len() implies !is_control(
            #[trigger] json_escaped(s)[i],
        ) by {
            if i < head.len() {
                assert(json_escaped(s)[i] == head[i]);
            } else {
                assert(json_escaped(s)[i] == tail[i - head.len()]);
            }
        }
    }
}

proof fn lemma_digit_run_is(digits: Seq<char>, rest: Seq<char>)
    requires
        forall|i: int| 0 <= i < digits.len() ==> is_digit(#[trigger] digits[i]),
        rest.len() > 0 ==> !is_digit(rest[0]),
    ensures
        digit_run(digits + rest) == digits.len(),
    decreases digits.len(),
{
    let t = digits + rest;
    if digits.len() == 0 {
        assert(t == rest);
    } else {
        assert(t[0] == digits[0]);
        assert(is_digit(digits[0]));
        let more = digits.skip(1);
        assert(t.skip(1) == more + rest);
        assert forall|i: int| 0 <= i < more.len() implies is_digit(#[trigger] more[i]) by {
            assert(more[i] == digits[i + 1]);
        }
        lemma_digit_run_is(more, rest);
    }
}

proof fn lemma_no_leading_zero(n: nat)
    requires
        n > 0,
    ensures
        decimal_text(n)[0] != '0',
    decreases n,
{
    if n >= 10 {
        lemma_no_leading_zero(n / 10);
        lemma_decimal_text(n / 10);
    }
}

proof fn lemma_value_is_read(v: JsonValueView, rest: Seq<char>)
    requires
        rest.len() > 0 ==> !is_digit(rest[0]),
    ensures
        read_value(value_text(v) + rest) == Some((v, rest)),
        !is_json_space((value_text(v) + rest)[0]),
        value_text(v).len() > 0,
{
    let t = value_text(v) + rest;
    match v {
        JsonValueView::Text(s) => {
            lemma_string_is_read(s, rest);
            assert(t[0] == '"');
        },
        JsonValueView::Number(n) => {
            let digits = decimal_text(n);
            lemma_decimal_text(n);
            lemma_digit_run_is(digits, rest);
            assert(t[0] == digits[0] && is_digit(digits[0]));
            if n > 0 {
                lemma_no_leading_zero(n);
            }
            assert(t.take(digits.len() as int) == digits);
            assert(t.skip(digits.len() as int) == rest);
        },
    }
}

proof fn lemma_member_is_read(m: (Seq<char>, JsonValueView), rest: Seq<char>)
    requires
        rest.len() > 0,
        !is_digit(rest[0]),
    ensures
        read_member(member_text(m) + rest) == Some((m, skip_space(rest))),
        (member_text(m) + rest)[0] == '"',
        read_member(seq![' '] + (member_text(m) + rest)) == Some((m, skip_space(rest))),
{
    reveal_strlit(": ");
    let t = member_text(m) + rest;
    let value = value_text(m.1) + rest;
    let colon = ": "@ + value;
    assert(t == json_text(m.0) + colon);
    lemma_string_is_read(m.0, colon);
    lemma_value_is_read(m.1, rest);
    assert(t[0] == '"');
    assert(skip_space(t) == t);
    assert((seq![' '] + t).skip(1) == t);
    assert(colon[0] == ':');
    assert(skip_space(colon) == colon);
    let spaced = colon.skip(1);
    assert(spaced[0] == ' ');
    assert(spaced.skip(1) == value);
    assert(skip_space(value) == value);
    assert(skip_space(spaced) == value);
}

proof fn lemma_joined_first(parts: Seq<Seq<char>>, sep: Seq<char>)
    requires
        parts.len() > 1,
    ensures
        joined(parts, sep) == parts[0] + sep + joined(parts.drop_first(), sep),
    decreases parts.len(),
{
    let rest = parts.drop_first();
    if parts.len() == 2 {
        assert(parts.drop_last() == seq![parts[0]]);
        assert(joined(parts.drop_last(), sep) == parts[0]);
        assert(joined(rest, sep) == parts[1]);
    } else {
        lemma_joined_first(parts.drop_last(), sep);
        assert(parts.drop_last().drop_first() == rest.drop_last());
        assert(joined(parts, sep) == parts[0] + sep + joined(rest.drop_last(), sep) + sep
            + parts.last());
        assert(joined(parts, sep) == parts[0] + sep + joined(rest, sep));
    }
}

proof fn lemma_members_are_read(o: JsonObjectView, rest: Seq<char>)
    requires
        o.len() > 0,
    ensures
        read_members(seq![' '] + (joined(member_texts(o), ", "@) + " }"@ + rest)) == Some(
            (o, rest),
        ),
    decreases o.len(),
{
    reveal_strlit(", ");
    reveal_strlit(" }");
    let texts = member_texts(o);
    let t = joined(texts, ", "@) + " }"@ + rest;
    if o.len() == 1 {
        let end = " }"@ + rest;
        assert(t == member_text(o[0]) + end);
        lemma_member_is_read(o[0], end);
        assert(end.skip(1)[0] == '}');
        assert(skip_space(end.skip(1)) == end.skip(1));
        assert(skip_space(end) == end.skip(1));
        assert(end.skip(1).skip(1) == rest);
        assert(seq![o[0]] == o);
    } else {
        let more = o.drop_first();
        lemma_joined_first(texts, ", "@);
        assert(texts.drop_first() == member_texts(more));
        let tail = joined(member_texts(more), ", "@) + " }"@ + rest;
        let end = ", "@ + tail;
        assert(t == member_text(o[0]) + end);
        lemma_member_is_read(o[0], end);
        assert(end[0] == ',');
        assert(skip_space(end) == end);
        assert(end.skip(1) == seq![' '] + tail);
        lemma_members_are_read(more, rest);
        assert(seq![o[0]] + more == o);
    }
}

proof fn lemma_object_is_read(o: JsonObjectView, rest: Seq<char>)
    ensures
        read_object(object_text(o) + rest) == Some((o, rest)),
        skip_space(object_text(o) + rest).len() > 0,
        skip_space(object_text(o) + rest)[0] == '{',
{
    reveal_strlit("  { ");
    reveal_strlit(" }");
    let inside = joined(member_texts(o), ", "@) + " }"@ + rest;
    let t = object_text(o) + rest;
    assert(t == "  { "@ + inside);
    let start = t.skip(1).skip(1);
    assert(start[0] == '{');
    assert(skip_space(start) == start);
    assert(skip_space(t.skip(1)) == start);
    assert(skip_space(t) == start);
    let body = start.skip(1);
    assert(body == seq![' '] + inside);
    assert(body.skip(1) == inside);
    if o.len() == 0 {
        assert(member_texts(o).len() == 0);
        assert(inside == " }"@ + rest);
        let end = inside.skip(1);
        assert(end[0] == '}');
        assert(skip_space(end) == end);
        assert(skip_space(inside) == end);
        assert(skip_space(body) == end);
        assert(end.skip(1) == rest);
        assert(o == JsonObjectView::empty());
    } else {
        lemma_members_are_read(o, rest);
        lemma_joined_starts(o);
        assert(inside[0] == '"');
        assert(skip_space(inside) == inside);
        assert(skip_space(body) == inside);
    }
}

proof fn lemma_joined_starts(o: JsonObjectView)
    requires
        o.len() > 0,
    ensures
        joined(member_texts(o), ", "@).len() > 0,
        joined(member_texts(o), ", "@)[0] == '"',
    decreases o.len(),
{
    let texts = member_texts(o);
    if o.len() == 1 {
        assert(texts[0] == member_text(o[0]));
    } else {
        lemma_joined_starts(o.drop_last());
        assert(texts.drop_last() == member_texts(o.drop_last()));
    }
}

proof fn lemma_objects_are_read(objects: Seq<JsonObjectView>, rest: Seq<char>)
    requires
        objects.len() > 0,
    ensures
        read_objects(joined(object_texts(objects), ",\n"@) + "\n]"@ + rest) == Some(
            (objects, rest),
        ),
        read_objects(seq!['\n'] + (joined(object_texts(objects), ",\n"@) + "\n]"@ + rest)) == Some(
            (objects, rest),
        ),
    decreases objects.len(),
{
    reveal_strlit(",\n");
    reveal_strlit("\n]");
    let texts = object_texts(objects);
    let t = joined(texts, ",\n"@) + "\n]"@ + rest;
    assert((seq!['\n'] + t).skip(1) == t);
    assert(skip_space(seq!['\n'] + t) == skip_space(t));
    if objects.len() == 1 {
        let end = "\n]"@ + rest;
        assert(t == object_text(objects[0]) + end);
        lemma_object_is_read(objects[0], end);
        assert(end.skip(1)[0] == ']');
        assert(skip_space(end.skip(1)) == end.skip(1));
        assert(skip_space(end) == end.skip(1));
        assert(end.skip(1).skip(1) == rest);
        assert(seq![objects[0]] == objects);
    } else {
        let more = objects.drop_first();
        lemma_joined_first(texts, ",\n"@);
        assert(texts.drop_first() == object_texts(more));
        let tail = joined(object_texts(more), ",\n"@) + "\n]"@ + rest;
        let end = ",\n"@ + tail;
        assert(t == object_text(objects[0]) + end);
        lemma_object_is_read(objects[0], end);
        assert(end[0] == ',');
        assert(skip_space(end) == end);
        assert(end.skip(1) == seq!['\n'] + tail);
        lemma_objects_are_read(more, rest);
        assert(seq![objects[0]] + more == objects);
    }
}

proof fn lemma_skip_space_twice(t: Seq<char>)
    ensures
        skip_space(skip_space(t)) == skip_space(t),
    decreases t.len(),
{
    if t.len() > 0 && is_json_space(t[0]) {
        lemma_skip_space_twice(t.skip(1));
    }
}

/// An array of objects is JSON text, and a reader finds in it just those objects.
pub proof fn lemma_json_records(objects: Seq<JsonObjectView>)
    ensures
        json_records(json_array_text(object_texts(objects))) == Some(objects),
{
    reveal_strlit("[\n");
    reveal_strlit("\n]");
    reveal_strlit("\n]\n");
    let texts = object_texts(objects);
    let t = json_array_text(texts);
    let end = seq!['\n'];
    let inside = joined(texts, ",\n"@) + "\n]"@ + end;
    assert("\n]\n"@ == "\n]"@ + end);
    assert(t == "[\n"@ + inside);
    assert(t[0] == '[');
    assert(skip_space(t) == t);
    assert(t.skip(1) == seq!['\n'] + inside);
    assert(t.skip(1).skip(1) == inside);
    assert(end.skip(1) == Seq::<char>::empty());
    assert(skip_space(Seq::<char>::empty()) == Seq::<char>::empty());
    assert(skip_space(end).len() == 0);
    if objects.len() == 0 {
        assert(texts.len() == 0);
        assert(inside == "\n]"@ + end);
        let close = inside.skip(1);
        assert(close[0] == ']');
        assert(skip_space(close) == close);
        assert(skip_space(inside) == close);
        assert(skip_space(t.skip(1)) == close);
        assert(close.skip(1) == end);
        assert(objects == Seq::<JsonObjectView>::empty());
    } else {
        let first = skip_space(t.skip(1));
        assert(first == skip_space(inside));
        lemma_objects_are_read(objects, end);
        lemma_joined_objects_start(objects, "\n]"@ + end);
        assert(joined(texts, ",\n"@) + ("\n]"@ + end) == inside);
        assert(first[0] == '{');
        lemma_skip_space_twice(inside);
        assert(read_object(first) == read_object(inside));
        assert(read_objects(first) == read_objects(inside));
    }
}

proof fn lemma_joined_objects_start(objects: Seq<JsonObjectView>, rest: Seq<char>)
    requires
        objects.len() > 0,
    ensures
        skip_space(joined(object_texts(objects), ",\n"@) + rest).len() > 0,
        skip_space(joined(object_texts(objects), ",\n"@) + rest)[0] == '{',
{
    let texts = object_texts(objects);
    let t = joined(texts, ",\n"@) + rest;
    if objects.len() == 1 {
        lemma_object_is_read(objects[0], rest);
    } else {
        lemma_joined_first(texts, ",\n"@);
        let tail = ",\n"@ + joined(texts.drop_first(), ",\n"@) + rest;
        assert(t == object_text(objects[0]) + tail);
        lemma_object_is_read(objects[0], tail);
    }
}

proof fn lemma_json_escaped_append(a: Seq<char>, b: Seq<char>)
    ensures
        json_escaped(a + b) == json_escaped(a) + json_escaped(b),
    decreases a.len(),
{
    if a.len() == 0 {
        assert(a + b == b);
        assert(json_escaped(a) + json_escaped(b) == json_escaped(b));
    } else {
        assert((a + b).drop_first() == a.drop_first() + b);
        lemma_json_escaped_append(a.drop_first(), b);
        assert(json_escaped(a + b) == json_escaped(a) + json_escaped(b));
    }
}

proof fn lemma_json_escaped_plain(s: Seq<char>)
    requires
        forall|i: int|
            0 <= i < s.len() ==> ' ' <= #[trigger] s[i] && s[i] != '"' && s[i] != '\\',
    ensures
        json_escaped(s) == s,
    decreases s.len(),
{
    if s.len() > 0 {
        let rest = s.drop_first();
        assert forall|i: int| 0 <= i < rest.len() implies ' ' <= #[trigger] rest[i] && rest[i]
            != '"' && rest[i] != '\\' by {
            assert(rest[i] == s[i + 1]);
        }
        lemma_json_escaped_plain(rest);
        assert(' ' <= s[0] && s[0] != '"' && s[0] != '\\');
        assert(seq![s[0]] + rest == s);
    }
}

/// In a JSON string a character stands for itself, unless it is a quote, a backslash or
/// a control character; a quote and a backslash have a backslash before them.
pub proof fn lemma_json_text(a: Seq<char>, b: Seq<char>)
    requires
        forall|i: int|
            0 <= i < a.len() ==> ' ' <= #[trigger] a[i] && a[i] != '"' && a[i] != '\\',
        forall|i: int|
            0 <= i < b.len() ==> ' ' <= #[trigger] b[i] && b[i] != '"' && b[i] != '\\',
    ensures
        json_text(a) == seq!['"'] + a + seq!['"'],
        json_text(a + seq!['"'] + b) == seq!['"'] + a + seq!['\\', '"'] + b + seq!['"'],
        json_text(a + seq!['\\'] + b) == seq!['"'] + a + seq!['\\', '\\'] + b + seq!['"'],
        json_text(a + seq!['\n'] + b) == seq!['"'] + a + seq!['\\', 'n'] + b + seq!['"'],
        json_text(a + seq!['\r'] + b) == seq!['"'] + a + seq!['\\', 'r'] + b + seq!['"'],
        json_text(a + seq!['\t'] + b) == seq!['"'] + a + seq!['\\', 't'] + b + seq!['"'],
{
    lemma_json_escaped_plain(a);
    lemma_json_escaped_plain(b);
    lemma_json_text_of_three(a, '"', b);
    lemma_json_text_of_three(a, '\\', b);
    lemma_json_text_of_three(a, '\n', b);
    lemma_json_text_of_three(a, '\r', b);
    lemma_json_text_of_three(a, '\t', b);
}

proof fn lemma_json_text_of_three(a: Seq<char>, c: char, b: Seq<char>)
    ensures
        json_text(a + seq![c] + b) == seq!['"'] + json_escaped(a) + json_char(c) + json_escaped(b)
            + seq!['"'],
{
    lemma_json_escaped_append(a + seq![c], b);
    lemma_json_escaped_append(a, seq![c]);
    assert(seq![c].drop_first() == Seq::<char>::empty());
    assert(json_escaped(Seq::<char>::empty()) == Seq::<char>::empty());
    assert(json_escaped(seq![c]) == json_char(c));
    assert(json_text(a + seq![c] + b) == seq!['"'] + json_escaped(a) + json_char(c)
        + json_escaped(b) + seq!['"']);
}

/// An object of two members has them between braces, with a comma between the two.
pub proof fn lemma_object_text(
    a: (Seq<char>, JsonValueView),
    b: (Seq<char>, JsonValueView),
)
    ensures
        object_text(seq![a]) == "  { "@ + json_text(a.0) + ": "@ + value_text(a.1) + " }"@,
        object_text(seq![a, b]) == "  { "@ + json_text(a.0) + ": "@ + value_text(a.1) + ", "@
            + json_text(b.0) + ": "@ + value_text(b.1) + " }"@,
{
    assert(member_texts(seq![a]) == seq![member_text(a)]);
    assert(member_texts(seq![a, b]) == seq![member_text(a), member_text(b)]);
    assert(seq![member_text(a), member_text(b)].drop_last() == seq![member_text(a)]);
    assert(joined(seq![member_text(a)], ", "@) == member_text(a));
    assert(joined(seq![member_text(a), member_text(b)], ", "@) == member_text(a) + ", "@
        + member_text(b));
    assert(object_text(seq![a]) == "  { "@ + json_text(a.0) + ": "@ + value_text(a.1) + " }"@);
    assert(object_text(seq![a, b]) == "  { "@ + json_text(a.0) + ": "@ + value_text(a.1) + ", "@
        + json_text(b.0) + ": "@ + value_text(b.1) + " }"@);
}

/// A value of an object is a JSON string or the digits of a number.
pub proof fn lemma_value_text(s: Seq<char>, n: nat)
    ensures
        value_text(JsonValueView::Text(s)) == json_text(s),
        value_text(JsonValueView::Number(n)) == decimal_text(n),
{
}

/// A control character other than a line feed, a carriage return and a tab is written
/// by its number, in four hexadecimal digits.
pub proof fn lemma_json_control(a: Seq<char>, n: nat, b: Seq<char>)
    requires
        n < 32 && n != 9 && n != 10 && n != 13,
        forall|i: int|
            0 <= i < a.len() ==> ' ' <= #[trigger] a[i] && a[i] != '"' && a[i] != '\\',
        forall|i: int|
            0 <= i < b.len() ==> ' ' <= #[trigger] b[i] && b[i] != '"' && b[i] != '\\',
    ensures
        json_text(a + seq![n as char] + b) == seq!['"'] + a + seq![
            '\\',
            'u',
            '0',
            '0',
            if n < 16 {
                '0'
            } else {
                '1'
            },
            if n % 16 < 10 {
                (48 + n % 16) as char
            } else {
                (87 + n % 16) as char
            },
        ] + b + seq!['"'],
{
    lemma_json_escaped_plain(a);
    lemma_json_escaped_plain(b);
    lemma_json_text_of_three(a, n as char, b);
    assert(hex_digit(n as int / 16) == if n < 16 {
        '0'
    } else {
        '1'
    });
}

} // verus!
