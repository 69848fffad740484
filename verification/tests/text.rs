use tomcat_manager::text::{
    blank, chars_of, find, find_char, find_space, first_line, lines, rest_lines, rfind, same,
    same_text, split_n, split_once, starts_with, strip_prefix, strip_suffix, text_of, trim,
    trim_end_of, trim_of, white_space,
};

const SAMPLES: [&str; 14] = [
    "",
    " ",
    "a",
    "\n",
    "\r\n",
    "a\n",
    "a\r\nb",
    "a\n\nb\r",
    "\r\r\n\u{3000}x \t",
    "  <b>é</b>\u{85}",
    "k=v=w",
    "::a::b:",
    "one two  three",
    "\u{200b}zero width is no space\u{200b}",
];

fn texts(parts: &[&[char]]) -> Vec<String> {
    parts.iter().map(|p| p.iter().collect()).collect()
}

#[test]
fn white_space_is_that_of_unicode() {
    let mut c = '\0';
    loop {
        assert_eq!(white_space(c), c.is_whitespace(), "{:?}", c);
        if c == char::MAX {
            break;
        }
        c = char::from_u32(c as u32 + 1).unwrap_or('\u{e000}');
    }
}

#[test]
fn characters_and_text_are_inverse() {
    for s in SAMPLES {
        let cs = chars_of(s);
        assert_eq!(cs, s.chars().collect::<Vec<char>>());
        assert_eq!(text_of(&cs), s);
    }
}

#[test]
fn trim_removes_white_space_at_both_ends() {
    for s in SAMPLES {
        let cs = chars_of(s);
        assert_eq!(text_of(trim(&cs)), s.trim());
        assert_eq!(blank(&cs), s.trim().is_empty());
    }
}

#[test]
fn trim_of_removes_one_character() {
    for s in ["", "\"", "\"\"", "\"a\"", "\"\"a\"b\"\"", "a\"b"] {
        let cs = chars_of(s);
        assert_eq!(text_of(trim_of(&cs, '"')), s.trim_matches('"'));
        assert_eq!(text_of(trim_end_of(&cs, '"')), s.trim_end_matches('"'));
    }
}

#[test]
fn lines_end_with_line_feeds() {
    for s in SAMPLES {
        let cs = chars_of(s);
        let expected: Vec<&str> = s.lines().collect();
        assert_eq!(texts(&lines(&cs)), expected);
        assert_eq!(text_of(first_line(&cs)), s.lines().next().unwrap_or(""));
        let rest: Vec<&str> = s.lines().skip(1).collect();
        assert_eq!(texts(&rest_lines(&cs)), rest);
    }
}

#[test]
fn split_once_cuts_at_the_first() {
    for s in SAMPLES {
        let cs = chars_of(s);
        let got = split_once(&cs, '=').map(|(a, b)| (text_of(a), text_of(b)));
        let expected = s.split_once('=').map(|(a, b)| (a.to_string(), b.to_string()));
        assert_eq!(got, expected);
        let at = find_char(&cs, '=');
        let first = s.chars().position(|c| c == '=').unwrap_or(cs.len());
        assert_eq!(at, first);
    }
}

#[test]
fn split_n_keeps_the_rest_in_the_last_part() {
    for s in SAMPLES {
        let cs = chars_of(s);
        for n in 1..5 {
            let expected: Vec<&str> = s.splitn(n, ':').collect();
            assert_eq!(texts(&split_n(&cs, ':', n)), expected);
        }
    }
}

#[test]
fn find_space_finds_the_first_white_space() {
    for s in SAMPLES {
        let cs = chars_of(s);
        let first = s.chars().position(|c| c.is_whitespace()).unwrap_or(cs.len());
        assert_eq!(find_space(&cs), first);
    }
}

#[test]
fn find_and_rfind_agree_with_str() {
    for s in ["", "ab", "abab", "aabaab", "xaaax", "a: b: c"] {
        for pat in ["", "a", "ab", "aa", ": ", "abc"] {
            let cs = chars_of(s);
            let ps = chars_of(pat);
            assert_eq!(find(&cs, &ps), s.find(pat), "{:?} {:?}", s, pat);
            assert_eq!(rfind(&cs, &ps), s.rfind(pat), "{:?} {:?}", s, pat);
            assert_eq!(starts_with(&cs, &ps), s.starts_with(pat));
            assert_eq!(
                strip_prefix(&cs, &ps).map(text_of),
                s.strip_prefix(pat).map(|t| t.to_string())
            );
            assert_eq!(
                strip_suffix(&cs, &ps).map(text_of),
                s.strip_suffix(pat).map(|t| t.to_string())
            );
        }
    }
}

#[test]
fn same_tells_texts_apart() {
    for a in SAMPLES {
        for b in SAMPLES {
            assert_eq!(same_text(a, b), a == b);
            assert_eq!(same(&chars_of(a), &chars_of(b)), a == b);
        }
    }
}
