use tomcat_manager::number::{i32_text, parse_i32, parse_u64, u64_text};
use tomcat_manager::text::chars_of;

const NUMBERS: [&str; 28] = [
    "",
    "0",
    "00",
    "7",
    "42",
    "+5",
    "+",
    "-",
    "-0",
    "-1",
    "--1",
    "+-1",
    "1 ",
    " 1",
    "1_000",
    "0x10",
    "12a",
    "٣",
    "2147483647",
    "2147483648",
    "-2147483648",
    "-2147483649",
    "+2147483647",
    "18446744073709551615",
    "18446744073709551616",
    "+18446744073709551615",
    "99999999999999999999999999",
    "000000000000000000000000001",
];

#[test]
fn parse_u64_reads_what_std_reads() {
    for s in NUMBERS {
        assert_eq!(parse_u64(&chars_of(s)), s.parse::<u64>().ok(), "{:?}", s);
    }
}

#[test]
fn parse_i32_reads_what_std_reads() {
    for s in NUMBERS {
        assert_eq!(parse_i32(&chars_of(s)), s.parse::<i32>().ok(), "{:?}", s);
    }
}

#[test]
fn u64_text_reads_back() {
    for n in [0, 1, 9, 10, 99, 100, 1234567890, u64::MAX] {
        assert_eq!(u64_text(n), n.to_string());
        assert_eq!(parse_u64(&chars_of(&u64_text(n))), Some(n));
    }
}

#[test]
fn i32_text_reads_back() {
    for n in [0, 1, -1, 10, -10, 60, i32::MAX, i32::MIN] {
        assert_eq!(i32_text(n), n.to_string());
        assert_eq!(parse_i32(&chars_of(&i32_text(n))), Some(n));
    }
}
