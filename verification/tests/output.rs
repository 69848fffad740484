use tomcat_manager::output::{after, block_of_lines, end_line, join, json_array, OutputFmt};

fn strings(parts: &[&str]) -> Vec<String> {
    parts.iter().map(|s| s.to_string()).collect()
}

#[test]
fn table_is_the_default_and_not_for_machines() {
    assert_eq!(OutputFmt::default(), OutputFmt::Table);
    assert!(!OutputFmt::Table.is_machine());
    assert!(OutputFmt::Plain.is_machine());
    assert!(OutputFmt::Tsv.is_machine());
    assert!(OutputFmt::Json.is_machine());
}

#[test]
fn json_array_has_one_entry_per_line() {
    assert_eq!(json_array(&strings(&[])), "[\n\n]\n");
    assert_eq!(json_array(&strings(&["  1"])), "[\n  1\n]\n");
    assert_eq!(json_array(&strings(&["  1", "  2", "  3"])), "[\n  1,\n  2,\n  3\n]\n");
}

#[test]
fn blocks_and_joins() {
    assert_eq!(block_of_lines(&strings(&[])), "");
    assert_eq!(block_of_lines(&strings(&["a", "", "b"])), "a\n\nb\n");
    assert_eq!(join(&strings(&[]), ", "), "");
    assert_eq!(join(&strings(&["a"]), ", "), "a");
    assert_eq!(join(&strings(&["a", "", "b"]), ", "), "a, , b");
    assert_eq!(after("ab".to_string(), "cd"), "abcd");
    assert_eq!(end_line("ab".to_string()), "ab\n");
}

#[test]
fn a_block_has_its_lines() {
    let lines = ["a", "", "b c"];
    let block = block_of_lines(&strings(&lines));
    assert_eq!(block.lines().collect::<Vec<&str>>(), lines);
}
