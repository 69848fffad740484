use tomcat_manager::apps::{parse_app_list, print_app_list};
use tomcat_manager::json::{json_object, json_str, JsonValue};
use tomcat_manager::output::OutputFmt;

/// Reads a JSON string that is the whole of `text`.
fn decode(text: &str) -> String {
    let inside = text.strip_prefix('"').unwrap().strip_suffix('"').unwrap();
    let mut chars = inside.chars();
    let mut out = String::new();
    while let Some(c) = chars.next() {
        assert!(c >= ' ' && c != '"', "{:?}", text);
        if c != '\\' {
            out.push(c);
            continue;
        }
        out.push(match chars.next().unwrap() {
            'n' => '\n',
            'r' => '\r',
            't' => '\t',
            'u' => {
                let digits: String = chars.by_ref().take(4).collect();
                char::from_u32(u32::from_str_radix(&digits, 16).unwrap()).unwrap()
            }
            '"' => '"',
            '\\' => '\\',
            other => panic!("escape {:?}", other),
        });
    }
    out
}

#[test]
fn json_str_escapes_what_it_must() {
    assert_eq!(json_str(""), "\"\"");
    assert_eq!(json_str("/app"), "\"/app\"");
    assert_eq!(json_str("a\"b"), "\"a\\\"b\"");
    assert_eq!(json_str("a\\b"), "\"a\\\\b\"");
    assert_eq!(json_str("\\\""), "\"\\\\\\\"\"");
    assert_eq!(json_str("tab\tand é"), "\"tab\\tand é\"");
    assert_eq!(json_str("a\r\nb"), "\"a\\r\\nb\"");
    assert_eq!(json_str("\0\u{8}\u{1b}\u{1f} \u{7f}"), "\"\\u0000\\u0008\\u001b\\u001f \u{7f}\"");
}

#[test]
fn json_str_decodes_to_the_text() {
    let mut c = '\0';
    loop {
        let text = format!("a{}b", c);
        assert_eq!(decode(&json_str(&text)), text);
        if c == char::MAX {
            break;
        }
        c = char::from_u32(c as u32 + 1).unwrap_or('\u{e000}');
    }
}

#[test]
fn json_str_tells_texts_apart() {
    let texts = ["", "\\", "\\\\", "\"", "\\\"", "\"\\", "a", "\n", "\\n", "n", "\u{1}", "\\u0001"];
    for a in texts {
        for b in texts {
            assert_eq!(json_str(a) == json_str(b), a == b);
        }
        assert_eq!(decode(&json_str(a)), a);
    }
}

#[test]
fn objects_hold_texts_and_numbers() {
    assert_eq!(json_object(&vec![]), "  {  }");
    let fields = vec![
        ("k\"".to_string(), JsonValue::Text("v\t".to_string())),
        ("n".to_string(), JsonValue::Number(120)),
    ];
    assert_eq!(json_object(&fields), "  { \"k\\\"\": \"v\\t\", \"n\": 120 }");
}

#[test]
fn a_record_decodes_to_its_application() {
    let apps = parse_app_list("OK\n/a:running:1:tab\there \"and\" \\ \u{1}");
    let text = print_app_list(&apps, &OutputFmt::Json);
    assert!(text.chars().all(|c| c >= ' ' || c == '\n'));
    let last = text.rsplit("\"description\": ").next().unwrap();
    let value = last.strip_suffix(" }\n]\n").unwrap();
    assert_eq!(decode(value), apps[0].description);
}
