use tomcat_manager::commands::{cmd_ssl_connectors, cmd_status};
use tomcat_manager::html::strip_html;

#[test]
fn tags_are_removed() {
    assert_eq!(strip_html("<p>Free memory: <b>12</b> MB</p>"), "Free memory: 12 MB\n");
    assert_eq!(strip_html(""), "");
    assert_eq!(strip_html("a > b"), "a  b\n");
    assert_eq!(strip_html("a < b"), "a \n");
    assert_eq!(strip_html("<a<b>c>d"), "cd\n");
    assert_eq!(strip_html("x<br\n>y"), "xy\n");
}

#[test]
fn runs_of_blank_lines_become_one() {
    assert_eq!(strip_html("a\n\n \n\t\nb\n\nc"), "a\n\nb\n\nc\n");
    assert_eq!(strip_html("\n\na"), "\na\n");
    assert_eq!(strip_html("a\r\n \r\n\r\nb"), "a\n \nb\n");
}

#[test]
fn stripping_twice_is_stripping_once() {
    for page in ["<h1>Status</h1>\n\n\n<p>ok</p>\n", "a\n\n\nb", "", "<x>", "one line"] {
        let once = strip_html(page);
        assert_eq!(strip_html(&once), once);
        assert!(!once.contains('<') && !once.contains('>'));
    }
}

#[test]
fn a_carriage_return_may_go_the_second_time() {
    let once = strip_html("a\r\r\nb");
    assert_eq!(once, "a\r\nb\n");
    assert_eq!(strip_html(&once), "a\nb\n");
}

#[test]
fn lines_with_text_are_kept_in_order() {
    let text = strip_html("<p>one</p>\n\n\n<p></p>\ntwo\n \n \nthree\n");
    let written: Vec<&str> = text.lines().filter(|l| !l.trim().is_empty()).collect();
    assert_eq!(written, ["one", "two", "three"]);
}

#[test]
fn the_status_page_is_shown_as_text() {
    assert_eq!(
        cmd_status("<html>\n<body>\n\n\nFree: 1\n\n\nMax: 2\n</body></html>\n"),
        "Free: 1\n\nMax: 2\n"
    );
    assert_eq!(cmd_status("<html></html>"), "\n");
}

#[test]
fn ciphers_are_shown_as_they_are() {
    let text = "OK - Ciphers\nConnector[HTTP/1.1-8080]\n  SSL is not enabled";
    assert_eq!(cmd_ssl_connectors(&format!("{}\n\n", text)), format!("{}\n", text));
}

#[test]
fn a_tag_leaves_no_trace() {
    for (before, rest) in [("a", "b"), ("<p>x", "y</p>\n\n\nz"), ("", "\n")] {
        let plain = strip_html(&format!("{}{}", before, rest));
        for tag in ["br", "/", "", "a href='x'\n<b"] {
            assert_eq!(strip_html(&format!("{}<{}>{}", before, tag, rest)), plain);
        }
    }
}
