use pop3::text::parse_usize;
use pop3::text::split_tokens;
use pop3::text::str_eq;
use pop3::text::stuff;
use pop3::text::top_of;
use pop3::text::unstuff;
use pop3::text::usize_to_string;

#[test]
fn parse_usize_accepts_digit_runs() {
    assert_eq!(parse_usize("0"), Some(0));
    assert_eq!(parse_usize("7"), Some(7));
    assert_eq!(parse_usize("120"), Some(120));
    assert_eq!(parse_usize("00012"), Some(12));
}

#[test]
fn parse_usize_rejects_everything_else() {
    assert_eq!(parse_usize(""), None);
    assert_eq!(parse_usize("-1"), None);
    assert_eq!(parse_usize("+1"), None);
    assert_eq!(parse_usize("1 2"), None);
    assert_eq!(parse_usize("12a"), None);
    assert_eq!(parse_usize("99999999999999999999999999"), None);
}

#[test]
fn parse_usize_boundary() {
    let max = usize::MAX.to_string();
    assert_eq!(parse_usize(&max), Some(usize::MAX));
    let over = format!("{}0", max);
    assert_eq!(parse_usize(&over), None);
}

#[test]
fn usize_to_string_renders_decimal() {
    assert_eq!(usize_to_string(0), "0");
    assert_eq!(usize_to_string(9), "9");
    assert_eq!(usize_to_string(10), "10");
    assert_eq!(usize_to_string(320), "320");
    assert_eq!(usize_to_string(usize::MAX), usize::MAX.to_string());
}

#[test]
fn split_tokens_discards_empty_tokens() {
    assert_eq!(split_tokens("a b c"), vec!["a", "b", "c"]);
    assert_eq!(split_tokens("  a   bc "), vec!["a", "bc"]);
    assert_eq!(split_tokens(""), Vec::<String>::new());
    assert_eq!(split_tokens("   "), Vec::<String>::new());
    assert_eq!(split_tokens("single"), vec!["single"]);
}

#[test]
fn str_eq_compares_exactly() {
    assert!(str_eq("abc", "abc"));
    assert!(!str_eq("abc", "abd"));
    assert!(!str_eq("abc", "abcd"));
    assert!(str_eq("", ""));
}

#[test]
fn stuffing_doubles_leading_dots() {
    assert_eq!(stuff("abc\r\n"), "abc\r\n");
    assert_eq!(stuff(".\r\n"), "..\r\n");
    assert_eq!(stuff(".a\r\n.b\r\n"), "..a\r\n..b\r\n");
    assert_eq!(stuff("a.\r\nb\r\n"), "a.\r\nb\r\n");
}

#[test]
fn unstuffing_strips_one_leading_dot() {
    assert_eq!(unstuff("..\r\n"), ".\r\n");
    assert_eq!(unstuff("..a\r\nplain\r\n"), ".a\r\nplain\r\n");
    assert_eq!(unstuff("plain\r\n"), "plain\r\n");
}

#[test]
fn stuffing_round_trips_a_lone_dot_line() {
    let body = "first\r\n.\r\nlast\r\n";
    let wire = stuff(body);
    assert_eq!(wire, "first\r\n..\r\nlast\r\n");
    assert_eq!(unstuff(&wire), body);
}

#[test]
fn top_keeps_headers_and_first_lines() {
    let msg = "From: a\r\nTo: b\r\n\r\nbody one\r\nbody two\r\nbody three\r\n";
    assert_eq!(top_of(msg, 0), "From: a\r\nTo: b\r\n\r\n");
    assert_eq!(top_of(msg, 1), "From: a\r\nTo: b\r\n\r\nbody one\r\n");
    assert_eq!(top_of(msg, 2), "From: a\r\nTo: b\r\n\r\nbody one\r\nbody two\r\n");
}

#[test]
fn top_sends_whole_message_when_lines_exceed_body() {
    let msg = "H: v\r\n\r\none\r\ntwo\r\n";
    assert_eq!(top_of(msg, 10), msg);
}

#[test]
fn top_without_blank_line_sends_whole_message() {
    let msg = "no blank line here\r\n";
    assert_eq!(top_of(msg, 0), msg);
}
