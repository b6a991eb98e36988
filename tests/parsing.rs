use at_parser_rs::parser::{parse, AtForm};
use at_parser_rs::Args;

fn name_and_raw(line: &str) -> (&str, Option<&str>, &'static str) {
    let (name, form) = parse(line).expect("parsing never fails");
    match form {
        AtForm::Exec => (name, None, "exec"),
        AtForm::Query => (name, None, "query"),
        AtForm::Test => (name, None, "test"),
        AtForm::SetArgs(args) => (name, Some(args.raw), "set"),
    }
}

#[test]
fn parse_always_succeeds() {
    for line in ["", " ", "=", "?", "=?", "??", "==", "AT", "a=b?", "ä=ö", "\r\n"] {
        assert!(parse(line).is_ok());
    }
}

#[test]
fn parse_test_form() {
    assert_eq!(name_and_raw("AT+X=?"), ("AT+X", None, "test"));
    assert_eq!(name_and_raw("=?"), ("", None, "test"));
    assert_eq!(name_and_raw("AT+X==?"), ("AT+X=", None, "test"));
}

#[test]
fn parse_query_form() {
    assert_eq!(name_and_raw("AT+X?"), ("AT+X", None, "query"));
    assert_eq!(name_and_raw("AT+X=1?"), ("AT+X=1", None, "query"));
    assert_eq!(name_and_raw("?"), ("", None, "query"));
}

#[test]
fn parse_set_form() {
    assert_eq!(name_and_raw("AT+X=1,2"), ("AT+X", Some("1,2"), "set"));
    assert_eq!(name_and_raw("AT+X="), ("AT+X", Some(""), "set"));
    assert_eq!(name_and_raw("AT+X=1=2"), ("AT+X", Some("1=2"), "set"));
    assert_eq!(name_and_raw("AT+X=a?b"), ("AT+X", Some("a?b"), "set"));
}

#[test]
fn parse_exec_form() {
    assert_eq!(name_and_raw("AT+X"), ("AT+X", None, "exec"));
    assert_eq!(name_and_raw(""), ("", None, "exec"));
    assert_eq!(name_and_raw("AT"), ("AT", None, "exec"));
}

#[test]
fn parse_trims_whitespace() {
    assert_eq!(name_and_raw("  AT+X  "), ("AT+X", None, "exec"));
    assert_eq!(name_and_raw("\t AT+X=? \r\n"), ("AT+X", None, "test"));
    assert_eq!(name_and_raw(" AT+X= a , b "), ("AT+X", Some(" a , b"), "set"));
    assert_eq!(name_and_raw("   "), ("", None, "exec"));
}

#[test]
fn parse_keeps_non_ascii() {
    assert_eq!(name_and_raw("AT+Ü=é,ß"), ("AT+Ü", Some("é,ß"), "set"));
    assert_eq!(name_and_raw("AT+Ü?"), ("AT+Ü", None, "query"));
}

#[test]
fn args_fields_in_order() {
    let args = Args { raw: "foo,bar,baz" };
    assert_eq!(args.get(0), Some("foo"));
    assert_eq!(args.get(1), Some("bar"));
    assert_eq!(args.get(2), Some("baz"));
    assert_eq!(args.get(3), None);
}

#[test]
fn args_keep_empty_fields() {
    let args = Args { raw: "a,,c" };
    assert_eq!(args.get(0), Some("a"));
    assert_eq!(args.get(1), Some(""));
    assert_eq!(args.get(2), Some("c"));
    assert_eq!(args.get(3), None);
}

#[test]
fn args_trailing_comma() {
    let args = Args { raw: "a," };
    assert_eq!(args.get(0), Some("a"));
    assert_eq!(args.get(1), Some(""));
    assert_eq!(args.get(2), None);
}

#[test]
fn args_empty_raw() {
    let args = Args { raw: "" };
    assert_eq!(args.get(0), Some(""));
    assert_eq!(args.get(1), None);
    assert_eq!(args.get(usize::MAX), None);
}

#[test]
fn args_no_trimming() {
    let args = Args { raw: " 42, x " };
    assert_eq!(args.get(0), Some(" 42"));
    assert_eq!(args.get(1), Some(" x "));
}

#[test]
fn args_match_std_split() {
    for raw in ["", ",", ",,", "a", "a,b", ",a,", "é,,ü", "1=2,?"] {
        let args = Args { raw };
        let expected: Vec<&str> = raw.split(',').collect();
        for i in 0..expected.len() + 2 {
            assert_eq!(args.get(i), expected.get(i).copied());
        }
    }
}
