use monke::utils::{
    extract_digits, extract_ident, extract_op, extract_whitespace, extract_whitespace_required, tag,
};

#[test]
fn do_not_extract_spaces_when_input_does_not_start_with_them() {
    assert_eq!(extract_whitespace_required("blah"), Err("expected whitespace".to_string()),);
}

#[test]
fn extract_one_digit() {
    assert_eq!(extract_digits("1+2"), Ok(("1", "+2")));
}

#[test]
fn do_not_extract_digits_when_input_is_invalid() {
    assert_eq!(extract_digits("abcd"), Err("expected digits".to_string()));
}

#[test]
fn extract_digits_with_no_remainder() {
    assert_eq!(extract_digits("100"), Ok(("100", "")));
}

#[test]
fn extract_plus() {
    assert_eq!(extract_op("+2"), ("+", "2"));
}

#[test]
fn extract_minus() {
    assert_eq!(extract_op("-10"), ("-", "10"));
}

#[test]
fn extract_star() {
    assert_eq!(extract_op("*3"), ("*", "3"));
}

#[test]
fn extract_slash() {
    assert_eq!(extract_op("/4"), ("/", "4"));
}

#[test]
fn extract_alphabetic_ident() {
    assert_eq!(extract_ident("abcdEFG stop"), Ok(("abcdEFG", " stop")));
}

#[test]
fn extract_alphanumeric_ident() {
    assert_eq!(extract_ident("foobar1()"), Ok(("foobar1", "()")));
}

#[test]
fn cannot_extract_ident_beginning_with_number() {
    assert_eq!(extract_ident("123abc"), Err("expected identifier".to_string()),);
}

#[test]
fn tag_let() {
    assert_eq!(tag("let", "let a"), Ok(" a"));
}

#[test]
fn extract_newlines_or_spaces() {
    assert_eq!(extract_whitespace(" \n   \n\nabc"), (" \n   \n\n", "abc"));
}

#[test]
fn do_not_extract_spaces_required_when_input_does_not_start_with_them() {
    assert_eq!(extract_whitespace_required("blah"), Err("expected whitespace".to_string()),);
}

#[test]
fn tag_mismatch_names_the_expected_text() {
    assert_eq!(tag("let", "set a"), Err("expected let".to_string()));
}

#[test]
fn extract_whitespace_required_takes_the_run() {
    assert_eq!(extract_whitespace_required("  x"), Ok(("  ", "x")));
}
