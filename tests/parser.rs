use monke::parser::parse;

fn check(input: &str, expected: &str) {
    let parse = parse(input);
    assert_eq!(parse.debug_tree(), expected);
}

#[test]
fn parse_multiple_statements() {
    check(
        "set a = 1;\na",
        r#"Root@0..12
  VariableDef@0..11
    SetKw@0..3 "set"
    Whitespace@3..4 " "
    Identifier@4..5 "a"
    Whitespace@5..6 " "
    Equals@6..7 "="
    Whitespace@7..8 " "
    Literal@8..9
      Number@8..9 "1"
    SemiColon@9..10 ";"
    Whitespace@10..11 "\n"
  VariableRef@11..12
    Identifier@11..12 "a""#,
    );
}

#[test]
fn parse_variable_definition() {
    check(
        "set foo = bar",
        r#"Root@0..13
  VariableDef@0..13
    SetKw@0..3 "set"
    Whitespace@3..4 " "
    Identifier@4..7 "foo"
    Whitespace@7..8 " "
    Equals@8..9 "="
    Whitespace@9..10 " "
    VariableRef@10..13
      Identifier@10..13 "bar""#,
    );
}

#[test]
fn recover_on_let_token() {
    check(
        "set a =\nset b = a",
        r#"Root@0..17
  VariableDef@0..8
    SetKw@0..3 "set"
    Whitespace@3..4 " "
    Identifier@4..5 "a"
    Whitespace@5..6 " "
    Equals@6..7 "="
    Whitespace@7..8 "\n"
  VariableDef@8..17
    SetKw@8..11 "set"
    Whitespace@11..12 " "
    Identifier@12..13 "b"
    Whitespace@13..14 " "
    Equals@14..15 "="
    Whitespace@15..16 " "
    VariableRef@16..17
      Identifier@16..17 "a"
error at 8..11: expected number, identifier, '-' or '(', but found 'set'"#,
    );
}

#[test]
fn parse_number_literal() {
    check(
        "123",
        r#"Root@0..3
  Literal@0..3
    Number@0..3 "123""#,
    );
}

#[test]
fn parse_infix_precedence() {
    check(
        "1+2*3",
        r#"Root@0..5
  InfixExpr@0..5
    Literal@0..1
      Number@0..1 "1"
    Plus@1..2 "+"
    InfixExpr@2..5
      Literal@2..3
        Number@2..3 "2"
      Asterisk@3..4 "*"
      Literal@4..5
        Number@4..5 "3""#,
    );
}
