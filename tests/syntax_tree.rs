use monke::ast::{Expr, Literal, Root, Stmt};
use monke::lexer::tokenize;
use monke::parser::event::Event;
use monke::parser::parse_events;
use monke::parser::parse;
use monke::parser::parse_error::ParseError;
use monke::syntax::{MonkeLanguage, SyntaxKind, TokenKind};
use monke::text::TextRange;
use monke::validation::validate;

#[test]
fn one_expected_did_find() {
    let error = ParseError {
        expected: vec![SyntaxKind::Equals],
        found: Some(SyntaxKind::Identifier),
        range: TextRange::new(10, 20),
    };
    assert_eq!(error.message(), "error at 10..20: expected '=', but found identifier");
}

#[test]
fn several_expected_kinds_are_joined() {
    let error = ParseError {
        expected: vec![SyntaxKind::Number, SyntaxKind::Identifier, SyntaxKind::Minus],
        found: None,
        range: TextRange::new(3, 3),
    };
    assert_eq!(
        error.message(),
        "error at 3..3: expected number, identifier or '-', but found end of input"
    );
}

#[test]
fn missing_expression_at_end_of_input() {
    let parse = parse("set a =");
    assert_eq!(parse.errors.len(), 1);
    assert_eq!(
        parse.errors[0].message(),
        "error at 7..7: expected number, identifier, '-' or '(', but found end of input"
    );
}

#[test]
fn unexpected_token_goes_into_an_error_node() {
    let parse = parse(")");
    assert_eq!(
        parse.debug_tree(),
        "Root@0..1\n  Error@0..1\n    RParen@0..1 \")\"\nerror at 0..1: expected 'set', number, identifier, '-' or '(', but found ')'"
    );
}

#[test]
fn validate_ok_literal() {
    let parse = parse("123");
    assert_eq!(validate(&parse.tree), vec![]);
}

#[test]
fn validate_too_large_literal() {
    let parse = parse("99999999999999999999");
    let errors = validate(&parse.tree);
    assert_eq!(errors.len(), 1);
    assert_eq!(
        errors[0].message,
        "number literal is larger than an integer's maximum value, 18446744073709551615"
    );
    assert_eq!(errors[0].range, TextRange::new(0, 20));
}

#[test]
fn validation_gives_the_same_result_twice() {
    let parse = parse("set a = 99999999999999999999 + 1");
    assert_eq!(validate(&parse.tree), validate(&parse.tree));
    assert_eq!(validate(&parse.tree).len(), 1);
}

#[test]
fn literal_parses_to_its_value() {
    let parse = parse("123");
    let root = Root::cast(&parse.tree).unwrap();
    let stmts = root.stmts();
    assert_eq!(stmts.len(), 1);
    match &stmts[0] {
        Stmt::Expr(Expr::Literal(literal)) => assert_eq!(literal.parse(), Some(123)),
        _ => panic!("expected a literal"),
    }
    assert!(parse.errors.is_empty());
}

#[test]
fn largest_literal_fits_and_next_does_not() {
    let fits = parse("18446744073709551615");
    let over = parse("18446744073709551616");
    let literal = match &fits.tree.children[0] {
        monke::tree::SyntaxElement::Node(n) => Literal::cast(n).unwrap().parse(),
        _ => None,
    };
    assert_eq!(literal, Some(u64::MAX));
    assert_eq!(validate(&fits.tree).len(), 0);
    assert_eq!(validate(&over.tree).len(), 1);
}

#[test]
fn variable_definition_view() {
    let parse = parse("set foo = bar");
    let root = Root::cast(&parse.tree).unwrap();
    let stmts = root.stmts();
    match &stmts[0] {
        Stmt::VariableDef(def) => {
            assert_eq!(def.name().unwrap().text, "foo");
            match def.value() {
                Some(Expr::VariableRef(var)) => assert_eq!(var.name().unwrap().text, "bar"),
                _ => panic!("expected a variable reference"),
            }
        },
        _ => panic!("expected a definition"),
    }
    assert!(parse.errors.is_empty());
}

#[test]
fn missing_value_has_no_expression() {
    let parse = parse("set a =\nset b = a");
    let root = Root::cast(&parse.tree).unwrap();
    let stmts = root.stmts();
    assert_eq!(stmts.len(), 2);
    match &stmts[0] {
        Stmt::VariableDef(def) => assert!(def.value().is_none()),
        _ => panic!("expected a definition"),
    }
    match &stmts[1] {
        Stmt::VariableDef(def) => assert!(matches!(def.value(), Some(Expr::VariableRef(_)))),
        _ => panic!("expected a definition"),
    }
}

#[test]
fn binary_expression_view() {
    let parse = parse("1+2*3");
    let root = Root::cast(&parse.tree).unwrap();
    let stmts = root.stmts();
    match &stmts[0] {
        Stmt::Expr(Expr::BinaryExpr(e)) => {
            assert_eq!(e.op(), Some(SyntaxKind::Plus));
            assert!(matches!(e.lhs(), Some(Expr::Literal(_))));
            match e.rhs() {
                Some(Expr::BinaryExpr(inner)) => assert_eq!(inner.op(), Some(SyntaxKind::Asterisk)),
                _ => panic!("expected a product"),
            }
        },
        _ => panic!("expected a sum"),
    }
}

#[test]
fn subtraction_is_left_associative() {
    let parse = parse("1-2-3");
    assert_eq!(
        parse.debug_tree(),
        r#"Root@0..5
  InfixExpr@0..5
    InfixExpr@0..3
      Literal@0..1
        Number@0..1 "1"
      Minus@1..2 "-"
      Literal@2..3
        Number@2..3 "2"
    Minus@3..4 "-"
    Literal@4..5
      Number@4..5 "3""#
    );
}

#[test]
fn negation_binds_harder_than_infix() {
    let parse = parse("-1+2");
    assert_eq!(
        parse.debug_tree(),
        r#"Root@0..4
  InfixExpr@0..4
    PrefixExpr@0..2
      Minus@0..1 "-"
      Literal@1..2
        Number@1..2 "1"
    Plus@2..3 "+"
    Literal@3..4
      Number@3..4 "2""#
    );
}

#[test]
fn parenthesized_expression() {
    let parse = parse("(1+2)*3");
    let root = Root::cast(&parse.tree).unwrap();
    match &root.stmts()[0] {
        Stmt::Expr(Expr::BinaryExpr(e)) => {
            assert_eq!(e.op(), Some(SyntaxKind::Asterisk));
            match e.lhs() {
                Some(Expr::ParenExpr(p)) => assert!(matches!(p.expr(), Some(Expr::BinaryExpr(_)))),
                _ => panic!("expected parentheses"),
            }
        },
        _ => panic!("expected a product"),
    }
    assert!(parse.errors.is_empty());
}

#[test]
fn empty_input_has_a_root() {
    let parse = parse("");
    assert_eq!(parse.debug_tree(), "Root@0..0");
    assert!(parse.errors.is_empty());
}

#[test]
fn comments_and_whitespace_only() {
    let parse = parse("# note\n  ");
    assert_eq!(
        parse.debug_tree(),
        "Root@0..9\n  Comment@0..6 \"# note\"\n  Whitespace@6..9 \"\\n  \""
    );
}

#[test]
fn tree_text_is_the_input() {
    for input in ["set a = 1;\na", "1 + (2 * # c\n 3", "@@ set x = ) 4 \"s\" é", "", "-(-1)"] {
        let parse = parse(input);
        assert_eq!(parse.tree.text(), input);
        assert_eq!(parse.tree.range.end as usize, input.len());
    }
}

#[test]
fn reparse_of_the_serialized_tree_is_the_same() {
    let input = "set x = (1 + 2) * -y\nx / 3";
    let first = parse(input);
    let second = parse(&first.tree.text());
    assert_eq!(first.debug_tree(), second.debug_tree());
}

#[test]
fn events_are_balanced() {
    let tokens = tokenize("set a = (1 + \n set b = 2");
    let events = parse_events(&tokens);
    let mut depth: i64 = 0;
    for e in &events {
        match e {
            Event::StartNode { .. } => depth += 1,
            Event::FinishNode => depth -= 1,
            Event::Placeholder => panic!("uncompleted node"),
            _ => {},
        }
        assert!(depth >= 0);
    }
    assert_eq!(depth, 0);
}

#[test]
fn token_kinds_name_themselves() {
    assert_eq!(TokenKind::Equals.name(), "'='");
    assert_eq!(SyntaxKind::from(TokenKind::SetKw), SyntaxKind::SetKw);
    assert!(TokenKind::Comment.is_trivia());
    assert!(!TokenKind::Number.is_trivia());
}

#[test]
fn raw_kinds_round_trip() {
    for raw in 0..25u16 {
        assert_eq!(MonkeLanguage::kind_to_raw(MonkeLanguage::kind_from_raw(raw)), raw);
    }
    assert_eq!(MonkeLanguage::kind_to_raw(SyntaxKind::Root), 18);
}

#[test]
fn try_parse_accepts_ordinary_input() {
    let parse = monke::parser::try_parse("set a = 1").unwrap();
    assert_eq!(parse.tree.text(), "set a = 1");
    assert!(monke::text::fits_offsets("set a = 1"));
}

fn check_ranges(node: &monke::tree::SyntaxNode) {
    let mut at = node.range.start;
    for child in &node.children {
        match child {
            monke::tree::SyntaxElement::Node(n) => {
                assert_eq!(n.range.start, at);
                check_ranges(n);
                at = n.range.end;
            },
            monke::tree::SyntaxElement::Token(t) => {
                assert_eq!(t.range.start, at);
                assert_eq!((t.range.end - t.range.start) as usize, t.text.len());
                at = t.range.end;
            },
        }
    }
    assert_eq!(at, node.range.end);
}

#[test]
fn children_ranges_are_contiguous_and_nested() {
    for input in ["set a = (1 + 2) * -b;\n# done\nc", ") ( set", "  1 / é"] {
        let parse = parse(input);
        assert_eq!(parse.tree.range, TextRange::new(0, input.len() as u32));
        check_ranges(&parse.tree);
    }
}

#[test]
fn failed_expectation_leaves_the_token_in_place() {
    let parse = parse("set 1 = 2");
    assert_eq!(
        parse.debug_tree(),
        r#"Root@0..9
  VariableDef@0..6
    SetKw@0..3 "set"
    Whitespace@3..4 " "
    Literal@4..6
      Number@4..5 "1"
      Whitespace@5..6 " "
  Error@6..8
    Equals@6..7 "="
    Whitespace@7..8 " "
  Literal@8..9
    Number@8..9 "2"
error at 4..5: expected identifier, but found number
error at 4..5: expected '=', but found number
error at 6..7: expected '+', '-', '*', '/', ';', 'set', number, identifier, '-' or '(', but found '='"#
    );
}

#[test]
fn missing_closing_parenthesis_is_reported_once() {
    let parse = parse("(1 2");
    assert_eq!(parse.errors.len(), 1);
    assert_eq!(
        parse.errors[0].message(),
        "error at 3..4: expected '+', '-', '*', '/' or ')', but found number"
    );
    assert_eq!(parse.tree.text(), "(1 2");
}
