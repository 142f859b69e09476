use monke::lexer::tokenize;
use monke::syntax::TokenKind;

fn check(input: &str, kind: TokenKind) {
    let tokens = tokenize(input);
    assert_eq!(tokens[0].kind, kind);
    assert_eq!(tokens[0].text, input);
}

#[test]
fn lib_lex_spaces() {
    check("   ", TokenKind::Whitespace);
}

#[test]
fn lib_lex_spaces_and_newlines() {
    check("  \n ", TokenKind::Whitespace);
}

#[test]
fn lib_lex_func_keyword() {
    check("func", TokenKind::FuncKw);
}

#[test]
fn lib_lex_set_keyword() {
    check("set", TokenKind::SetKw);
}

#[test]
fn lib_lex_single_char_identifier() {
    check("x", TokenKind::Identifier);
}

#[test]
fn lib_lex_alphabetic_identifier() {
    check("foo", TokenKind::Identifier);
}

#[test]
fn lib_lex_alphanumeric_identifier() {
    check("foo123", TokenKind::Identifier);
}

#[test]
fn lib_lex_aphabetic_mixed_case_identifier() {
    check("FOObarBaZ", TokenKind::Identifier);
}

#[test]
fn lib_lex_alphanumeric_mixed_case_identifier() {
    check("fooBARbAz123", TokenKind::Identifier);
}

#[test]
fn lib_lex_number() {
    check("123", TokenKind::Number);
}

#[test]
fn lib_lex_plus() {
    check("+", TokenKind::Plus);
}

#[test]
fn lib_lex_minus() {
    check("-", TokenKind::Minus);
}

#[test]
fn lib_lex_asterisk() {
    check("*", TokenKind::Asterisk);
}

#[test]
fn lib_lex_slash() {
    check("/", TokenKind::Slash);
}

#[test]
fn lib_lex_equals() {
    check("=", TokenKind::Equals);
}

#[test]
fn lib_lex_lbrace() {
    check("{", TokenKind::LBrace);
}

#[test]
fn lib_lex_lparen() {
    check("(", TokenKind::LParen);
}

#[test]
fn lib_lex_rparen() {
    check(")", TokenKind::RParen);
}

#[test]
fn lib_lex_rbrace() {
    check("}", TokenKind::RBrace);
}

#[test]
fn lib_lex_comment() {
    check("# foo", TokenKind::Comment);
}

#[test]
fn token_kind_lex_spaces() {
    check("   ", TokenKind::Whitespace);
}

#[test]
fn token_kind_lex_spaces_and_newlines() {
    check("  \n ", TokenKind::Whitespace);
}

#[test]
fn token_kind_lex_func_keyword() {
    check("func", TokenKind::FuncKw);
}

#[test]
fn token_kind_lex_set_keyword() {
    check("set", TokenKind::SetKw);
}

#[test]
fn token_kind_lex_single_char_identifier() {
    check("x", TokenKind::Identifier);
}

#[test]
fn token_kind_lex_alphabetic_identifier() {
    check("foo", TokenKind::Identifier);
}

#[test]
fn token_kind_lex_alphanumeric_identifier() {
    check("foo123", TokenKind::Identifier);
}

#[test]
fn token_kind_lex_aphabetic_mixed_case_identifier() {
    check("FOObarBaZ", TokenKind::Identifier);
}

#[test]
fn token_kind_lex_alphanumeric_mixed_case_identifier() {
    check("fooBARbAz123", TokenKind::Identifier);
}

#[test]
fn token_kind_lex_number() {
    check("123", TokenKind::Number);
}

#[test]
fn token_kind_lex_plus() {
    check("+", TokenKind::Plus);
}

#[test]
fn token_kind_lex_minus() {
    check("-", TokenKind::Minus);
}

#[test]
fn token_kind_lex_asterisk() {
    check("*", TokenKind::Asterisk);
}

#[test]
fn token_kind_lex_slash() {
    check("/", TokenKind::Slash);
}

#[test]
fn token_kind_lex_equals() {
    check("=", TokenKind::Equals);
}

#[test]
fn token_kind_lex_lbrace() {
    check("{", TokenKind::LBrace);
}

#[test]
fn token_kind_lex_lparen() {
    check("(", TokenKind::LParen);
}

#[test]
fn token_kind_lex_rparen() {
    check(")", TokenKind::RParen);
}

#[test]
fn token_kind_lex_rbrace() {
    check("}", TokenKind::RBrace);
}

#[test]
fn token_kind_lex_comment() {
    check("# foo", TokenKind::Comment);
}

#[test]
fn lexer_lex_spaces() {
    check("   ", TokenKind::Whitespace);
}

#[test]
fn lexer_lex_func_keyword() {
    check("func", TokenKind::FuncKw);
}

#[test]
fn lexer_lex_set_keyword() {
    check("set", TokenKind::SetKw);
}

#[test]
fn lexer_lex_single_char_identifier() {
    check("x", TokenKind::Identifier);
}

#[test]
fn lexer_lex_alphabetic_identifier() {
    check("foo", TokenKind::Identifier);
}

#[test]
fn lexer_lex_alphanumeric_identifier() {
    check("foo123", TokenKind::Identifier);
}

#[test]
fn lexer_lex_aphabetic_mixed_case_identifier() {
    check("FOObarBaZ", TokenKind::Identifier);
}

#[test]
fn lexer_lex_alphanumeric_mixed_case_identifier() {
    check("fooBARbAz123", TokenKind::Identifier);
}

#[test]
fn lexer_lex_number() {
    check("123", TokenKind::Number);
}

#[test]
fn lexer_lex_plus() {
    check("+", TokenKind::Plus);
}

#[test]
fn lexer_lex_minus() {
    check("-", TokenKind::Minus);
}

#[test]
fn lexer_lex_asterisk() {
    check("*", TokenKind::Asterisk);
}

#[test]
fn lexer_lex_slash() {
    check("/", TokenKind::Slash);
}

#[test]
fn lexer_lex_equals() {
    check("=", TokenKind::Equals);
}

#[test]
fn lexer_lex_lbrace() {
    check("{", TokenKind::LBrace);
}

#[test]
fn lexer_lex_lparen() {
    check("(", TokenKind::LParen);
}

#[test]
fn lexer_lex_rparen() {
    check(")", TokenKind::RParen);
}

#[test]
fn lexer_lex_rbrace() {
    check("}", TokenKind::RBrace);
}

#[test]
fn lexer_lex_comment() {
    check("# foo", TokenKind::Comment);
}
