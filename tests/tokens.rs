use monke::lexer::tokenize;
use monke::syntax::TokenKind;
use monke::text::TextRange;

fn kinds(input: &str) -> Vec<TokenKind> {
    tokenize(input).iter().map(|t| t.kind).collect()
}

#[test]
fn keyword_needs_a_word_boundary() {
    assert_eq!(kinds("setx"), vec![TokenKind::Identifier]);
    assert_eq!(kinds("set x"), vec![TokenKind::SetKw, TokenKind::Whitespace, TokenKind::Identifier]);
}

#[test]
fn string_runs_to_the_last_quote_on_the_line() {
    let tokens = tokenize("\"a\" \"b\"\n\"c");
    assert_eq!(tokens[0].kind, TokenKind::String);
    assert_eq!(tokens[0].text, "\"a\" \"b\"");
    assert_eq!(tokens[1].kind, TokenKind::Whitespace);
    assert_eq!(tokens[2].kind, TokenKind::Error);
    assert_eq!(tokens[2].text, "\"");
    assert_eq!(tokens[3].kind, TokenKind::Identifier);
}

#[test]
fn unknown_characters_form_one_error_token() {
    let tokens = tokenize("@$%1");
    assert_eq!(tokens[0].kind, TokenKind::Error);
    assert_eq!(tokens[0].text, "@$%");
    assert_eq!(tokens[1].kind, TokenKind::Number);
}

#[test]
fn comment_stops_before_the_newline() {
    assert_eq!(kinds("# c\n1"), vec![TokenKind::Comment, TokenKind::Whitespace, TokenKind::Number]);
}

#[test]
fn ranges_count_bytes() {
    let tokens = tokenize("é 1");
    assert_eq!(tokens[0].kind, TokenKind::Error);
    assert_eq!(tokens[0].range, TextRange::new(0, 2));
    assert_eq!(tokens[1].range, TextRange::new(2, 3));
    assert_eq!(tokens[2].range, TextRange::new(3, 4));
}

#[test]
fn semicolon_and_braces() {
    assert_eq!(
        kinds(";{}"),
        vec![TokenKind::SemiColon, TokenKind::LBrace, TokenKind::RBrace]
    );
}
