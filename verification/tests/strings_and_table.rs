use lexer::keywords::KeywordTable;
use lexer::tokenize;
use lexer::Token;
use lexer::TokenKind;

#[test]
fn double_quoted_literal() {
    // The capture keeps the opening quote and gains a trailing double
    // quote; the closing quote of the source then opens a new scan whose
    // single-character capture is dropped.
    let toks = tokenize(String::from("\"abc\"")).unwrap();
    assert_eq!(toks.len(), 2);
    assert_eq!(toks[0].kind, TokenKind::StringLiteral);
    assert_eq!(toks[0].value, "\"abc\"");
    assert_eq!(toks[1].kind, TokenKind::EOF);
}

#[test]
fn single_quoted_literal_gets_double_quote_appended() {
    let toks = tokenize(String::from("'hi")).unwrap();
    assert_eq!(toks.len(), 2);
    assert_eq!(toks[0].kind, TokenKind::StringLiteral);
    assert_eq!(toks[0].value, "'hi\"");
}

#[test]
fn literal_body_may_hold_whitespace() {
    let toks = tokenize(String::from("\"a b\"")).unwrap();
    assert_eq!(toks.len(), 2);
    assert_eq!(toks[0].kind, TokenKind::StringLiteral);
    assert_eq!(toks[0].value, "\"a b\"");
}

#[test]
fn lone_quote_emits_no_token() {
    let toks = tokenize(String::from("'")).unwrap();
    assert_eq!(toks.len(), 1);
    assert_eq!(toks[0].kind, TokenKind::EOF);
}

#[test]
fn adjacent_quotes_emit_no_token() {
    let toks = tokenize(String::from("''")).unwrap();
    assert_eq!(toks.len(), 1);
    assert_eq!(toks[0].kind, TokenKind::EOF);
}

#[test]
fn two_literals_in_a_row() {
    let toks = tokenize(String::from("'ab'cd")).unwrap();
    assert_eq!(toks.len(), 3);
    assert_eq!(toks[0].kind, TokenKind::StringLiteral);
    assert_eq!(toks[0].value, "'ab\"");
    assert_eq!(toks[1].kind, TokenKind::StringLiteral);
    assert_eq!(toks[1].value, "'cd\"");
}

#[test]
fn table_maps_every_reserved_word() {
    let table = KeywordTable::new();
    assert_eq!(table.lookup(&String::from("let")), Some(TokenKind::Let));
    assert_eq!(table.lookup(&String::from("func")), Some(TokenKind::Func));
    assert_eq!(table.lookup(&String::from("if")), Some(TokenKind::If));
    assert_eq!(table.lookup(&String::from("else")), Some(TokenKind::Else));
    assert_eq!(table.lookup(&String::from("elif")), Some(TokenKind::Elif));
    assert_eq!(table.lookup(&String::from("while")), Some(TokenKind::While));
    assert_eq!(table.lookup(&String::from("not")), Some(TokenKind::Not));
    assert_eq!(table.lookup(&String::from("public")), Some(TokenKind::Public));
    assert_eq!(table.lookup(&String::from("private")), Some(TokenKind::Private));
    assert_eq!(table.lookup(&String::from("static")), Some(TokenKind::Static));
}

#[test]
fn table_lookup_is_absent_for_other_spellings() {
    let table = KeywordTable::new();
    assert_eq!(table.lookup(&String::from("banana")), None);
    assert_eq!(table.lookup(&String::from("LET")), None);
    assert_eq!(table.lookup(&String::from("")), None);
    assert_eq!(table.lookup(&String::from("le")), None);
}

#[test]
fn token_new_copies_spelling_and_kind() {
    let spelling = String::from("while");
    let tok = Token::new(&spelling, TokenKind::While);
    assert_eq!(tok.value, "while");
    assert_eq!(tok.kind, TokenKind::While);
    assert_eq!(spelling, "while");
}
