use lexer::tokenize;
use lexer::LexError;
use lexer::TokenKind;

#[test]
fn let_statement() {
    let toks = tokenize(String::from("let x = 5;")).unwrap();
    assert_eq!(toks.len(), 6);
    assert_eq!(toks[0].kind, TokenKind::Let);
    assert_eq!(toks[0].value, "let");
    assert_eq!(toks[1].kind, TokenKind::Identifier);
    assert_eq!(toks[1].value, "x");
    assert_eq!(toks[2].kind, TokenKind::Equals);
    assert_eq!(toks[2].value, "=");
    assert_eq!(toks[3].kind, TokenKind::Number(5));
    assert_eq!(toks[3].value, "5");
    assert_eq!(toks[4].kind, TokenKind::Semicolon);
    assert_eq!(toks[4].value, ";");
    assert_eq!(toks[5].kind, TokenKind::EOF);
    assert_eq!(toks[5].value, "EOF");
}

#[test]
fn identifier_with_digits() {
    let toks = tokenize(String::from("foo123")).unwrap();
    assert_eq!(toks.len(), 2);
    assert_eq!(toks[0].kind, TokenKind::Identifier);
    assert_eq!(toks[0].value, "foo123");
    assert_eq!(toks[1].kind, TokenKind::EOF);
}

#[test]
fn if_with_parens_and_braces() {
    let toks = tokenize(String::from("if (a) { b }")).unwrap();
    assert_eq!(toks.len(), 8);
    assert_eq!(toks[0].kind, TokenKind::If);
    assert_eq!(toks[1].kind, TokenKind::OpenParen);
    assert_eq!(toks[2].kind, TokenKind::Identifier);
    assert_eq!(toks[2].value, "a");
    assert_eq!(toks[3].kind, TokenKind::CloseParen);
    assert_eq!(toks[4].kind, TokenKind::OpenCurly);
    assert_eq!(toks[5].kind, TokenKind::Identifier);
    assert_eq!(toks[5].value, "b");
    assert_eq!(toks[6].kind, TokenKind::CloseCurly);
    assert_eq!(toks[7].kind, TokenKind::EOF);
}

#[test]
fn unrecognized_char_aborts() {
    let r = tokenize(String::from("a @ b"));
    assert_eq!(r, Err(LexError::UnrecognizedChar('@')));
}

#[test]
fn empty_input_gives_only_eof() {
    let toks = tokenize(String::new()).unwrap();
    assert_eq!(toks.len(), 1);
    assert_eq!(toks[0].kind, TokenKind::EOF);
    assert_eq!(toks[0].value, "EOF");
}

#[test]
fn whitespace_only_gives_only_eof() {
    let toks = tokenize(String::from(" \t\r\n  ")).unwrap();
    assert_eq!(toks.len(), 1);
    assert_eq!(toks[0].kind, TokenKind::EOF);
}

#[test]
fn unicode_whitespace_is_skipped() {
    let toks = tokenize(String::from("\u{a0}\u{2003}x\u{3000}")).unwrap();
    assert_eq!(toks.len(), 2);
    assert_eq!(toks[0].kind, TokenKind::Identifier);
    assert_eq!(toks[0].value, "x");
}

#[test]
fn leading_zero_is_not_a_number_start() {
    // `0` matches no dispatch class: it is not a number start, so the
    // scan aborts on it as on any unrecognized character.
    let r = tokenize(String::from("0"));
    assert_eq!(r, Err(LexError::UnrecognizedChar('0')));
}

#[test]
fn leading_zero_after_number_aborts() {
    let r = tokenize(String::from("5 01"));
    assert_eq!(r, Err(LexError::UnrecognizedChar('0')));
}

#[test]
fn zero_inside_a_run_is_consumed() {
    let toks = tokenize(String::from("105")).unwrap();
    assert_eq!(toks.len(), 2);
    assert_eq!(toks[0].kind, TokenKind::Number(105));
    assert_eq!(toks[0].value, "105");
}

#[test]
fn number_run_is_maximal() {
    let toks = tokenize(String::from("12 34")).unwrap();
    assert_eq!(toks.len(), 3);
    assert_eq!(toks[0].kind, TokenKind::Number(12));
    assert_eq!(toks[0].value, "12");
    assert_eq!(toks[1].kind, TokenKind::Number(34));
    assert_eq!(toks[1].value, "34");
}

#[test]
fn largest_number_fits() {
    let toks = tokenize(String::from("9223372036854775807")).unwrap();
    assert_eq!(toks[0].kind, TokenKind::Number(i64::MAX));
    assert_eq!(toks[0].value, "9223372036854775807");
}

#[test]
fn number_overflow_aborts() {
    let r = tokenize(String::from("9223372036854775808"));
    assert_eq!(r, Err(LexError::NumberOverflow));
}

#[test]
fn all_symbols() {
    let input = "()[]{}+-*/=:;|#!?.,~<>";
    let kinds = [
        TokenKind::OpenParen,
        TokenKind::CloseParen,
        TokenKind::OpenBrack,
        TokenKind::CloseBrack,
        TokenKind::OpenCurly,
        TokenKind::CloseCurly,
        TokenKind::Plus,
        TokenKind::Minus,
        TokenKind::Star,
        TokenKind::Slash,
        TokenKind::Equals,
        TokenKind::Colon,
        TokenKind::Semicolon,
        TokenKind::Pipe,
        TokenKind::Pound,
        TokenKind::Bang,
        TokenKind::Question,
        TokenKind::Dot,
        TokenKind::Comma,
        TokenKind::Tilda,
        TokenKind::LessThan,
        TokenKind::GreaterThan,
    ];
    let toks = tokenize(String::from(input)).unwrap();
    assert_eq!(toks.len(), kinds.len() + 1);
    for (i, ch) in input.chars().enumerate() {
        assert_eq!(toks[i].kind, kinds[i]);
        assert_eq!(toks[i].value, ch.to_string());
    }
    assert_eq!(toks[kinds.len()].kind, TokenKind::EOF);
}

#[test]
fn angle_brackets_stay_single() {
    let toks = tokenize(String::from("<=")).unwrap();
    assert_eq!(toks.len(), 3);
    assert_eq!(toks[0].kind, TokenKind::LessThan);
    assert_eq!(toks[1].kind, TokenKind::Equals);
}

#[test]
fn every_keyword_is_reserved() {
    let cases = [
        ("let", TokenKind::Let),
        ("func", TokenKind::Func),
        ("if", TokenKind::If),
        ("else", TokenKind::Else),
        ("elif", TokenKind::Elif),
        ("while", TokenKind::While),
        ("not", TokenKind::Not),
        ("public", TokenKind::Public),
        ("private", TokenKind::Private),
        ("static", TokenKind::Static),
    ];
    for (spelling, kind) in cases {
        let toks = tokenize(String::from(spelling)).unwrap();
        assert_eq!(toks.len(), 2);
        assert_eq!(toks[0].kind, kind);
        assert_eq!(toks[0].value, spelling);
        assert_eq!(toks[1].kind, TokenKind::EOF);
    }
}

#[test]
fn keyword_match_is_exact_full_spelling() {
    for spelling in ["Let", "lets", "iff", "es", "_if", "whil"] {
        let toks = tokenize(String::from(spelling)).unwrap();
        assert_eq!(toks.len(), 2);
        assert_eq!(toks[0].kind, TokenKind::Identifier);
        assert_eq!(toks[0].value, spelling);
    }
}

#[test]
fn underscore_starts_an_identifier() {
    let toks = tokenize(String::from("_a1_b")).unwrap();
    assert_eq!(toks.len(), 2);
    assert_eq!(toks[0].kind, TokenKind::Identifier);
    assert_eq!(toks[0].value, "_a1_b");
}

#[test]
fn eof_is_last_and_unique() {
    let toks = tokenize(String::from("let a = 1; while not b { a }")).unwrap();
    let eof_count = toks.iter().filter(|t| t.kind == TokenKind::EOF).count();
    assert_eq!(eof_count, 1);
    assert_eq!(toks.last().unwrap().kind, TokenKind::EOF);
}
