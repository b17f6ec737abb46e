use vstd::prelude::*;

use crate::token::TokenKind;

verus! {

/// The Unicode `White_Space` classification, as `char::is_whitespace`
/// gives it: the fixed set of code points with that property.
pub open spec fn is_space_char(c: char) -> bool {
    let u = c as u32;
    u == 0x09 || u == 0x0A || u == 0x0B || u == 0x0C || u == 0x0D || u == 0x20 || u == 0x85
        || u == 0xA0 || u == 0x1680 || (0x2000 <= u && u <= 0x200A) || u == 0x2028 || u == 0x2029
        || u == 0x202F || u == 0x205F || u == 0x3000
}

/// An ASCII decimal digit.
pub open spec fn is_digit_char(c: char) -> bool {
    0x30 <= (c as u32) && (c as u32) <= 0x39
}

/// An ASCII digit in the range 1 through 9. A leading `0` is deliberately
/// not a number start for this scanner.
pub open spec fn is_nonzero_digit_char(c: char) -> bool {
    0x31 <= (c as u32) && (c as u32) <= 0x39
}

/// An ASCII letter.
pub open spec fn is_letter_char(c: char) -> bool {
    let u = c as u32;
    (0x41 <= u && u <= 0x5A) || (0x61 <= u && u <= 0x7A)
}

/// A character that may begin an identifier run: an ASCII letter or an
/// underscore.
pub open spec fn is_ident_start_char(c: char) -> bool {
    is_letter_char(c) || c == '_'
}

/// A character that may continue an identifier run: an ASCII letter,
/// an ASCII digit, or an underscore.
pub open spec fn is_ident_cont_char(c: char) -> bool {
    is_letter_char(c) || is_digit_char(c) || c == '_'
}

/// A single or double quote, either of which opens a string-literal scan.
pub open spec fn is_quote_char(c: char) -> bool {
    c == '\'' || c == '"'
}

/// A character the string-literal scan consumes after the opening quote:
/// ASCII alphanumeric, underscore, or whitespace. The scan is bounded
/// only by a character outside this set or by end of input; it does not
/// look for a matching closing quote.
pub open spec fn is_string_body_char(c: char) -> bool {
    is_ident_cont_char(c) || is_space_char(c)
}

/// The fixed single-character punctuation and operator symbols, each
/// mapped to its token kind; `None` for every other character.
pub open spec fn symbol_kind(c: char) -> Option<TokenKind> {
    if c == '(' {
        Some(TokenKind::OpenParen)
    } else if c == ')' {
        Some(TokenKind::CloseParen)
    } else if c == '[' {
        Some(TokenKind::OpenBrack)
    } else if c == ']' {
        Some(TokenKind::CloseBrack)
    } else if c == '{' {
        Some(TokenKind::OpenCurly)
    } else if c == '}' {
        Some(TokenKind::CloseCurly)
    } else if c == '+' {
        Some(TokenKind::Plus)
    } else if c == '-' {
        Some(TokenKind::Minus)
    } else if c == '*' {
        Some(TokenKind::Star)
    } else if c == '/' {
        Some(TokenKind::Slash)
    } else if c == '=' {
        Some(TokenKind::Equals)
    } else if c == ':' {
        Some(TokenKind::Colon)
    } else if c == ';' {
        Some(TokenKind::Semicolon)
    } else if c == '|' {
        Some(TokenKind::Pipe)
    } else if c == '#' {
        Some(TokenKind::Pound)
    } else if c == '!' {
        Some(TokenKind::Bang)
    } else if c == '?' {
        Some(TokenKind::Question)
    } else if c == '.' {
        Some(TokenKind::Dot)
    } else if c == ',' {
        Some(TokenKind::Comma)
    } else if c == '~' {
        Some(TokenKind::Tilda)
    } else if c == '<' {
        Some(TokenKind::LessThan)
    } else if c == '>' {
        Some(TokenKind::GreaterThan)
    } else {
        None
    }
}

/// A character the scanner recognizes at dispatch: whitespace, a fixed
/// symbol, an ASCII digit (any digit, `0` included), an identifier start,
/// or a quote. Any character outside this set aborts the scan.
pub open spec fn is_recognized_char(c: char) -> bool {
    is_space_char(c) || symbol_kind(c) is Some || is_digit_char(c) || is_ident_start_char(c)
        || is_quote_char(c)
}

pub fn is_space(c: char) -> (r: bool)
    ensures
        r == is_space_char(c),
{
    let u = c as u32;
    u == 0x09 || u == 0x0A || u == 0x0B || u == 0x0C || u == 0x0D || u == 0x20 || u == 0x85
        || u == 0xA0 || u == 0x1680 || (0x2000 <= u && u <= 0x200A) || u == 0x2028 || u == 0x2029
        || u == 0x202F || u == 0x205F || u == 0x3000
}

pub fn is_digit(c: char) -> (r: bool)
    ensures
        r == is_digit_char(c),
{
    let u = c as u32;
    0x30 <= u && u <= 0x39
}

pub fn is_nonzero_digit(c: char) -> (r: bool)
    ensures
        r == is_nonzero_digit_char(c),
{
    let u = c as u32;
    0x31 <= u && u <= 0x39
}

pub fn is_ident_start(c: char) -> (r: bool)
    ensures
        r == is_ident_start_char(c),
{
    let u = c as u32;
    (0x41 <= u && u <= 0x5A) || (0x61 <= u && u <= 0x7A) || c == '_'
}

pub fn is_ident_cont(c: char) -> (r: bool)
    ensures
        r == is_ident_cont_char(c),
{
    let u = c as u32;
    (0x41 <= u && u <= 0x5A) || (0x61 <= u && u <= 0x7A) || (0x30 <= u && u <= 0x39) || c == '_'
}

pub fn is_quote(c: char) -> (r: bool)
    ensures
        r == is_quote_char(c),
{
    c == '\'' || c == '"'
}

pub fn is_string_body(c: char) -> (r: bool)
    ensures
        r == is_string_body_char(c),
{
    is_ident_cont(c) || is_space(c)
}

pub fn symbol_token_kind(c: char) -> (r: Option<TokenKind>)
    ensures
        r == symbol_kind(c),
{
    if c == '(' {
        Some(TokenKind::OpenParen)
    } else if c == ')' {
        Some(TokenKind::CloseParen)
    } else if c == '[' {
        Some(TokenKind::OpenBrack)
    } else if c == ']' {
        Some(TokenKind::CloseBrack)
    } else if c == '{' {
        Some(TokenKind::OpenCurly)
    } else if c == '}' {
        Some(TokenKind::CloseCurly)
    } else if c == '+' {
        Some(TokenKind::Plus)
    } else if c == '-' {
        Some(TokenKind::Minus)
    } else if c == '*' {
        Some(TokenKind::Star)
    } else if c == '/' {
        Some(TokenKind::Slash)
    } else if c == '=' {
        Some(TokenKind::Equals)
    } else if c == ':' {
        Some(TokenKind::Colon)
    } else if c == ';' {
        Some(TokenKind::Semicolon)
    } else if c == '|' {
        Some(TokenKind::Pipe)
    } else if c == '#' {
        Some(TokenKind::Pound)
    } else if c == '!' {
        Some(TokenKind::Bang)
    } else if c == '?' {
        Some(TokenKind::Question)
    } else if c == '.' {
        Some(TokenKind::Dot)
    } else if c == ',' {
        Some(TokenKind::Comma)
    } else if c == '~' {
        Some(TokenKind::Tilda)
    } else if c == '<' {
        Some(TokenKind::LessThan)
    } else if c == '>' {
        Some(TokenKind::GreaterThan)
    } else {
        None
    }
}

} // verus!
