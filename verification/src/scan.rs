use vstd::prelude::*;

use crate::chars::is_digit;
use crate::chars::is_digit_char;
use crate::chars::is_ident_cont;
use crate::chars::is_ident_cont_char;
use crate::chars::is_ident_start;
use crate::chars::is_ident_start_char;
use crate::chars::is_nonzero_digit;
use crate::chars::is_nonzero_digit_char;
use crate::chars::is_quote;
use crate::chars::is_quote_char;
use crate::chars::is_space;
use crate::chars::is_space_char;
use crate::chars::is_string_body;
use crate::chars::is_string_body_char;
use crate::chars::symbol_kind;
use crate::chars::symbol_token_kind;
use crate::keywords::spec_keyword;
use crate::keywords::KeywordTable;
use crate::token::LexError;
use crate::token::SpecToken;
use crate::token::Token;
use crate::token::TokenKind;

verus! {

/// The first position at or after `i` whose character is not an ASCII
/// digit: the end of the maximal digit run starting at `i`.
pub open spec fn digit_run_end(s: Seq<char>, i: int) -> int
    decreases s.len() - i,
{
    if i < s.len() && is_digit_char(s[i]) {
        digit_run_end(s, i + 1)
    } else {
        i
    }
}

/// The end of the maximal identifier run (letters, digits, underscore)
/// starting at `i`.
pub open spec fn ident_run_end(s: Seq<char>, i: int) -> int
    decreases s.len() - i,
{
    if i < s.len() && is_ident_cont_char(s[i]) {
        ident_run_end(s, i + 1)
    } else {
        i
    }
}

/// The end of the maximal string-body run (alphanumeric, underscore,
/// whitespace) starting at `i`.
pub open spec fn string_run_end(s: Seq<char>, i: int) -> int
    decreases s.len() - i,
{
    if i < s.len() && is_string_body_char(s[i]) {
        string_run_end(s, i + 1)
    } else {
        i
    }
}

pub proof fn lemma_digit_run_end(s: Seq<char>, i: int)
    requires
        0 <= i <= s.len(),
    ensures
        i <= digit_run_end(s, i) <= s.len(),
        forall|k: int| i <= k < digit_run_end(s, i) ==> is_digit_char(s[k]),
        digit_run_end(s, i) == s.len() || !is_digit_char(s[digit_run_end(s, i)]),
    decreases s.len() - i,
{
    if i < s.len() && is_digit_char(s[i]) {
        lemma_digit_run_end(s, i + 1);
    }
}

pub proof fn lemma_ident_run_end(s: Seq<char>, i: int)
    requires
        0 <= i <= s.len(),
    ensures
        i <= ident_run_end(s, i) <= s.len(),
        forall|k: int| i <= k < ident_run_end(s, i) ==> is_ident_cont_char(s[k]),
        ident_run_end(s, i) == s.len() || !is_ident_cont_char(s[ident_run_end(s, i)]),
    decreases s.len() - i,
{
    if i < s.len() && is_ident_cont_char(s[i]) {
        lemma_ident_run_end(s, i + 1);
    }
}

pub proof fn lemma_string_run_end(s: Seq<char>, i: int)
    requires
        0 <= i <= s.len(),
    ensures
        i <= string_run_end(s, i) <= s.len(),
        forall|k: int| i <= k < string_run_end(s, i) ==> is_string_body_char(s[k]),
        string_run_end(s, i) == s.len() || !is_string_body_char(s[string_run_end(s, i)]),
    decreases s.len() - i,
{
    if i < s.len() && is_string_body_char(s[i]) {
        lemma_string_run_end(s, i + 1);
    }
}

/// A position that bounds a digit run on the right and is itself outside
/// it is the run's end.
pub proof fn lemma_digit_run_end_unique(s: Seq<char>, i: int, j: int)
    requires
        0 <= i <= j <= s.len(),
        forall|k: int| i <= k < j ==> is_digit_char(s[k]),
        j == s.len() || !is_digit_char(s[j]),
    ensures
        digit_run_end(s, i) == j,
    decreases j - i,
{
    if i < j {
        lemma_digit_run_end_unique(s, i + 1, j);
    }
}

pub proof fn lemma_ident_run_end_unique(s: Seq<char>, i: int, j: int)
    requires
        0 <= i <= j <= s.len(),
        forall|k: int| i <= k < j ==> is_ident_cont_char(s[k]),
        j == s.len() || !is_ident_cont_char(s[j]),
    ensures
        ident_run_end(s, i) == j,
    decreases j - i,
{
    if i < j {
        lemma_ident_run_end_unique(s, i + 1, j);
    }
}

pub proof fn lemma_string_run_end_unique(s: Seq<char>, i: int, j: int)
    requires
        0 <= i <= j <= s.len(),
        forall|k: int| i <= k < j ==> is_string_body_char(s[k]),
        j == s.len() || !is_string_body_char(s[j]),
    ensures
        string_run_end(s, i) == j,
    decreases j - i,
{
    if i < j {
        lemma_string_run_end_unique(s, i + 1, j);
    }
}

/// The numeric value of a digit character.
pub open spec fn digit_val(c: char) -> int {
    c as u32 - 0x30
}

/// The base-10 value of a digit sequence.
pub open spec fn digits_val(s: Seq<char>) -> int
    decreases s.len(),
{
    if s.len() == 0 {
        0
    } else {
        10 * digits_val(s.drop_last()) + digit_val(s.last())
    }
}

/// The sentinel token appended once scanning completes.
pub open spec fn eof_spec_token() -> SpecToken {
    SpecToken { spelling: "EOF"@, kind: TokenKind::EOF }
}

/// Prepends one token to a scan outcome; a failure stays a failure.
pub open spec fn cons_token(t: SpecToken, rest: Result<Seq<SpecToken>, LexError>) -> Result<
    Seq<SpecToken>,
    LexError,
> {
    match rest {
        Ok(ts) => Ok(seq![t] + ts),
        Err(e) => Err(e),
    }
}

/// The tokens the scanner emits from position `i` to the end of `s`,
/// or the failure that aborts the scan. This is the model of the whole
/// scanning algorithm: whitespace is skipped, a fixed symbol is one
/// single-character token, a digit 1 through 9 opens a maximal digit run
/// decoded as a signed 64-bit integer, a letter or underscore opens a
/// maximal identifier run looked up in the reserved-word table, a quote
/// opens a string-body run whose capture keeps the opening quote and
/// gains a trailing double quote (a capture of length one is dropped),
/// and any other character aborts. The end of input yields exactly the
/// sentinel token.
pub open spec fn spec_tokens(s: Seq<char>, i: int) -> Result<Seq<SpecToken>, LexError>
    decreases s.len() - i,
        when 0 <= i <= s.len()
        via spec_tokens_dec
{
    if i == s.len() {
        Ok(seq![eof_spec_token()])
    } else {
        let c = s[i];
        if is_space_char(c) {
            spec_tokens(s, i + 1)
        } else if symbol_kind(c) is Some {
            cons_token(
                SpecToken { spelling: seq![c], kind: symbol_kind(c)->Some_0 },
                spec_tokens(s, i + 1),
            )
        } else if is_nonzero_digit_char(c) {
            let j = digit_run_end(s, i + 1);
            let run = s.subrange(i, j);
            if digits_val(run) > i64::MAX {
                Err(LexError::NumberOverflow)
            } else {
                cons_token(
                    SpecToken { spelling: run, kind: TokenKind::Number(digits_val(run) as i64) },
                    spec_tokens(s, j),
                )
            }
        } else if is_ident_start_char(c) {
            let j = ident_run_end(s, i + 1);
            let run = s.subrange(i, j);
            let kind = match spec_keyword(run) {
                Some(k) => k,
                None => TokenKind::Identifier,
            };
            cons_token(SpecToken { spelling: run, kind }, spec_tokens(s, j))
        } else if is_quote_char(c) {
            let j = string_run_end(s, i + 1);
            let captured = s.subrange(i, j);
            if captured.len() == 1 {
                spec_tokens(s, j)
            } else {
                cons_token(
                    SpecToken { spelling: captured + seq!['"'], kind: TokenKind::StringLiteral },
                    spec_tokens(s, j),
                )
            }
        } else {
            Err(LexError::UnrecognizedChar(c))
        }
    }
}

#[via_fn]
proof fn spec_tokens_dec(s: Seq<char>, i: int) {
    if 0 <= i < s.len() {
        lemma_digit_run_end(s, i + 1);
        lemma_ident_run_end(s, i + 1);
        lemma_string_run_end(s, i + 1);
    }
}

/// The models of a sequence of emitted tokens.
pub open spec fn views_of(ts: Seq<Token>) -> Seq<SpecToken> {
    ts.map_values(|t: Token| t@)
}

/// Prepends already-emitted tokens to the outcome of the rest of the
/// scan; a failure stays a failure.
pub open spec fn prepend_tokens(pre: Seq<SpecToken>, rest: Result<Seq<SpecToken>, LexError>) -> Result<
    Seq<SpecToken>,
    LexError,
> {
    match rest {
        Ok(ts) => Ok(pre + ts),
        Err(e) => Err(e),
    }
}

proof fn lemma_prepend_push(pre: Seq<SpecToken>, t: SpecToken, rest: Result<Seq<SpecToken>, LexError>)
    ensures
        prepend_tokens(pre, cons_token(t, rest)) == prepend_tokens(pre.push(t), rest),
{
    match rest {
        Ok(ts) => {
            assert(pre + (seq![t] + ts) =~= pre.push(t) + ts);
        },
        Err(_) => {},
    }
}

proof fn lemma_views_of_push(ts: Seq<Token>, t: Token)
    ensures
        views_of(ts.push(t)) == views_of(ts).push(t@),
{
    assert(views_of(ts.push(t)) =~= views_of(ts).push(t@));
}

/// The value of a digit sequence is never negative.
pub proof fn lemma_digits_val_nonneg(s: Seq<char>)
    requires
        forall|k: int| 0 <= k < s.len() ==> is_digit_char(s[k]),
    ensures
        digits_val(s) >= 0,
    decreases s.len(),
{
    if s.len() > 0 {
        lemma_digits_val_nonneg(s.drop_last());
    }
}

/// Extending a digit sequence on the right never lowers its value.
pub proof fn lemma_digits_val_prefix(s: Seq<char>, m: int)
    requires
        0 <= m <= s.len(),
        forall|k: int| 0 <= k < s.len() ==> is_digit_char(s[k]),
    ensures
        digits_val(s.subrange(0, m)) <= digits_val(s),
    decreases s.len() - m,
{
    if m < s.len() {
        assert(s.subrange(0, m + 1).drop_last() =~= s.subrange(0, m));
        lemma_digits_val_nonneg(s.subrange(0, m));
        lemma_digits_val_prefix(s, m + 1);
    } else {
        assert(s.subrange(0, m) =~= s);
    }
}

/// Advances from `start` to the end of the maximal digit run.
fn scan_digits(s: &str, start: usize, n: usize) -> (j: usize)
    requires
        n == s@.len(),
        start <= n,
    ensures
        start <= j <= n,
        j as int == digit_run_end(s@, start as int),
{
    let mut j = start;
    while j < n && is_digit(s.get_char(j))
        invariant
            n == s@.len(),
            start <= j <= n,
            forall|k: int| start <= k < j ==> is_digit_char(s@[k]),
        decreases n - j,
    {
        j += 1;
    }
    proof {
        lemma_digit_run_end_unique(s@, start as int, j as int);
    }
    j
}

/// Advances from `start` to the end of the maximal identifier run.
fn scan_idents(s: &str, start: usize, n: usize) -> (j: usize)
    requires
        n == s@.len(),
        start <= n,
    ensures
        start <= j <= n,
        j as int == ident_run_end(s@, start as int),
{
    let mut j = start;
    while j < n && is_ident_cont(s.get_char(j))
        invariant
            n == s@.len(),
            start <= j <= n,
            forall|k: int| start <= k < j ==> is_ident_cont_char(s@[k]),
        decreases n - j,
    {
        j += 1;
    }
    proof {
        lemma_ident_run_end_unique(s@, start as int, j as int);
    }
    j
}

/// Advances from `start` to the end of the maximal string-body run.
fn scan_string_body(s: &str, start: usize, n: usize) -> (j: usize)
    requires
        n == s@.len(),
        start <= n,
    ensures
        start <= j <= n,
        j as int == string_run_end(s@, start as int),
{
    let mut j = start;
    while j < n && is_string_body(s.get_char(j))
        invariant
            n == s@.len(),
            start <= j <= n,
            forall|k: int| start <= k < j ==> is_string_body_char(s@[k]),
        decreases n - j,
    {
        j += 1;
    }
    proof {
        lemma_string_run_end_unique(s@, start as int, j as int);
    }
    j
}

/// Decodes the digit run `s[lo..hi]` as a base-10 signed 64-bit integer;
/// `None` exactly when the run's value exceeds that range.
fn parse_digit_run(s: &str, lo: usize, hi: usize) -> (r: Option<i64>)
    requires
        hi <= s@.len(),
        lo <= hi,
        forall|k: int| lo <= k < hi ==> is_digit_char(s@[k]),
    ensures
        ({
            let run = s@.subrange(lo as int, hi as int);
            match r {
                Some(v) => digits_val(run) <= i64::MAX && v == digits_val(run),
                None => digits_val(run) > i64::MAX,
            }
        }),
{
    let ghost run = s@.subrange(lo as int, hi as int);
    let mut val: i64 = 0;
    let mut k: usize = lo;
    while k < hi
        invariant
            hi <= s@.len(),
            lo <= k <= hi,
            forall|k2: int| lo <= k2 < hi ==> is_digit_char(s@[k2]),
            run == s@.subrange(lo as int, hi as int),
            0 <= val,
            val as int == digits_val(run.subrange(0, k - lo)),
        decreases hi - k,
    {
        let c = s.get_char(k);
        let u = c as u32;
        assert(is_digit_char(c));
        let d: i64 = (u - 0x30) as i64;
        let ghost m = k - lo;
        proof {
            assert(run.subrange(0, m + 1).drop_last() =~= run.subrange(0, m));
            assert(run.subrange(0, m + 1).last() == c);
            assert(digits_val(run.subrange(0, m + 1)) == 10 * (val as int) + (d as int));
            assert(forall|k2: int| 0 <= k2 < run.len() ==> is_digit_char(run[k2]));
        }
        if val > (i64::MAX - d) / 10 {
            proof {
                assert(10 * (val as int) + (d as int) > i64::MAX) by (nonlinear_arith)
                    requires
                        0 <= val,
                        0 <= d <= 9,
                        val > (i64::MAX - d) / 10,
                ;
                lemma_digits_val_prefix(run, m + 1);
            }
            return None;
        }
        proof {
            assert(10 * (val as int) + (d as int) <= i64::MAX) by (nonlinear_arith)
                requires
                    0 <= val,
                    0 <= d <= 9,
                    val <= (i64::MAX - d) / 10,
            ;
        }
        val = val * 10 + d;
        k += 1;
    }
    proof {
        assert(run.subrange(0, k - lo) =~= run);
    }
    Some(val)
}

/// Transforms the input into its token sequence in one left-to-right
/// pass: `Ok` of the full sequence, whose last element is the sole
/// end-of-input token, exactly when the model `spec_tokens` succeeds on
/// the whole input; otherwise `Err` of the same failure the model gives,
/// with no partial sequence.
pub fn tokenize(input: String) -> (r: Result<Vec<Token>, LexError>)
    ensures
        match r {
            Ok(toks) => spec_tokens(input@, 0) == Ok::<Seq<SpecToken>, LexError>(views_of(toks@)),
            Err(e) => spec_tokens(input@, 0) == Err::<Seq<SpecToken>, LexError>(e),
        },
{
    let s: &str = input.as_str();
    let n: usize = s.unicode_len();
    let keywords = KeywordTable::new();
    let mut tokens: Vec<Token> = Vec::new();
    let mut idx: usize = 0;
    while idx < n
        invariant
            s@ == input@,
            n == s@.len(),
            idx <= n,
            keywords.wf(),
            spec_tokens(s@, 0) == prepend_tokens(views_of(tokens@), spec_tokens(s@, idx as int)),
        decreases n - idx,
    {
        let ghost pre = views_of(tokens@);
        let c = s.get_char(idx);
        if is_space(c) {
            assert(spec_tokens(s@, idx as int) == spec_tokens(s@, idx + 1));
            idx += 1;
        } else if let Some(kind) = symbol_token_kind(c) {
            let sp = s.substring_char(idx, idx + 1).to_owned();
            proof {
                assert(s@.subrange(idx as int, idx + 1) =~= seq![c]);
            }
            let tok = Token::new(&sp, kind);
            proof {
                assert(spec_tokens(s@, idx as int) == cons_token(tok@, spec_tokens(s@, idx + 1)));
                lemma_prepend_push(pre, tok@, spec_tokens(s@, idx + 1));
                lemma_views_of_push(tokens@, tok);
            }
            tokens.push(tok);
            idx += 1;
        } else if is_nonzero_digit(c) {
            let j = scan_digits(s, idx + 1, n);
            proof {
                lemma_digit_run_end(s@, idx + 1);
            }
            match parse_digit_run(s, idx, j) {
                Some(v) => {
                    let sp = s.substring_char(idx, j).to_owned();
                    let tok = Token::new(&sp, TokenKind::Number(v));
                    proof {
                        lemma_digits_val_nonneg(s@.subrange(idx as int, j as int));
                        assert(spec_tokens(s@, idx as int) == cons_token(
                            tok@,
                            spec_tokens(s@, j as int),
                        ));
                        lemma_prepend_push(pre, tok@, spec_tokens(s@, j as int));
                        lemma_views_of_push(tokens@, tok);
                    }
                    tokens.push(tok);
                    idx = j;
                },
                None => {
                    assert(spec_tokens(s@, idx as int) == Err::<Seq<SpecToken>, LexError>(
                        LexError::NumberOverflow,
                    ));
                    return Err(LexError::NumberOverflow);
                },
            }
        } else if is_ident_start(c) {
            let j = scan_idents(s, idx + 1, n);
            let sp = s.substring_char(idx, j).to_owned();
            let kind = match keywords.lookup(&sp) {
                Some(k) => k,
                None => TokenKind::Identifier,
            };
            let tok = Token::new(&sp, kind);
            proof {
                assert(spec_tokens(s@, idx as int) == cons_token(tok@, spec_tokens(s@, j as int)));
                lemma_prepend_push(pre, tok@, spec_tokens(s@, j as int));
                lemma_views_of_push(tokens@, tok);
            }
            tokens.push(tok);
            idx = j;
        } else if is_quote(c) {
            let j = scan_string_body(s, idx + 1, n);
            if j - idx == 1 {
                assert(spec_tokens(s@, idx as int) == spec_tokens(s@, j as int));
                idx = j;
            } else {
                let mut sp = s.substring_char(idx, j).to_owned();
                sp.append("\"");
                proof {
                    reveal_strlit("\"");
                    assert(sp@ == s@.subrange(idx as int, j as int) + seq!['"']);
                }
                let tok = Token::new(&sp, TokenKind::StringLiteral);
                proof {
                    assert(spec_tokens(s@, idx as int) == cons_token(
                        tok@,
                        spec_tokens(s@, j as int),
                    ));
                    lemma_prepend_push(pre, tok@, spec_tokens(s@, j as int));
                    lemma_views_of_push(tokens@, tok);
                }
                tokens.push(tok);
                idx = j;
            }
        } else {
            assert(spec_tokens(s@, idx as int) == Err::<Seq<SpecToken>, LexError>(
                LexError::UnrecognizedChar(c),
            ));
            return Err(LexError::UnrecognizedChar(c));
        }
    }
    let eof_spelling = String::from_str("EOF");
    let tok = Token::new(&eof_spelling, TokenKind::EOF);
    proof {
        assert(tok@ == eof_spec_token());
        assert(spec_tokens(s@, idx as int) == Ok::<Seq<SpecToken>, LexError>(
            seq![eof_spec_token()],
        ));
        lemma_prepend_push(views_of(tokens@), tok@, Ok(Seq::<SpecToken>::empty()));
        assert(seq![eof_spec_token()] =~= seq![eof_spec_token()] + Seq::<SpecToken>::empty());
        lemma_views_of_push(tokens@, tok);
        assert(views_of(tokens@.push(tok)) + Seq::<SpecToken>::empty() =~= views_of(
            tokens@.push(tok),
        ));
    }
    tokens.push(tok);
    Ok(tokens)
}

} // verus!
