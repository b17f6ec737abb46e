use vstd::prelude::*;

use crate::chars::is_digit_char;
use crate::chars::is_ident_cont_char;
use crate::chars::is_ident_start_char;
use crate::chars::is_nonzero_digit_char;
use crate::chars::is_quote_char;
use crate::chars::is_recognized_char;
use crate::chars::is_space_char;
use crate::chars::is_string_body_char;
use crate::chars::symbol_kind;
use crate::keywords::lemma_keyword_kind_reserved;
use crate::keywords::spec_keyword;
use crate::scan::cons_token;
use crate::scan::digit_run_end;
use crate::scan::digits_val;
use crate::scan::eof_spec_token;
use crate::scan::ident_run_end;
use crate::scan::lemma_digit_run_end;
use crate::scan::lemma_ident_run_end;
use crate::scan::lemma_string_run_end;
use crate::scan::spec_tokens;
use crate::scan::string_run_end;
use crate::token::LexError;
use crate::token::SpecToken;
use crate::token::TokenKind;

verus! {

/// Law: from any position followed only by whitespace, the scan yields
/// exactly one token, the end-of-input sentinel.
pub proof fn lemma_whitespace_only_from(s: Seq<char>, i: int)
    requires
        0 <= i <= s.len(),
        forall|k: int| i <= k < s.len() ==> is_space_char(s[k]),
    ensures
        spec_tokens(s, i) == Ok::<Seq<SpecToken>, LexError>(seq![eof_spec_token()]),
    decreases s.len() - i,
{
    if i < s.len() {
        lemma_whitespace_only_from(s, i + 1);
    }
}

/// Law: an input of only whitespace tokenizes to a sequence of exactly
/// one token, the end-of-input sentinel.
pub proof fn lemma_whitespace_only(s: Seq<char>)
    requires
        forall|k: int| 0 <= k < s.len() ==> is_space_char(s[k]),
    ensures
        spec_tokens(s, 0) == Ok::<Seq<SpecToken>, LexError>(seq![eof_spec_token()]),
{
    lemma_whitespace_only_from(s, 0);
}

/// At a letter or underscore the scanner consumes the maximal identifier
/// run and emits one token spelled exactly that run, classified by the
/// reserved-word table.
pub proof fn lemma_ident_dispatch(s: Seq<char>, i: int)
    requires
        0 <= i < s.len(),
        is_ident_start_char(s[i]),
    ensures
        ({
            let j = ident_run_end(s, i + 1);
            let run = s.subrange(i, j);
            let kind = match spec_keyword(run) {
                Some(k) => k,
                None => TokenKind::Identifier,
            };
            &&& i < j <= s.len()
            &&& (forall|k: int| i <= k < j ==> is_ident_cont_char(s[k]))
            &&& (j == s.len() || !is_ident_cont_char(s[j]))
            &&& spec_tokens(s, i) == cons_token(
                SpecToken { spelling: run, kind },
                spec_tokens(s, j),
            )
        }),
{
    lemma_ident_run_end(s, i + 1);
}

/// Law: a maximal letter/underscore-led run that spells no reserved word
/// is emitted as exactly one identifier token whose spelling equals the
/// run.
pub proof fn lemma_identifier_run(s: Seq<char>, i: int)
    requires
        0 <= i < s.len(),
        is_ident_start_char(s[i]),
        spec_keyword(s.subrange(i, ident_run_end(s, i + 1))) is None,
    ensures
        ({
            let j = ident_run_end(s, i + 1);
            let run = s.subrange(i, j);
            spec_tokens(s, i) == cons_token(
                SpecToken { spelling: run, kind: TokenKind::Identifier },
                spec_tokens(s, j),
            )
        }),
{
    lemma_ident_dispatch(s, i);
}

/// Law: a maximal identifier run that exactly spells a reserved word is
/// emitted as one token of the corresponding reserved kind, never as an
/// identifier token.
pub proof fn lemma_keyword_run(s: Seq<char>, i: int)
    requires
        0 <= i < s.len(),
        is_ident_start_char(s[i]),
        spec_keyword(s.subrange(i, ident_run_end(s, i + 1))) is Some,
    ensures
        ({
            let j = ident_run_end(s, i + 1);
            let run = s.subrange(i, j);
            let kind = spec_keyword(run)->Some_0;
            &&& kind != TokenKind::Identifier
            &&& spec_tokens(s, i) == cons_token(
                SpecToken { spelling: run, kind },
                spec_tokens(s, j),
            )
        }),
{
    lemma_ident_dispatch(s, i);
    let run = s.subrange(i, ident_run_end(s, i + 1));
    lemma_keyword_kind_reserved(run, spec_keyword(run)->Some_0);
}

/// Law: at a digit 1 through 9 the scanner consumes the maximal digit
/// run; within the signed 64-bit range it emits one integer-number token
/// whose payload is the run's base-10 value and whose spelling is the
/// run itself, and beyond that range the scan aborts with the overflow
/// failure.
pub proof fn lemma_number_run(s: Seq<char>, i: int)
    requires
        0 <= i < s.len(),
        is_nonzero_digit_char(s[i]),
    ensures
        ({
            let j = digit_run_end(s, i + 1);
            let run = s.subrange(i, j);
            &&& i < j <= s.len()
            &&& (forall|k: int| i <= k < j ==> is_digit_char(s[k]))
            &&& (j == s.len() || !is_digit_char(s[j]))
            &&& (digits_val(run) <= i64::MAX ==> spec_tokens(s, i) == cons_token(
                SpecToken { spelling: run, kind: TokenKind::Number(digits_val(run) as i64) },
                spec_tokens(s, j),
            ))
            &&& (digits_val(run) > i64::MAX ==> spec_tokens(s, i) == Err::<
                Seq<SpecToken>,
                LexError,
            >(LexError::NumberOverflow))
        }),
{
    lemma_digit_run_end(s, i + 1);
}

/// Law: a leading `0` digit never starts a number; the scanner treats it
/// as an unrecognized character, so the scan aborts on it.
pub proof fn lemma_leading_zero_aborts(s: Seq<char>, i: int)
    requires
        0 <= i < s.len(),
        s[i] == '0',
    ensures
        spec_tokens(s, i) == Err::<Seq<SpecToken>, LexError>(LexError::UnrecognizedChar('0')),
{
}

/// Law: every successfully returned token sequence ends with the
/// end-of-input token, and no earlier element has that kind.
pub proof fn lemma_eof_sentinel(s: Seq<char>, i: int)
    requires
        0 <= i <= s.len(),
        spec_tokens(s, i) is Ok,
    ensures
        ({
            let toks = spec_tokens(s, i)->Ok_0;
            &&& toks.len() >= 1
            &&& toks[toks.len() - 1] == eof_spec_token()
            &&& (forall|k: int| 0 <= k < toks.len() - 1 ==> toks[k].kind != TokenKind::EOF)
        }),
    decreases s.len() - i,
{
    if i == s.len() {
    } else {
        let c = s[i];
        if is_space_char(c) {
            lemma_eof_sentinel(s, i + 1);
        } else if symbol_kind(c) is Some {
            lemma_eof_sentinel(s, i + 1);
        } else if is_nonzero_digit_char(c) {
            lemma_digit_run_end(s, i + 1);
            let j = digit_run_end(s, i + 1);
            lemma_eof_sentinel(s, j);
        } else if is_ident_start_char(c) {
            lemma_ident_run_end(s, i + 1);
            let j = ident_run_end(s, i + 1);
            let run = s.subrange(i, j);
            if spec_keyword(run) is Some {
                lemma_keyword_kind_reserved(run, spec_keyword(run)->Some_0);
            }
            lemma_eof_sentinel(s, j);
        } else if is_quote_char(c) {
            lemma_string_run_end(s, i + 1);
            let j = string_run_end(s, i + 1);
            lemma_eof_sentinel(s, j);
        } else {
        }
    }
}

/// Characters a digit run consumes are recognized at dispatch.
proof fn lemma_run_chars_recognized(s: Seq<char>, lo: int, hi: int, b: int)
    requires
        0 <= lo <= hi <= s.len(),
        lo <= b,
        !is_recognized_char(s[b]),
        forall|k: int| lo <= k < hi ==> is_recognized_char(s[k]),
    ensures
        hi <= b,
{
    if b < hi {
        assert(is_recognized_char(s[b]));
    }
}

proof fn lemma_unrecognized_aborts_from(s: Seq<char>, i: int, b: int)
    requires
        0 <= i <= b < s.len(),
        !is_recognized_char(s[b]),
    ensures
        spec_tokens(s, i) is Err,
    decreases s.len() - i,
{
    let c = s[i];
    if i == b {
    } else if is_space_char(c) {
        lemma_unrecognized_aborts_from(s, i + 1, b);
    } else if symbol_kind(c) is Some {
        lemma_unrecognized_aborts_from(s, i + 1, b);
    } else if is_nonzero_digit_char(c) {
        lemma_digit_run_end(s, i + 1);
        let j = digit_run_end(s, i + 1);
        let run = s.subrange(i, j);
        if digits_val(run) <= i64::MAX {
            assert(forall|k: int| i + 1 <= k < j ==> is_recognized_char(s[k]));
            lemma_run_chars_recognized(s, i + 1, j, b);
            lemma_unrecognized_aborts_from(s, j, b);
        }
    } else if is_ident_start_char(c) {
        lemma_ident_run_end(s, i + 1);
        let j = ident_run_end(s, i + 1);
        assert(forall|k: int| i + 1 <= k < j ==> is_recognized_char(s[k]));
        lemma_run_chars_recognized(s, i + 1, j, b);
        lemma_unrecognized_aborts_from(s, j, b);
    } else if is_quote_char(c) {
        lemma_string_run_end(s, i + 1);
        let j = string_run_end(s, i + 1);
        assert(forall|k: int| i + 1 <= k < j ==> is_recognized_char(s[k]));
        lemma_run_chars_recognized(s, i + 1, j, b);
        lemma_unrecognized_aborts_from(s, j, b);
    } else {
    }
}

/// Law: an input holding any character outside the recognized set
/// (whitespace, fixed symbols, ASCII letters, digits, underscore, quote
/// characters) makes the whole call abort: no token sequence is produced.
pub proof fn lemma_unrecognized_aborts(s: Seq<char>)
    requires
        exists|k: int| 0 <= k < s.len() && !is_recognized_char(s[k]),
    ensures
        spec_tokens(s, 0) is Err,
{
    let b = choose|k: int| 0 <= k < s.len() && !is_recognized_char(s[k]);
    lemma_unrecognized_aborts_from(s, 0, b);
}

} // verus!
