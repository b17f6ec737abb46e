use vstd::prelude::*;

use crate::token::TokenKind;

verus! {

/// The fixed reserved-word mapping: a spelling that is exactly one of the
/// ten reserved words maps to its keyword kind; every other spelling is
/// absent. Matching is an exact full-spelling comparison.
pub open spec fn spec_keyword(s: Seq<char>) -> Option<TokenKind> {
    if s == "let"@ {
        Some(TokenKind::Let)
    } else if s == "func"@ {
        Some(TokenKind::Func)
    } else if s == "if"@ {
        Some(TokenKind::If)
    } else if s == "else"@ {
        Some(TokenKind::Else)
    } else if s == "elif"@ {
        Some(TokenKind::Elif)
    } else if s == "while"@ {
        Some(TokenKind::While)
    } else if s == "not"@ {
        Some(TokenKind::Not)
    } else if s == "public"@ {
        Some(TokenKind::Public)
    } else if s == "private"@ {
        Some(TokenKind::Private)
    } else if s == "static"@ {
        Some(TokenKind::Static)
    } else {
        None
    }
}

/// A successful keyword lookup yields a reserved kind, never the
/// identifier kind, the end-of-input kind, or a literal kind.
pub proof fn lemma_keyword_kind_reserved(s: Seq<char>, k: TokenKind)
    requires
        spec_keyword(s) == Some(k),
    ensures
        k != TokenKind::Identifier,
        k != TokenKind::StringLiteral,
        k != TokenKind::EOF,
        forall|v: i64| k != TokenKind::Number(v),
{
}

/// The table answering "is this spelling a reserved word, and of which
/// kind?". Built once before scanning; read-only afterwards.
pub struct KeywordTable {
    entries: Vec<(String, TokenKind)>,
}

impl KeywordTable {
    /// The table holds exactly the fixed reserved-word set, in the order
    /// `spec_keyword` tests it.
    pub closed spec fn wf(&self) -> bool {
        let e = self.entries@;
        e.len() == 10 && e[0].0@ == "let"@ && e[0].1 == TokenKind::Let && e[1].0@ == "func"@
            && e[1].1 == TokenKind::Func && e[2].0@ == "if"@ && e[2].1 == TokenKind::If
            && e[3].0@ == "else"@ && e[3].1 == TokenKind::Else && e[4].0@ == "elif"@ && e[4].1
            == TokenKind::Elif && e[5].0@ == "while"@ && e[5].1 == TokenKind::While && e[6].0@
            == "not"@ && e[6].1 == TokenKind::Not && e[7].0@ == "public"@ && e[7].1
            == TokenKind::Public && e[8].0@ == "private"@ && e[8].1 == TokenKind::Private
            && e[9].0@ == "static"@ && e[9].1 == TokenKind::Static
    }

    /// Builds the fixed mapping. No mutation is exposed afterwards.
    pub fn new() -> (t: KeywordTable)
        ensures
            t.wf(),
    {
        let mut entries: Vec<(String, TokenKind)> = Vec::new();
        entries.push((String::from_str("let"), TokenKind::Let));
        entries.push((String::from_str("func"), TokenKind::Func));
        entries.push((String::from_str("if"), TokenKind::If));
        entries.push((String::from_str("else"), TokenKind::Else));
        entries.push((String::from_str("elif"), TokenKind::Elif));
        entries.push((String::from_str("while"), TokenKind::While));
        entries.push((String::from_str("not"), TokenKind::Not));
        entries.push((String::from_str("public"), TokenKind::Public));
        entries.push((String::from_str("private"), TokenKind::Private));
        entries.push((String::from_str("static"), TokenKind::Static));
        KeywordTable { entries }
    }

    /// Answers whether `s` spells a reserved word: `Some` of the matched
    /// kind on an exact match, `None` on every other spelling.
    pub fn lookup(&self, s: &String) -> (r: Option<TokenKind>)
        requires
            self.wf(),
        ensures
            r == spec_keyword(s@),
    {
        let mut i: usize = 0;
        while i < self.entries.len()
            invariant
                self.wf(),
                0 <= i <= self.entries@.len(),
                forall|k: int| 0 <= k < i ==> self.entries@[k].0@ != s@,
            decreases self.entries@.len() - i,
        {
            let entry = &self.entries[i];
            if entry.0.eq(s) {
                return Some(entry.1);
            }
            i += 1;
        }
        None
    }
}

} // verus!
