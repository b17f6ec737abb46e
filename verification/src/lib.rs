//! A verified lexical analyzer: it turns a source-text buffer into an
//! ordered sequence of classified tokens, ending with a sentinel
//! end-of-input token.

pub mod chars;
pub mod keywords;
pub mod props;
pub mod scan;
pub mod token;

pub use scan::tokenize;
pub use token::LexError;
pub use token::Token;
pub use token::TokenKind;
