//! A single-pass lexical scanner that turns source text into a flat sequence
//! of classified tokens, with lexical errors collected on a side channel.

mod token;
mod model;
mod scanner;
mod laws;

pub use token::{error_views, token_views, ErrorView, KindView, ScanError, Token, TokenType, TokenView};
pub use model::{emitted_errors, emitted_tokens, find_from, is_blank, lex_at, line_at, newlines, operator_kinds, scan, scan_from, single_kind, spelling, token_starts, token_of, Emit, Step};
pub use scanner::Scanner;
pub use laws::{lemma_end_last_and_unique, lemma_whitespace_only, lemma_lexeme_is_source_span};
