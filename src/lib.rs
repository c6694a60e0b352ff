//! A tokenizer and a recursive-descent parser for line-oriented machine
//! control code (G-code): characters become tokens, tokens become lines.

pub mod buffer;
pub mod errors;
pub mod laws;
pub mod lexer;
pub mod low_level;
pub mod number;
pub mod round_trip;
pub mod text;

pub use buffer::ArgBuffer;
pub use errors::{Error, Expected};
pub use lexer::{Span, Token, TokenKind, Tokenizer, tokenize};
pub use low_level::{Argument, ArgumentKind, BasicParser, Command, CommandType, Line};
pub use number::Decimal;
