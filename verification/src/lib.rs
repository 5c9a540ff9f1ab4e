//! Front end of a small experimental language: a tokenizer that turns source
//! lines into classified tokens, and a block parser that checks statements
//! and records declared variables in nested, isolated scopes.
//!
//! - [`position`] and [`error`]: source coordinates and diagnostics.
//! - [`token`]: the kinds of token and how text is classified; [`number`]
//!   and [`spelling`] say how numbers, symbols and words are spelled.
//! - [`tokenizer`]: from lines to tokens; [`tokenizer_laws`] holds what is
//!   proved of it.
//! - [`semantics`]: what a block of tokens means, and what is proved of
//!   that; [`parser`]: the scope that parses a block.
//! - [`text`]: string helpers.
//!
//! Nothing is run or computed: values are kept as text, and the parser
//! checks shapes and types only.

pub mod error;
pub mod number;
pub mod parser;
pub mod position;
pub mod semantics;
pub mod spelling;
pub mod text;
pub mod token;
pub mod tokenizer;
pub mod tokenizer_laws;

pub use error::CompilerError;
pub use error::ErrorHandler;
pub use error::ErrorTypes;
pub use error::Failure;
pub use error::Res;
pub use position::Position;
pub use token::is_enum_token_variant;
pub use token::BooleanVariants;
pub use token::ControlVariants;
pub use token::NameVariants;
pub use token::NumberVariants;
pub use token::StringVariants;
pub use token::Token;
pub use token::TokenTypes;
pub use token::TokenVariant;
pub use token::WordVariants;
