//! Generation of random strings that match a pattern.
//!
//! A pattern is tokenized once into a tree of [`Token`]s. Each attempt walks
//! the tree with a pseudo-random source and a fresh [`TokenContext`], and the
//! candidate is returned only if it has an admissible length and the
//! validator accepts it.
//!
//! What a walk yields is defined in [`walk`] as a function of the tree, the
//! context and the stream of values that the source of draws hands out. The
//! generator is proved to follow that function for every source; with a
//! [`Tape`] of scripted draws a walk can be replayed exactly.

pub mod ast;
pub mod clock;
pub mod context;
pub mod error;
pub mod generate;
pub mod generator;
pub mod identities;
pub mod laws;
pub mod legacy;
pub mod lexer;
pub mod parser;
pub mod random;
pub mod source;
pub mod tactics;
pub mod text;
pub mod tokens;
pub mod trace;
pub mod traits;
pub mod validator;
pub mod walk;

pub use crate::context::TokenContext;
pub use crate::error::GenError;
pub use crate::error::GenrexError;
pub use crate::generator::GeneratorConfig;
pub use crate::generator::RegexGenerator;
pub use crate::generator::RegexGeneratorBuilder;
pub use crate::source::DrawSource;
pub use crate::source::Tape;
pub use crate::tactics::Reason;
pub use crate::tactics::Rejection;
pub use crate::tokens::Token;
pub use crate::traits::GenerationAgent;
pub use crate::traits::GeneratorConfigurable;
pub use crate::traits::RegexStringGenerator;
pub use crate::traits::RegexToken;
