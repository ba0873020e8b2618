//! Token model and scanner for a small scripting language.
//!
//! [`token`] defines the lexical categories, literal values and the token
//! record; [`scanner`] turns source text into a token sequence plus a list of
//! lexical errors.

pub mod scanner;
pub mod text;
pub mod token;
