//! Parser for BMS (Be-Music Source) charts.
//!
//! The text of a chart is split into tokens by [`lex::parse`]. The tokens are
//! then folded into a [`parse::Bms`] by [`parse::Bms::from_token_stream`], which
//! resolves the `#RANDOM` blocks with the random number generator it is given.
//!
//! The library is verified with Verus. Each function states in its contract
//! what it returns, over the characters of the text and the sequences that
//! the tokens and the objects of a chart form, and the laws that hold of the
//! functions together are proof functions beside them.

pub mod lex;
pub mod parse;
