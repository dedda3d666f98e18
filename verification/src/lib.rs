//! Parser combinators composed as explicit finite-state automata.
//!
//! A grammar is assembled from leaf recognizers (exact text, one character
//! from an alphabet, the maximal run over an alphabet, end of input) and
//! composite automata ("bricks") that hold an ordered list of sub-parsers
//! together with a success and a failure transition table over them. One
//! data structure thus expresses sequencing, alternation, optionality and
//! repetition, and every rejection carries a causal chain explaining which
//! sub-parse led to it.
//!
//! The behavior of every parser is pinned down by the specification
//! interpreter in [`semantics`]: `parse` returns exactly what `eval` says
//! for the parser's node view on the given input.

pub mod atoms;
pub mod brick;
pub mod constants;
pub mod ignore;
pub mod laws;
pub mod parser;
pub mod semantics;
pub mod utils;

pub use atoms::{AllWordsFromAlphabet, Alphabet, CharacterFromAlphabet, EndOfInputParser,
    StringParser};
pub use brick::{Brick, ParserIndex};
pub use ignore::Ignore;
pub use parser::{AbstractSyntaxTree, Parser, ParserNode};
pub use utils::{ParseError, ParseResult, PropagatedParseError};
