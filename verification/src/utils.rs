//! Structured parse failures: every rejection carries a message, the name of
//! the parser that raised it, and a propagation cause that chains composite
//! rejections down to the atomic mismatch that started them.

use crate::parser::{AbstractSyntaxTree, TreeView};
use vstd::prelude::*;

verus! {

/// Mathematical model of a propagation cause.
pub enum PropagationView {
    Atomic(Seq<char>, Seq<char>),
    BecauseSubparserAccepted(Seq<char>, TreeView),
    BecauseSubparserRejected(Box<ErrorView>),
}

/// Mathematical model of a parse error.
pub struct ErrorView {
    pub message: Seq<char>,
    pub parser_name: Seq<char>,
    pub propagation: PropagationView,
}

/// Why an error propagated out of the parser that raised it.
#[derive(Debug, PartialEq, Eq)]
pub enum PropagatedParseError {
    /// When an atom fails, its error carries `Atomic(actual, expected)`:
    /// what was found (empty when input was exhausted) and what was required.
    Atomic(String, String),
    /// An automaton reached its rejecting terminal right after a sub-parser
    /// succeeded; the sub-parser's name and produced value are retained.
    BecauseSubparserAccepted(String, AbstractSyntaxTree),
    /// An automaton reached its rejecting terminal right after a sub-parser
    /// failed; the inner error is retained in full.
    BecauseSubparserRejected(Box<ParseError>),
}

/// A structured parse failure.
#[derive(Debug, PartialEq, Eq)]
pub struct ParseError {
    pub message: String,
    pub parser_name: String,
    pub propagation: PropagatedParseError,
}

impl PropagatedParseError {
    pub open spec fn to_view(&self) -> PropagationView
        decreases self,
    {
        match self {
            PropagatedParseError::Atomic(actual, expected) => PropagationView::Atomic(
                actual@,
                expected@,
            ),
            PropagatedParseError::BecauseSubparserAccepted(name, tree) => {
                PropagationView::BecauseSubparserAccepted(name@, tree.to_view())
            },
            PropagatedParseError::BecauseSubparserRejected(inner) => {
                PropagationView::BecauseSubparserRejected(Box::new(inner.to_view()))
            },
        }
    }
}

impl ParseError {
    pub open spec fn to_view(&self) -> ErrorView
        decreases self,
    {
        ErrorView {
            message: self.message@,
            parser_name: self.parser_name@,
            propagation: self.propagation.to_view(),
        }
    }

    pub fn new(message: String, parser_name: String, propagation: PropagatedParseError) -> (e:
        ParseError)
        ensures
            e.to_view() == (ErrorView {
                message: message@,
                parser_name: parser_name@,
                propagation: propagation.to_view(),
            }),
    {
        ParseError { message, parser_name, propagation }
    }
}

impl View for ParseError {
    type V = ErrorView;

    open spec fn view(&self) -> ErrorView {
        self.to_view()
    }
}

impl View for PropagatedParseError {
    type V = PropagationView;

    open spec fn view(&self) -> PropagationView {
        self.to_view()
    }
}

/// On success a parser hands back the unconsumed remainder of its input and
/// the tree value it produced; on failure, a structured error.
pub type ParseResult<'a, T> = Result<(&'a str, T), ParseError>;

} // verus!
