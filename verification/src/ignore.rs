//! The suppression wrapper: runs its inner parser, keeps the input it
//! consumed, and replaces any produced value with the suppressed sentinel so
//! that enclosing automata drop it from their branch children.

use crate::parser::{outcome_matches, AbstractSyntaxTree, Parser, ParserNode};
use crate::semantics::{eval, node_name, wf, Node};
use crate::utils::ParseResult;
use std::rc::Rc;
use vstd::prelude::*;
use vstd::string::StringExecFns;

verus! {

/// Applies the wrapped parser; on success reports the same remainder but a
/// suppressed value, on failure propagates the wrapped parser's error
/// unchanged.
pub struct Ignore {
    pub name: String,
    pub parser: Rc<ParserNode>,
}

impl Ignore {
    pub open spec fn nodev(&self) -> Node
        decreases self,
    {
        Node::Silent { name: self.name@, inner: Box::new(self.parser.nodev()) }
    }

    pub fn new(parser: Rc<ParserNode>) -> (w: Ignore)
        ensures
            w.nodev() == (Node::Silent {
                name: "ignore_"@ + node_name(parser.nodev()),
                inner: Box::new(parser.nodev()),
            }),
    {
        let mut name = String::from_str("ignore_");
        name.append(parser.name_of().as_str());
        Ignore { name, parser }
    }

    /// Run the wrapped parser and suppress its value.
    pub fn parse_silent<'a>(&self, input: &'a str) -> (r: ParseResult<'a, AbstractSyntaxTree>)
        requires
            wf(self.nodev()),
        ensures
            outcome_matches(eval(self.nodev(), input@), r),
        decreases self, 0nat,
    {
        match self.parser.parse_node(input) {
            Ok((remaining, _)) => Ok((remaining, AbstractSyntaxTree::Ignore)),
            Err(e) => Err(e),
        }
    }
}

impl Parser for Ignore {
    open spec fn node(&self) -> Node {
        self.nodev()
    }

    fn parse<'a>(&self, input: &'a str) -> (r: ParseResult<'a, AbstractSyntaxTree>) {
        self.parse_silent(input)
    }

    fn get_name_clone(&self) -> (r: String) {
        self.name.clone()
    }
}

} // verus!
