//! The parsing capability shared by every parser, the tree values that
//! successful parses produce, and the closed set of parser variants that an
//! automaton can hold as sub-parsers.

use crate::atoms::{AllWordsFromAlphabet, CharacterFromAlphabet, EndOfInputParser, StringParser};
use crate::brick::Brick;
use crate::ignore::Ignore;
use crate::semantics::{eval, node_name, wf, Node, Outcome};
use crate::utils::{ParseError, ParseResult};
use std::rc::Rc;
use vstd::prelude::*;
use vstd::string::StringExecFns;

verus! {

/// The value a successful parse step produces: a leaf holding the matched
/// text, a branch of child values produced by an automaton, or the suppressed
/// sentinel that contributes nothing to any enclosing branch.
#[derive(Debug, PartialEq, Eq)]
pub enum AbstractSyntaxTree {
    Leaf(String, String),
    Branch(String, Vec<AbstractSyntaxTree>),
    Ignore,
}

/// Mathematical model of a tree value.
pub enum TreeView {
    Leaf(Seq<char>, Seq<char>),
    Branch(Seq<char>, Seq<TreeView>),
    Suppressed,
}

/// The views of a list of tree values, in order.
pub open spec fn tree_views(ts: Seq<AbstractSyntaxTree>) -> Seq<TreeView>
    decreases ts,
{
    if ts.len() == 0 {
        Seq::empty()
    } else {
        tree_views(ts.drop_last()).push(ts.last().to_view())
    }
}

pub proof fn lemma_tree_views(ts: Seq<AbstractSyntaxTree>)
    ensures
        tree_views(ts).len() == ts.len(),
        forall|i: int| 0 <= i < ts.len() ==> tree_views(ts)[i] == ts[i].to_view(),
    decreases ts,
{
    if ts.len() > 0 {
        lemma_tree_views(ts.drop_last());
    }
}

pub proof fn lemma_tree_views_push(ts: Seq<AbstractSyntaxTree>, t: AbstractSyntaxTree)
    ensures
        tree_views(ts.push(t)) == tree_views(ts).push(t.to_view()),
{
    assert(ts.push(t).drop_last() =~= ts);
    assert(ts.push(t).last() == t);
}

impl AbstractSyntaxTree {
    pub open spec fn to_view(&self) -> TreeView
        decreases self,
    {
        match self {
            AbstractSyntaxTree::Leaf(name, text) => TreeView::Leaf(name@, text@),
            AbstractSyntaxTree::Branch(name, children) => TreeView::Branch(
                name@,
                tree_views(children@),
            ),
            AbstractSyntaxTree::Ignore => TreeView::Suppressed,
        }
    }

    /// Whether this value is the suppressed sentinel, which automata filter
    /// out of their branch children.
    pub fn is_suppressed(&self) -> (b: bool)
        ensures
            b == (self.to_view() is Suppressed),
    {
        matches!(self, AbstractSyntaxTree::Ignore)
    }
}

impl View for AbstractSyntaxTree {
    type V = TreeView;

    open spec fn view(&self) -> TreeView {
        self.to_view()
    }
}

/// The closed set of parser shapes an automaton can drive: the four leaf
/// recognizers, the suppression wrapper, and nested automata.
pub enum ParserNode {
    Text(StringParser),
    OneChar(CharacterFromAlphabet),
    Word(AllWordsFromAlphabet),
    End(EndOfInputParser),
    Silent(Ignore),
    Composite(Brick),
}

/// The views of a list of shared parser nodes, in order.
pub open spec fn node_views(ps: Seq<Rc<ParserNode>>) -> Seq<Node>
    decreases ps,
{
    if ps.len() == 0 {
        Seq::empty()
    } else {
        node_views(ps.drop_last()).push(ps.last().nodev())
    }
}

pub proof fn lemma_node_views(ps: Seq<Rc<ParserNode>>)
    ensures
        node_views(ps).len() == ps.len(),
        forall|i: int| 0 <= i < ps.len() ==> node_views(ps)[i] == ps[i].nodev(),
    decreases ps,
{
    if ps.len() > 0 {
        lemma_node_views(ps.drop_last());
    }
}

impl ParserNode {
    pub open spec fn nodev(&self) -> Node
        decreases self,
    {
        match self {
            ParserNode::Text(p) => Node::Literal { name: p.name@, pattern: p.string@ },
            ParserNode::OneChar(p) => Node::OneChar {
                name: p.name@,
                alphabet: p.alphabet@,
                listing: p.alphabet.listing(),
            },
            ParserNode::Word(p) => Node::WordRun {
                name: p.name@,
                alphabet: p.alphabet@,
                allow_empty: p.allow_empty_word,
                listing: p.alphabet.listing(),
            },
            ParserNode::End(_) => Node::EndOfInput,
            ParserNode::Silent(p) => p.nodev(),
            ParserNode::Composite(b) => b.nodev(),
        }
    }

    /// Run the parser this node holds.
    pub fn parse_node<'a>(&self, input: &'a str) -> (r: ParseResult<'a, AbstractSyntaxTree>)
        requires
            wf(self.nodev()),
        ensures
            outcome_matches(eval(self.nodev(), input@), r),
        decreases self, 1nat,
    {
        match self {
            ParserNode::Text(p) => p.parse(input),
            ParserNode::OneChar(p) => p.parse(input),
            ParserNode::Word(p) => p.parse(input),
            ParserNode::End(p) => p.parse(input),
            ParserNode::Silent(p) => p.parse_silent(input),
            ParserNode::Composite(b) => b.parse_automaton(input),
        }
    }

    /// The name of the parser this node holds.
    pub fn name_of(&self) -> (r: String)
        ensures
            r@ == node_name(self.nodev()),
    {
        match self {
            ParserNode::Text(p) => p.name.clone(),
            ParserNode::OneChar(p) => p.name.clone(),
            ParserNode::Word(p) => p.name.clone(),
            ParserNode::End(_) => String::from_str("end_of_input"),
            ParserNode::Silent(p) => p.name.clone(),
            ParserNode::Composite(b) => b.name.clone(),
        }
    }
}

/// Relates the specification-level outcome of a parse to the value an
/// executable parser returned.
pub open spec fn outcome_matches<'a>(o: Outcome, r: ParseResult<'a, AbstractSyntaxTree>) -> bool {
    match r {
        Ok((remaining, tree)) => o == Outcome::Accepted(remaining@, tree.to_view()),
        Err(e) => o == Outcome::Rejected(e.to_view()),
    }
}

/// The behavioral contract every parser implements: parsing is a pure
/// function of the receiver and the input, fully described by `eval` on the
/// receiver's node view.
pub trait Parser {
    /// The node view this parser denotes.
    spec fn node(&self) -> Node;

    /// Run the parser on `input`, returning the unconsumed remainder and the
    /// produced tree value, or a structured error.
    fn parse<'a>(&self, input: &'a str) -> (r: ParseResult<'a, AbstractSyntaxTree>)
        requires
            wf(self.node()),
        ensures
            outcome_matches(eval(self.node(), input@), r),
    ;

    /// The parser's name, used for diagnostics and error-chain labeling.
    fn get_name_clone(&self) -> (r: String)
        ensures
            r@ == node_name(self.node()),
    ;
}

impl Parser for ParserNode {
    open spec fn node(&self) -> Node {
        self.nodev()
    }

    fn parse<'a>(&self, input: &'a str) -> (r: ParseResult<'a, AbstractSyntaxTree>) {
        self.parse_node(input)
    }

    fn get_name_clone(&self) -> (r: String) {
        self.name_of()
    }
}

} // verus!
