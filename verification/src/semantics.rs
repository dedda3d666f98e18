//! The mathematical model of parsing: node views for every parser shape and
//! a total interpreter, `eval`, that fixes what each parser returns on every
//! input. Executable parsers are specified against `eval` alone.

use crate::brick::ParserIndex;
use crate::parser::TreeView;
use crate::utils::{ErrorView, PropagationView};
use vstd::prelude::*;

verus! {

/// The view of a parser: what it is, stripped of sharing and representation.
pub enum Node {
    Literal { name: Seq<char>, pattern: Seq<char> },
    OneChar { name: Seq<char>, alphabet: Set<char>, listing: Seq<char> },
    WordRun { name: Seq<char>, alphabet: Set<char>, allow_empty: bool, listing: Seq<char> },
    EndOfInput,
    Silent { name: Seq<char>, inner: Box<Node> },
    Automaton {
        name: Seq<char>,
        parsers: Seq<Node>,
        on_success: Seq<ParserIndex>,
        on_failure: Seq<ParserIndex>,
    },
}

/// What a parse of a whole input comes to.
pub enum Outcome {
    Accepted(Seq<char>, TreeView),
    Rejected(ErrorView),
}

/// The automaton walk's record of the most recent sub-parse, which decides
/// the propagation cause if the walk ends at the rejecting terminal.
pub enum LastStep {
    Start,
    Accepted(Seq<char>, TreeView),
    Rejected(ErrorView),
}

/// The name a parser reports for diagnostics.
pub open spec fn node_name(n: Node) -> Seq<char> {
    match n {
        Node::Literal { name, .. } => name,
        Node::OneChar { name, .. } => name,
        Node::WordRun { name, .. } => name,
        Node::EndOfInput => "end_of_input"@,
        Node::Silent { name, .. } => name,
        Node::Automaton { name, .. } => name,
    }
}

/// A transition target stays inside a table of `n` sub-parsers.
pub open spec fn target_ok(t: ParserIndex, n: int) -> bool {
    match t {
        ParserIndex::Index(j) => j < n,
        ParserIndex::AcceptingState => true,
        ParserIndex::RejectingState => true,
    }
}

/// Well-formedness: every automaton holds at least one sub-parser, its two
/// transition tables are exactly as long as its parser list, and every
/// numeric target is in bounds.
pub open spec fn wf(n: Node) -> bool
    decreases n,
{
    match n {
        Node::Literal { .. } => true,
        Node::OneChar { .. } => true,
        Node::WordRun { .. } => true,
        Node::EndOfInput => true,
        Node::Silent { inner, .. } => wf(*inner),
        Node::Automaton { parsers, on_success, on_failure, .. } => {
            &&& parsers.len() >= 1
            &&& on_success.len() == parsers.len()
            &&& on_failure.len() == parsers.len()
            &&& forall|i: int|
                0 <= i < parsers.len() ==> target_ok(#[trigger] on_success[i], parsers.len() as int)
            &&& forall|i: int|
                0 <= i < parsers.len() ==> target_ok(#[trigger] on_failure[i], parsers.len() as int)
            &&& forall|i: int| 0 <= i < parsers.len() ==> wf(#[trigger] parsers[i])
        },
    }
}

// ---------------------------------------------------------------------------
// Diagnostic texts.
// ---------------------------------------------------------------------------
pub open spec fn literal_mismatch_message(actual: char, expected: char) -> Seq<char> {
    "expected \""@ + seq![expected] + "\" but got \""@ + seq![actual] + "\""@
}

pub open spec fn literal_exhausted_message(expected: char) -> Seq<char> {
    "exhausted input but expected \""@ + seq![expected] + "\""@
}

pub open spec fn one_char_expected_text(listing: Seq<char>) -> Seq<char> {
    "character from alphabet \""@ + listing + "\""@
}

pub open spec fn one_char_empty_message(listing: Seq<char>) -> Seq<char> {
    "Expected a character from the alphabet \""@ + listing + "\" but found an empty input."@
}

pub open spec fn one_char_mismatch_message(listing: Seq<char>, actual: char) -> Seq<char> {
    "Expected a character from the alphabet \""@ + listing + "\" but found \""@ + seq![actual]
        + "\"."@
}

pub open spec fn word_expected_text(listing: Seq<char>) -> Seq<char> {
    "non-empty word from alphabet \""@ + listing + "\""@
}

pub open spec fn word_empty_message(listing: Seq<char>) -> Seq<char> {
    "Expected a non-empty word from the alphabet \""@ + listing + "\" but got nothing."@
}

pub open spec fn word_mismatch_message(listing: Seq<char>, actual: char) -> Seq<char> {
    "Expected a non-empty word from the alphabet \""@ + listing + "\" but got \""@
        + seq![actual] + "\"."@
}

pub open spec fn end_of_input_message(input: Seq<char>) -> Seq<char> {
    "Expected end of input but got \""@ + input + "\""@
}

pub open spec fn automaton_message(original: Seq<char>, remaining: Seq<char>) -> Seq<char> {
    "Brick failed to parse \""@ + original + "\". Error occurred when trying to parse \""@
        + remaining + "\"."@
}

// ---------------------------------------------------------------------------
// Leaf semantics.
// ---------------------------------------------------------------------------
/// The first position at or after `i` where `input` stops matching
/// `pattern`: either `pattern.len()` (full match), or the first index where
/// the two differ or `input` is exhausted.
pub open spec fn divergence_from(input: Seq<char>, pattern: Seq<char>, i: int) -> int
    decreases pattern.len() - i,
{
    if i < 0 || i >= pattern.len() {
        i
    } else if i >= input.len() || input[i] != pattern[i] {
        i
    } else {
        divergence_from(input, pattern, i + 1)
    }
}

pub open spec fn starts_with(input: Seq<char>, pattern: Seq<char>) -> bool {
    input.len() >= pattern.len() && input.take(pattern.len() as int) == pattern
}

pub open spec fn eval_literal(name: Seq<char>, pattern: Seq<char>, input: Seq<char>) -> Outcome {
    let d = divergence_from(input, pattern, 0);
    if d == pattern.len() {
        Outcome::Accepted(input.skip(d), TreeView::Leaf(name, pattern))
    } else if d >= input.len() {
        Outcome::Rejected(
            ErrorView {
                message: literal_exhausted_message(pattern[d]),
                parser_name: name,
                propagation: PropagationView::Atomic(Seq::empty(), seq![pattern[d]]),
            },
        )
    } else {
        Outcome::Rejected(
            ErrorView {
                message: literal_mismatch_message(input[d], pattern[d]),
                parser_name: name,
                propagation: PropagationView::Atomic(seq![input[d]], seq![pattern[d]]),
            },
        )
    }
}

pub open spec fn eval_one_char(
    name: Seq<char>,
    alphabet: Set<char>,
    listing: Seq<char>,
    input: Seq<char>,
) -> Outcome {
    if input.len() == 0 {
        Outcome::Rejected(
            ErrorView {
                message: one_char_empty_message(listing),
                parser_name: name,
                propagation: PropagationView::Atomic(
                    Seq::empty(),
                    one_char_expected_text(listing),
                ),
            },
        )
    } else if alphabet.contains(input[0]) {
        Outcome::Accepted(input.skip(1), TreeView::Leaf(name, seq![input[0]]))
    } else {
        Outcome::Rejected(
            ErrorView {
                message: one_char_mismatch_message(listing, input[0]),
                parser_name: name,
                propagation: PropagationView::Atomic(
                    seq![input[0]],
                    one_char_expected_text(listing),
                ),
            },
        )
    }
}

/// The length of the longest prefix of `input`, starting at `i`, whose
/// characters all belong to `alphabet` (as an end index).
pub open spec fn run_end(input: Seq<char>, alphabet: Set<char>, i: int) -> int
    decreases input.len() - i,
{
    if i < 0 || i >= input.len() {
        i
    } else if !alphabet.contains(input[i]) {
        i
    } else {
        run_end(input, alphabet, i + 1)
    }
}

pub open spec fn eval_word(
    name: Seq<char>,
    alphabet: Set<char>,
    allow_empty: bool,
    listing: Seq<char>,
    input: Seq<char>,
) -> Outcome {
    let e = run_end(input, alphabet, 0);
    if e > 0 || allow_empty {
        Outcome::Accepted(input.skip(e), TreeView::Leaf(name, input.take(e)))
    } else if input.len() == 0 {
        Outcome::Rejected(
            ErrorView {
                message: word_empty_message(listing),
                parser_name: name,
                propagation: PropagationView::Atomic(Seq::empty(), word_expected_text(listing)),
            },
        )
    } else {
        Outcome::Rejected(
            ErrorView {
                message: word_mismatch_message(listing, input[0]),
                parser_name: name,
                propagation: PropagationView::Atomic(seq![input[0]], word_expected_text(listing)),
            },
        )
    }
}

pub open spec fn eval_end_of_input(input: Seq<char>) -> Outcome {
    if input.len() == 0 {
        Outcome::Accepted(input, TreeView::Suppressed)
    } else {
        Outcome::Rejected(
            ErrorView {
                message: end_of_input_message(input),
                parser_name: "end_of_input"@,
                propagation: PropagationView::Atomic(input, Seq::empty()),
            },
        )
    }
}

// ---------------------------------------------------------------------------
// Automaton semantics.
// ---------------------------------------------------------------------------
/// The error an automaton raises when its walk ends at the rejecting
/// terminal (or exhausts its step budget).
pub open spec fn rejection(
    name: Seq<char>,
    original: Seq<char>,
    remaining: Seq<char>,
    last: LastStep,
) -> ErrorView {
    ErrorView {
        message: automaton_message(original, remaining),
        parser_name: name,
        propagation: match last {
            LastStep::Accepted(sub_name, tree) => PropagationView::BecauseSubparserAccepted(
                sub_name,
                tree,
            ),
            LastStep::Rejected(e) => PropagationView::BecauseSubparserRejected(Box::new(e)),
            LastStep::Start => PropagationView::Atomic(Seq::empty(), Seq::empty()),
        },
    }
}

/// The step budget of an automaton walk. A walk that takes this many steps
/// without reaching a terminal revisits some (state, remaining-input) pair —
/// sub-parsers are pure, so such a walk can never terminate — and is
/// rejected.
pub open spec fn walk_budget() -> nat {
    usize::MAX as nat
}

/// One automaton walk, starting at `state` against `remaining`, with
/// `results` the non-suppressed values accumulated so far and `last` the
/// record of the most recent sub-parse.
pub open spec fn walk(
    name: Seq<char>,
    parsers: Seq<Node>,
    on_success: Seq<ParserIndex>,
    on_failure: Seq<ParserIndex>,
    original: Seq<char>,
    remaining: Seq<char>,
    state: ParserIndex,
    results: Seq<TreeView>,
    last: LastStep,
    fuel: nat,
) -> Outcome
    decreases parsers, fuel,
{
    match state {
        ParserIndex::AcceptingState => Outcome::Accepted(
            remaining,
            TreeView::Branch(name, results),
        ),
        ParserIndex::RejectingState => Outcome::Rejected(
            rejection(name, original, remaining, last),
        ),
        ParserIndex::Index(j) => {
            if fuel == 0 || j >= parsers.len() {
                Outcome::Rejected(rejection(name, original, remaining, last))
            } else {
                match eval(parsers[j as int], remaining) {
                    Outcome::Accepted(rem2, tree) => walk(
                        name,
                        parsers,
                        on_success,
                        on_failure,
                        original,
                        rem2,
                        on_success[j as int],
                        if tree is Suppressed {
                            results
                        } else {
                            results.push(tree)
                        },
                        LastStep::Accepted(node_name(parsers[j as int]), tree),
                        (fuel - 1) as nat,
                    ),
                    Outcome::Rejected(e) => walk(
                        name,
                        parsers,
                        on_success,
                        on_failure,
                        original,
                        remaining,
                        on_failure[j as int],
                        results,
                        LastStep::Rejected(e),
                        (fuel - 1) as nat,
                    ),
                }
            }
        },
    }
}

/// What any parser returns on any input: the total semantics of this
/// library.
pub open spec fn eval(n: Node, input: Seq<char>) -> Outcome
    decreases n, 0nat,
{
    match n {
        Node::Literal { name, pattern } => eval_literal(name, pattern, input),
        Node::OneChar { name, alphabet, listing } => eval_one_char(name, alphabet, listing, input),
        Node::WordRun { name, alphabet, allow_empty, listing } => eval_word(
            name,
            alphabet,
            allow_empty,
            listing,
            input,
        ),
        Node::EndOfInput => eval_end_of_input(input),
        Node::Silent { name, inner } => match eval(*inner, input) {
            Outcome::Accepted(rem, _) => Outcome::Accepted(rem, TreeView::Suppressed),
            Outcome::Rejected(e) => Outcome::Rejected(e),
        },
        Node::Automaton { name, parsers, on_success, on_failure } => walk(
            name,
            parsers,
            on_success,
            on_failure,
            input,
            input,
            ParserIndex::Index(0),
            Seq::empty(),
            LastStep::Start,
            walk_budget(),
        ),
    }
}

// ---------------------------------------------------------------------------
// The node views the builder recipes produce.
// ---------------------------------------------------------------------------
pub open spec fn all_accepting(n: nat) -> Seq<ParserIndex> {
    Seq::new(n, |i: int| ParserIndex::AcceptingState)
}

pub open spec fn all_rejecting(n: nat) -> Seq<ParserIndex> {
    Seq::new(n, |i: int| ParserIndex::RejectingState)
}

/// Success chains to the next sub-parser; the last accepts.
pub open spec fn linear_success(n: nat) -> Seq<ParserIndex> {
    Seq::new(
        n,
        |i: int|
            if i == n - 1 {
                ParserIndex::AcceptingState
            } else {
                ParserIndex::Index((i + 1) as usize)
            },
    )
}

/// Failure chains to the next sub-parser; the last rejects.
pub open spec fn disjunction_failure(n: nat) -> Seq<ParserIndex> {
    Seq::new(
        n,
        |i: int|
            if i == n - 1 {
                ParserIndex::RejectingState
            } else {
                ParserIndex::Index((i + 1) as usize)
            },
    )
}

/// The custom-automaton default: every slot rejects, except that sub-parser
/// 0's success accepts. Calling code overwrites slots to describe a bespoke
/// automaton; until it does, the brick is equivalent to its first
/// sub-parser, wrapped in a branch.
pub open spec fn default_success(n: nat) -> Seq<ParserIndex> {
    Seq::new(
        n,
        |i: int|
            if i == 0 {
                ParserIndex::AcceptingState
            } else {
                ParserIndex::RejectingState
            },
    )
}

pub open spec fn default_node(name: Seq<char>, parsers: Seq<Node>) -> Node {
    Node::Automaton {
        name,
        parsers,
        on_success: default_success(parsers.len()),
        on_failure: all_rejecting(parsers.len()),
    }
}

/// A sequence: all sub-parsers must succeed, in order.
pub open spec fn linear_node(name: Seq<char>, parsers: Seq<Node>) -> Node {
    Node::Automaton {
        name,
        parsers,
        on_success: linear_success(parsers.len()),
        on_failure: all_rejecting(parsers.len()),
    }
}

/// An alternation: try sub-parsers in order, first success wins.
pub open spec fn disjunction_node(name: Seq<char>, parsers: Seq<Node>) -> Node {
    Node::Automaton {
        name,
        parsers,
        on_success: all_accepting(parsers.len()),
        on_failure: disjunction_failure(parsers.len()),
    }
}

/// An optional element: one sub-parser whose success and failure both
/// accept.
pub open spec fn maybe_node(name: Seq<char>, inner: Node) -> Node {
    Node::Automaton {
        name,
        parsers: seq![inner],
        on_success: seq![ParserIndex::AcceptingState],
        on_failure: seq![ParserIndex::AcceptingState],
    }
}

/// A separated list without a trailing separator:
/// `element (separator element)*`, at least one element.
pub open spec fn separated_node(name: Seq<char>, element: Node, separator: Node) -> Node {
    Node::Automaton {
        name,
        parsers: seq![element, separator],
        on_success: seq![ParserIndex::Index(1), ParserIndex::Index(0)],
        on_failure: seq![ParserIndex::RejectingState, ParserIndex::AcceptingState],
    }
}

/// A separated list that may be closed by a single trailing separator:
/// `element (separator element)* separator?`, at least one element. The
/// body loops through a separator-then-element continuation — which, when
/// it fails, has consumed nothing — and a suppressed optional separator is
/// appended as the final sequence step, so a lone trailing separator is
/// consumed but contributes no child.
pub open spec fn separated_trailing_node(name: Seq<char>, element: Node, separator: Node) -> Node {
    Node::Automaton {
        name,
        parsers: seq![
            element,
            linear_node(name + "_continuation"@, seq![separator, element]),
            Node::Silent {
                name: "ignore_"@ + name + "_trailing_separator"@,
                inner: Box::new(maybe_node(name + "_trailing_separator"@, separator)),
            },
        ],
        on_success: seq![
            ParserIndex::Index(1),
            ParserIndex::Index(1),
            ParserIndex::AcceptingState,
        ],
        on_failure: seq![
            ParserIndex::RejectingState,
            ParserIndex::Index(2),
            ParserIndex::RejectingState,
        ],
    }
}

} // verus!
