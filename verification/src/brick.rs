//! The automaton engine: a brick holds an ordered list of sub-parsers and
//! two transition tables that say, for each sub-parser, where control goes
//! when it accepts and where it goes when it rejects.

use crate::parser::{
    lemma_node_views, lemma_tree_views, lemma_tree_views_push, node_views, outcome_matches,
    tree_views, AbstractSyntaxTree, Parser, ParserNode, TreeView,
};
use crate::semantics::{
    all_accepting, all_rejecting, default_node, default_success, disjunction_failure,
    disjunction_node, eval, linear_node, linear_success, maybe_node, node_name, rejection,
    separated_node, separated_trailing_node, walk, wf, LastStep, Node, Outcome,
};
use crate::utils::{ParseError, ParseResult, PropagatedParseError};
use std::rc::Rc;
use vstd::prelude::*;
use vstd::string::StringExecFns;

verus! {

/// The automaton walk's executable record of the most recent sub-parse:
/// nothing yet, a success (the sub-parser's name, and whether its value was
/// suppressed), or a failure (the sub-parser's error).
enum LastOutcome {
    Start,
    Accepted(String, bool),
    Rejected(ParseError),
}

/// The specification-level record that an executable record stands for,
/// given the values accumulated so far.
spec fn last_step_of(last: LastOutcome, results: Seq<AbstractSyntaxTree>) -> LastStep {
    match last {
        LastOutcome::Start => LastStep::Start,
        LastOutcome::Accepted(name, suppressed) => LastStep::Accepted(
            name@,
            if suppressed {
                TreeView::Suppressed
            } else {
                tree_views(results).last()
            },
        ),
        LastOutcome::Rejected(e) => LastStep::Rejected(e.to_view()),
    }
}

/// Relies on Rc::clone: the clone is a new handle to the same shared value.
#[verifier::external_body]
fn clone_rc(rc: &Rc<ParserNode>) -> (r: Rc<ParserNode>)
    ensures
        r == *rc,
{
    rc.clone()
}

/// A control-flow target inside an automaton: the next sub-parser to run,
/// or one of the two terminals that end the walk.
#[derive(Debug, Clone, Copy)]
pub enum ParserIndex {
    Index(usize),
    AcceptingState,
    RejectingState,
}

impl From<usize> for ParserIndex {
    fn from(index: usize) -> (r: Self) {
        ParserIndex::Index(index)
    }
}

impl vstd::std_specs::convert::FromSpecImpl<usize> for ParserIndex {
    open spec fn obeys_from_spec() -> bool {
        true
    }

    open spec fn from_spec(index: usize) -> Self {
        ParserIndex::Index(index)
    }
}

/// A composite parser driven by an explicit transition table.
///
/// `on_success` and `on_failure` are exactly as long as `parsers`;
/// `on_success[i]` is followed when `parsers[i]` accepts, `on_failure[i]`
/// when it rejects. The walk starts at sub-parser 0. The tables are public
/// so that calling code may rewire them after construction — before first
/// use — to express recursive grammars; a table entry pointing outside
/// `parsers` breaks the well-formedness that `parse` requires.
pub struct Brick {
    pub name: String,
    pub parsers: Vec<Rc<ParserNode>>,
    pub on_success: Vec<ParserIndex>,
    pub on_failure: Vec<ParserIndex>,
}

impl Brick {
    pub open spec fn nodev(&self) -> Node
        decreases self,
    {
        Node::Automaton {
            name: self.name@,
            parsers: node_views(self.parsers@),
            on_success: self.on_success@,
            on_failure: self.on_failure@,
        }
    }

    /// A new brick with the default transition tables: every slot leads to
    /// the rejecting terminal, except that sub-parser 0's success accepts —
    /// so until calling code rewires the tables, the brick is equivalent to
    /// its first sub-parser with the result wrapped in a branch.
    pub fn new(name: &str, parsers: Vec<Rc<ParserNode>>) -> (b: Brick)
        requires
            parsers@.len() >= 1,
        ensures
            b.nodev() == default_node(name@, node_views(parsers@)),
            b.name@ == name@,
            b.parsers@ == parsers@,
    {
        let n: usize = parsers.len();
        let mut on_success: Vec<ParserIndex> = Vec::new();
        let mut on_failure: Vec<ParserIndex> = Vec::new();
        let mut k: usize = 0;
        while k < n
            invariant
                k <= n,
                on_success@.len() == k,
                on_failure@.len() == k,
                forall|j: int|
                    0 <= j < k ==> on_success@[j] == (if j == 0 {
                        ParserIndex::AcceptingState
                    } else {
                        ParserIndex::RejectingState
                    }),
                forall|j: int| 0 <= j < k ==> on_failure@[j] == ParserIndex::RejectingState,
            decreases n - k,
        {
            if k == 0 {
                on_success.push(ParserIndex::AcceptingState);
            } else {
                on_success.push(ParserIndex::RejectingState);
            }
            on_failure.push(ParserIndex::RejectingState);
            k = k + 1;
        }
        proof {
            lemma_node_views(parsers@);
            assert(on_success@ =~= default_success(node_views(parsers@).len()));
            assert(on_failure@ =~= all_rejecting(node_views(parsers@).len()));
        }
        Brick { name: String::from_str(name), parsers, on_success, on_failure }
    }

    /// A sequence: each success moves to the next sub-parser, the last
    /// success accepts, any failure rejects.
    pub fn make_linear(name: &str, parsers: Vec<Rc<ParserNode>>) -> (b: Brick)
        requires
            parsers@.len() >= 1,
        ensures
            b.nodev() == linear_node(name@, node_views(parsers@)),
            b.name@ == name@,
            b.parsers@ == parsers@,
    {
        let n: usize = parsers.len();
        let mut on_success: Vec<ParserIndex> = Vec::new();
        let mut on_failure: Vec<ParserIndex> = Vec::new();
        let mut k: usize = 0;
        while k < n
            invariant
                k <= n,
                n == parsers@.len(),
                on_success@.len() == k,
                on_failure@.len() == k,
                forall|j: int|
                    0 <= j < k ==> on_success@[j] == (if j == n - 1 {
                        ParserIndex::AcceptingState
                    } else {
                        ParserIndex::Index((j + 1) as usize)
                    }),
                forall|j: int| 0 <= j < k ==> on_failure@[j] == ParserIndex::RejectingState,
            decreases n - k,
        {
            if k == n - 1 {
                on_success.push(ParserIndex::AcceptingState);
            } else {
                on_success.push(ParserIndex::Index(k + 1));
            }
            on_failure.push(ParserIndex::RejectingState);
            k = k + 1;
        }
        proof {
            lemma_node_views(parsers@);
            assert(on_success@ =~= linear_success(node_views(parsers@).len()));
            assert(on_failure@ =~= all_rejecting(node_views(parsers@).len()));
        }
        Brick { name: String::from_str(name), parsers, on_success, on_failure }
    }

    /// An alternation: runs the sub-parsers in order until one accepts;
    /// rejects only when all reject.
    pub fn make_disjunction(name: &str, parsers: Vec<Rc<ParserNode>>) -> (b: Brick)
        requires
            parsers@.len() >= 1,
        ensures
            b.nodev() == disjunction_node(name@, node_views(parsers@)),
            b.name@ == name@,
            b.parsers@ == parsers@,
    {
        let n: usize = parsers.len();
        let mut on_success: Vec<ParserIndex> = Vec::new();
        let mut on_failure: Vec<ParserIndex> = Vec::new();
        let mut k: usize = 0;
        while k < n
            invariant
                k <= n,
                n == parsers@.len(),
                on_success@.len() == k,
                on_failure@.len() == k,
                forall|j: int| 0 <= j < k ==> on_success@[j] == ParserIndex::AcceptingState,
                forall|j: int|
                    0 <= j < k ==> on_failure@[j] == (if j == n - 1 {
                        ParserIndex::RejectingState
                    } else {
                        ParserIndex::Index((j + 1) as usize)
                    }),
            decreases n - k,
        {
            on_success.push(ParserIndex::AcceptingState);
            if k == n - 1 {
                on_failure.push(ParserIndex::RejectingState);
            } else {
                on_failure.push(ParserIndex::Index(k + 1));
            }
            k = k + 1;
        }
        proof {
            lemma_node_views(parsers@);
            assert(on_success@ =~= all_accepting(node_views(parsers@).len()));
            assert(on_failure@ =~= disjunction_failure(node_views(parsers@).len()));
        }
        Brick { name: String::from_str(name), parsers, on_success, on_failure }
    }

    /// An optional element: applies the sub-parser and accepts either way;
    /// on failure nothing is consumed and nothing is contributed.
    pub fn maybe(name: &str, parser: Rc<ParserNode>) -> (b: Brick)
        ensures
            b.nodev() == maybe_node(name@, parser.nodev()),
            b.name@ == name@,
            b.parsers@ == seq![parser],
    {
        let parsers: Vec<Rc<ParserNode>> = vec![parser];
        let on_success: Vec<ParserIndex> = vec![ParserIndex::AcceptingState];
        let on_failure: Vec<ParserIndex> = vec![ParserIndex::AcceptingState];
        proof {
            lemma_node_views(parsers@);
            assert(parsers@ =~= seq![parser]);
            assert(parsers@[0] == parser);
            assert(node_views(parsers@) =~= seq![parser.nodev()]);
            assert(on_success@ =~= seq![ParserIndex::AcceptingState]);
            assert(on_failure@ =~= seq![ParserIndex::AcceptingState]);
        }
        Brick { name: String::from_str(name), parsers, on_success, on_failure }
    }

    /// A separated list: elements matched by `parser` separated by
    /// `separator`, at least one element. When `allow_trailing_separator`
    /// is set, the list may be closed by a single trailing separator,
    /// which is parsed but suppressed.
    pub fn make_separated(
        name: &str,
        parser: Rc<ParserNode>,
        separator: Rc<ParserNode>,
        allow_trailing_separator: bool,
    ) -> (b: Brick)
        ensures
            !allow_trailing_separator ==> b.nodev() == separated_node(
                name@,
                parser.nodev(),
                separator.nodev(),
            ) && b.parsers@ == seq![parser, separator],
            allow_trailing_separator ==> b.nodev() == separated_trailing_node(
                name@,
                parser.nodev(),
                separator.nodev(),
            ),
            b.name@ == name@,
    {
        if !allow_trailing_separator {
            Brick::separated_pair(name, parser, separator)
        } else {
            let mut cont_name = String::from_str(name);
            cont_name.append("_continuation");
            let mut maybe_name = String::from_str(name);
            maybe_name.append("_trailing_separator");
            let inner: Vec<Rc<ParserNode>> = vec![clone_rc(&separator), clone_rc(&parser)];
            proof {
                lemma_node_views(inner@);
                assert(node_views(inner@) =~= seq![separator.nodev(), parser.nodev()]);
            }
            let continuation = Rc::new(
                ParserNode::Composite(Brick::make_linear(cont_name.as_str(), inner)),
            );
            let trailing = Rc::new(
                ParserNode::Silent(
                    crate::ignore::Ignore::new(
                        Rc::new(ParserNode::Composite(Brick::maybe(maybe_name.as_str(), separator))),
                    ),
                ),
            );
            let parsers: Vec<Rc<ParserNode>> = vec![parser, continuation, trailing];
            proof {
                lemma_node_views(parsers@);
                assert(("ignore_"@ + (name@ + "_trailing_separator"@)) =~= ("ignore_"@ + name@
                    + "_trailing_separator"@));
                assert(node_views(parsers@) =~= seq![
                    parser.nodev(),
                    linear_node(
                        name@ + "_continuation"@,
                        seq![separator.nodev(), parser.nodev()],
                    ),
                    Node::Silent {
                        name: "ignore_"@ + name@ + "_trailing_separator"@,
                        inner: Box::new(
                            maybe_node(name@ + "_trailing_separator"@, separator.nodev()),
                        ),
                    },
                ]);
            }
            Brick {
                name: String::from_str(name),
                parsers,
                on_success: vec![
                    ParserIndex::Index(1),
                    ParserIndex::Index(1),
                    ParserIndex::AcceptingState,
                ],
                on_failure: vec![
                    ParserIndex::RejectingState,
                    ParserIndex::Index(2),
                    ParserIndex::RejectingState,
                ],
            }
        }
    }

    /// The core separated list, with no trailing separator allowed:
    /// element and separator alternate until the separator is missing.
    fn separated_pair(name: &str, parser: Rc<ParserNode>, separator: Rc<ParserNode>) -> (b: Brick)
        ensures
            b.nodev() == separated_node(name@, parser.nodev(), separator.nodev()),
            b.name@ == name@,
            b.parsers@ == seq![parser, separator],
    {
        let parsers: Vec<Rc<ParserNode>> = vec![parser, separator];
        proof {
            lemma_node_views(parsers@);
            assert(parsers@ =~= seq![parser, separator]);
            assert(node_views(parsers@) =~= seq![parsers@[0].nodev(), parsers@[1].nodev()]);
        }
        Brick {
            name: String::from_str(name),
            parsers,
            on_success: vec![ParserIndex::Index(1), ParserIndex::Index(0)],
            on_failure: vec![ParserIndex::RejectingState, ParserIndex::AcceptingState],
        }
    }

    /// Walk the automaton: run sub-parsers from index 0, following the
    /// success and failure tables, until a terminal is reached (or the
    /// step budget runs out, which only a table that loops without
    /// consuming can bring about).
    #[verifier::loop_isolation(false)]
    #[verifier::rlimit(50)]
    pub fn parse_automaton<'a>(&self, input: &'a str) -> (r: ParseResult<'a, AbstractSyntaxTree>)
        requires
            wf(self.nodev()),
        ensures
            outcome_matches(eval(self.nodev(), input@), r),
        decreases self, 0nat,
    {
        let ghost nm: Seq<char> = self.name@;
        let ghost ps: Seq<Node> = node_views(self.parsers@);
        let ghost os: Seq<ParserIndex> = self.on_success@;
        let ghost of: Seq<ParserIndex> = self.on_failure@;
        proof {
            lemma_node_views(self.parsers@);
        }
        let mut remaining: &'a str = input;
        let mut results: Vec<AbstractSyntaxTree> = Vec::new();
        let mut state: ParserIndex = ParserIndex::Index(0);
        let mut fuel: usize = usize::MAX;
        let mut last: LastOutcome = LastOutcome::Start;
        loop
            invariant
                state matches ParserIndex::Index(j) ==> j < self.parsers@.len(),
                last matches LastOutcome::Start ==> state == ParserIndex::Index(0usize) && fuel
                    == usize::MAX,
                last matches LastOutcome::Accepted(_, sup) && !sup ==> results@.len() > 0,
                walk(
                    nm,
                    ps,
                    os,
                    of,
                    input@,
                    remaining@,
                    state,
                    tree_views(results@),
                    last_step_of(last, results@),
                    fuel as nat,
                ) == eval(self.nodev(), input@),
            decreases fuel,
        {
            let j: usize;
            match state {
                ParserIndex::Index(jj) => {
                    j = jj;
                },
                _ => {
                    break ;
                },
            }
            if fuel == 0 {
                break ;
            }
            proof {
                assert(decreases_to!(*self => self.parsers));
                assert(decreases_to!(self.parsers => self.parsers@));
                assert(decreases_to!(self.parsers@ => self.parsers@[j as int]));
            }
            let ghost old_results: Seq<AbstractSyntaxTree> = results@;
            let child: &Rc<ParserNode> = &self.parsers[j];
            match child.parse_node(remaining) {
                Ok((rem, tree)) => {
                    let ghost tv: TreeView = tree.to_view();
                    let suppressed: bool = tree.is_suppressed();
                    let sub_name: String = child.name_of();
                    if !suppressed {
                        proof {
                            lemma_tree_views_push(old_results, tree);
                        }
                        results.push(tree);
                        proof {
                            assert(tree_views(results@) == tree_views(old_results).push(tv));
                        }
                    }
                    let next: ParserIndex = self.on_success[j];
                    proof {
                        assert(walk(
                            nm,
                            ps,
                            os,
                            of,
                            input@,
                            remaining@,
                            ParserIndex::Index(j),
                            tree_views(old_results),
                            last_step_of(last, old_results),
                            fuel as nat,
                        ) == walk(
                            nm,
                            ps,
                            os,
                            of,
                            input@,
                            rem@,
                            os[j as int],
                            if tv is Suppressed {
                                tree_views(old_results)
                            } else {
                                tree_views(old_results).push(tv)
                            },
                            LastStep::Accepted(node_name(ps[j as int]), tv),
                            (fuel - 1) as nat,
                        ));
                    }
                    remaining = rem;
                    state = next;
                    last = LastOutcome::Accepted(sub_name, suppressed);
                    fuel = fuel - 1;
                    proof {
                        assert(last_step_of(last, results@) == LastStep::Accepted(
                            node_name(ps[j as int]),
                            tv,
                        ));
                    }
                },
                Err(e) => {
                    let next: ParserIndex = self.on_failure[j];
                    proof {
                        assert(walk(
                            nm,
                            ps,
                            os,
                            of,
                            input@,
                            remaining@,
                            ParserIndex::Index(j),
                            tree_views(results@),
                            last_step_of(last, results@),
                            fuel as nat,
                        ) == walk(
                            nm,
                            ps,
                            os,
                            of,
                            input@,
                            remaining@,
                            of[j as int],
                            tree_views(results@),
                            LastStep::Rejected(e.to_view()),
                            (fuel - 1) as nat,
                        ));
                    }
                    state = next;
                    last = LastOutcome::Rejected(e);
                    fuel = fuel - 1;
                },
            }
        }
        match state {
            ParserIndex::AcceptingState => {
                proof {
                    assert(eval(self.nodev(), input@) == Outcome::Accepted(
                        remaining@,
                        TreeView::Branch(nm, tree_views(results@)),
                    ));
                }
                Ok((remaining, AbstractSyntaxTree::Branch(self.name.clone(), results)))
            },
            _ => {
                let ghost lastv: LastStep = last_step_of(last, results@);
                let ghost full_results: Seq<AbstractSyntaxTree> = results@;
                proof {
                    assert(eval(self.nodev(), input@) == Outcome::Rejected(
                        rejection(nm, input@, remaining@, lastv),
                    ));
                }
                let propagation: PropagatedParseError = match last {
                    LastOutcome::Start => vstd::pervasive::unreached(),
                    LastOutcome::Accepted(sub_name, suppressed) => {
                        let tree: AbstractSyntaxTree = if suppressed {
                            AbstractSyntaxTree::Ignore
                        } else {
                            proof {
                                lemma_tree_views(full_results);
                            }
                            results.pop().unwrap()
                        };
                        proof {
                            assert(tree.to_view() == lastv->Accepted_1);
                        }
                        PropagatedParseError::BecauseSubparserAccepted(sub_name, tree)
                    },
                    LastOutcome::Rejected(e) => PropagatedParseError::BecauseSubparserRejected(
                        Box::new(e),
                    ),
                };
                let mut msg = String::from_str("Brick failed to parse \"");
                msg.append(input);
                msg.append("\". Error occurred when trying to parse \"");
                msg.append(remaining);
                msg.append("\".");
                let err = ParseError {
                    message: msg,
                    parser_name: self.name.clone(),
                    propagation,
                };
                proof {
                    assert(err.to_view().message =~= crate::semantics::automaton_message(
                        input@,
                        remaining@,
                    ));
                    assert(err.to_view() == rejection(nm, input@, remaining@, lastv));
                }
                Err(err)
            },
        }
    }
}

impl Parser for Brick {
    open spec fn node(&self) -> Node {
        self.nodev()
    }

    fn parse<'a>(&self, input: &'a str) -> (r: ParseResult<'a, AbstractSyntaxTree>) {
        self.parse_automaton(input)
    }

    fn get_name_clone(&self) -> (r: String) {
        self.name.clone()
    }
}

} // verus!
