//! Laws of the library, proved against the specification interpreter: what
//! the leaf recognizers accept, and how the sequence, alternation and
//! optional automata behave for every choice of sub-parsers and input.

use crate::brick::ParserIndex;
use crate::parser::TreeView;
use crate::semantics::{
    all_rejecting, disjunction_failure, disjunction_node, divergence_from, eval, linear_node,
    linear_success, maybe_node, node_name, rejection, run_end, starts_with, walk, walk_budget, wf,
    LastStep, Node, Outcome,
};
use crate::utils::ErrorView;
use vstd::prelude::*;

verus! {

proof fn lemma_divergence_from(input: Seq<char>, pattern: Seq<char>, i: int)
    requires
        0 <= i <= pattern.len(),
        i <= input.len(),
    ensures
        ({
            let d = divergence_from(input, pattern, i);
            &&& i <= d <= pattern.len()
            &&& d <= input.len()
            &&& forall|k: int| i <= k < d ==> input[k] == pattern[k]
            &&& d < pattern.len() ==> (d >= input.len() || input[d] != pattern[d])
        }),
    decreases pattern.len() - i,
{
    if i < pattern.len() && i < input.len() && input[i] == pattern[i] {
        lemma_divergence_from(input, pattern, i + 1);
    }
}

/// Law: the literal matcher accepts exactly the inputs that start with its
/// pattern, consuming it and leaving the rest; otherwise it fails with an
/// `Atomic` cause citing the first mismatched character, or exhaustion.
pub proof fn lemma_literal_matcher(name: Seq<char>, pattern: Seq<char>, input: Seq<char>)
    ensures
        eval(Node::Literal { name, pattern }, input) is Accepted <==> starts_with(input, pattern),
        starts_with(input, pattern) ==> eval(Node::Literal { name, pattern }, input)
            == Outcome::Accepted(
            input.skip(pattern.len() as int),
            TreeView::Leaf(name, pattern),
        ),
        !starts_with(input, pattern) ==> ({
            let d = divergence_from(input, pattern, 0);
            let e = eval(Node::Literal { name, pattern }, input)->Rejected_0;
            &&& 0 <= d < pattern.len()
            &&& forall|k: int| 0 <= k < d ==> input[k] == pattern[k]
            &&& e.parser_name == name
            &&& e.propagation == (if d >= input.len() {
                crate::utils::PropagationView::Atomic(Seq::empty(), seq![pattern[d]])
            } else {
                crate::utils::PropagationView::Atomic(seq![input[d]], seq![pattern[d]])
            })
        }),
{
    lemma_divergence_from(input, pattern, 0);
    let d = divergence_from(input, pattern, 0);
    if starts_with(input, pattern) {
        assert forall|k: int| 0 <= k < pattern.len() implies input[k] == pattern[k] by {
            assert(input.take(pattern.len() as int)[k] == input[k]);
        }
        assert(d == pattern.len());
    } else {
        if d == pattern.len() {
            assert(input.take(pattern.len() as int) =~= pattern);
        }
        assert(d < pattern.len());
    }
}

proof fn lemma_run_end(input: Seq<char>, alphabet: Set<char>, i: int)
    requires
        0 <= i <= input.len(),
    ensures
        ({
            let e = run_end(input, alphabet, i);
            &&& i <= e <= input.len()
            &&& forall|k: int| i <= k < e ==> alphabet.contains(input[k])
            &&& e < input.len() ==> !alphabet.contains(input[e])
        }),
    decreases input.len() - i,
{
    if i < input.len() && alphabet.contains(input[i]) {
        lemma_run_end(input, alphabet, i + 1);
    }
}

/// Law: with empty words disallowed, the maximal-run matcher fails exactly
/// when the longest prefix of characters from the alphabet is empty; when
/// that prefix is non-empty it is consumed and returned as the leaf text.
pub proof fn lemma_word_run(name: Seq<char>, alphabet: Set<char>, listing: Seq<char>, input: Seq<char>)
    ensures
        ({
            let e = run_end(input, alphabet, 0);
            let o = eval(Node::WordRun { name, alphabet, allow_empty: false, listing }, input);
            &&& 0 <= e <= input.len()
            &&& (forall|k: int| 0 <= k < e ==> alphabet.contains(input[k]))
            &&& (e < input.len() ==> !alphabet.contains(input[e]))
            &&& (o is Rejected <==> e == 0)
            &&& (e > 0 ==> o == Outcome::Accepted(
                input.skip(e),
                TreeView::Leaf(name, input.take(e)),
            ))
        }),
{
    lemma_run_end(input, alphabet, 0);
}

/// Law: the end-of-input matcher accepts exactly the empty input, consumes
/// nothing, and produces no visible tree value.
pub proof fn lemma_end_of_input(input: Seq<char>)
    ensures
        eval(Node::EndOfInput, input) is Accepted <==> input.len() == 0,
        input.len() == 0 ==> eval(Node::EndOfInput, input) == Outcome::Accepted(
            input,
            TreeView::Suppressed,
        ),
{
}

/// How a sequence of parsers runs on an input: each parser in turn on the
/// remainder the previous one left, collecting the non-suppressed values,
/// stopping at the first failure (which reports the remainder it was given).
pub enum SequenceOutcome {
    Done(Seq<char>, Seq<TreeView>),
    Failed(ErrorView, Seq<char>),
}

pub open spec fn eval_sequence(parsers: Seq<Node>, input: Seq<char>) -> SequenceOutcome
    decreases parsers.len(),
{
    if parsers.len() == 0 {
        SequenceOutcome::Done(input, Seq::empty())
    } else {
        match eval(parsers[0], input) {
            Outcome::Accepted(rem, t) => match eval_sequence(parsers.skip(1), rem) {
                SequenceOutcome::Done(rem2, ts) => SequenceOutcome::Done(
                    rem2,
                    (if t is Suppressed {
                        Seq::empty()
                    } else {
                        seq![t]
                    }) + ts,
                ),
                SequenceOutcome::Failed(e, rr) => SequenceOutcome::Failed(e, rr),
            },
            Outcome::Rejected(e) => SequenceOutcome::Failed(e, input),
        }
    }
}

proof fn lemma_linear_walk(
    name: Seq<char>,
    parsers: Seq<Node>,
    original: Seq<char>,
    remaining: Seq<char>,
    i: int,
    results: Seq<TreeView>,
    last: LastStep,
    fuel: nat,
)
    requires
        parsers.len() <= usize::MAX,
        0 <= i < parsers.len(),
        fuel >= parsers.len() - i,
    ensures
        ({
            let w = walk(
                name,
                parsers,
                linear_success(parsers.len()),
                all_rejecting(parsers.len()),
                original,
                remaining,
                ParserIndex::Index(i as usize),
                results,
                last,
                fuel,
            );
            match eval_sequence(parsers.skip(i), remaining) {
                SequenceOutcome::Done(rem, ts) => w == Outcome::Accepted(
                    rem,
                    TreeView::Branch(name, results + ts),
                ),
                SequenceOutcome::Failed(e, rr) => w == Outcome::Rejected(
                    rejection(name, original, rr, LastStep::Rejected(e)),
                ),
            }
        }),
    decreases parsers.len() - i,
{
    reveal_with_fuel(walk, 3);
    reveal_with_fuel(eval_sequence, 2);
    let tail = parsers.skip(i);
    assert(tail[0] == parsers[i]);
    assert(tail.skip(1) =~= parsers.skip(i + 1));
    match eval(parsers[i], remaining) {
        Outcome::Accepted(rem, t) => {
            let results2 = if t is Suppressed {
                results
            } else {
                results.push(t)
            };
            if i == parsers.len() - 1 {
                assert(parsers.skip(i + 1).len() == 0);
                match eval_sequence(parsers.skip(i), remaining) {
                    SequenceOutcome::Done(rem2, ts) => {
                        if t is Suppressed {
                            assert(results + (Seq::<TreeView>::empty() + Seq::empty())
                                =~= results);
                        } else {
                            assert(results + (seq![t] + Seq::<TreeView>::empty())
                                =~= results.push(t));
                        }
                    },
                    SequenceOutcome::Failed(e, rr) => {
                        assert(false);
                    },
                }
            } else {
                lemma_linear_walk(
                    name,
                    parsers,
                    original,
                    rem,
                    i + 1,
                    results2,
                    LastStep::Accepted(node_name(parsers[i]), t),
                    (fuel - 1) as nat,
                );
                match eval_sequence(parsers.skip(i + 1), rem) {
                    SequenceOutcome::Done(rem2, ts) => {
                        if t is Suppressed {
                            assert(results + (Seq::<TreeView>::empty() + ts) =~= results + ts);
                        } else {
                            assert(results + (seq![t] + ts) =~= results.push(t) + ts);
                        }
                    },
                    SequenceOutcome::Failed(e, rr) => {},
                }
            }
        },
        Outcome::Rejected(e) => {},
    }
}

/// Law: a sequence automaton accepts exactly when each of its sub-parsers
/// accepts in order on the progressively reduced remainder; its branch
/// children are the non-suppressed results in order, and on the first
/// sub-parser failure it rejects, wrapping that failure as the cause.
pub proof fn lemma_sequence_automaton(name: Seq<char>, parsers: Seq<Node>, input: Seq<char>)
    requires
        1 <= parsers.len() <= usize::MAX,
    ensures
        ({
            let o = eval(linear_node(name, parsers), input);
            match eval_sequence(parsers, input) {
                SequenceOutcome::Done(rem, ts) => o == Outcome::Accepted(
                    rem,
                    TreeView::Branch(name, ts),
                ),
                SequenceOutcome::Failed(e, rr) => o == Outcome::Rejected(
                    rejection(name, input, rr, LastStep::Rejected(e)),
                ),
            }
        }),
{
    lemma_linear_walk(
        name,
        parsers,
        input,
        input,
        0,
        Seq::empty(),
        LastStep::Start,
        walk_budget(),
    );
    assert(parsers.skip(0) =~= parsers);
    match eval_sequence(parsers, input) {
        SequenceOutcome::Done(rem, ts) => {
            assert(Seq::<TreeView>::empty() + ts =~= ts);
        },
        SequenceOutcome::Failed(e, rr) => {},
    }
}

/// How an alternation runs on an input: the first accepting parser's result,
/// or the last failure when all reject; every trial gets the same input.
pub enum AlternationOutcome {
    FirstWin(Seq<char>, TreeView),
    AllFailed(ErrorView),
}

pub open spec fn eval_alternation(parsers: Seq<Node>, input: Seq<char>) -> AlternationOutcome
    decreases parsers.len(),
{
    match eval(parsers[0], input) {
        Outcome::Accepted(rem, t) => AlternationOutcome::FirstWin(rem, t),
        Outcome::Rejected(e) => if parsers.len() <= 1 {
            AlternationOutcome::AllFailed(e)
        } else {
            eval_alternation(parsers.skip(1), input)
        },
    }
}

proof fn lemma_disjunction_walk(
    name: Seq<char>,
    parsers: Seq<Node>,
    original: Seq<char>,
    remaining: Seq<char>,
    i: int,
    results: Seq<TreeView>,
    last: LastStep,
    fuel: nat,
)
    requires
        parsers.len() <= usize::MAX,
        0 <= i < parsers.len(),
        fuel >= parsers.len() - i,
    ensures
        ({
            let w = walk(
                name,
                parsers,
                crate::semantics::all_accepting(parsers.len()),
                disjunction_failure(parsers.len()),
                original,
                remaining,
                ParserIndex::Index(i as usize),
                results,
                last,
                fuel,
            );
            match eval_alternation(parsers.skip(i), remaining) {
                AlternationOutcome::FirstWin(rem, t) => w == Outcome::Accepted(
                    rem,
                    TreeView::Branch(
                        name,
                        results + (if t is Suppressed {
                            Seq::empty()
                        } else {
                            seq![t]
                        }),
                    ),
                ),
                AlternationOutcome::AllFailed(e) => w == Outcome::Rejected(
                    rejection(name, original, remaining, LastStep::Rejected(e)),
                ),
            }
        }),
    decreases parsers.len() - i,
{
    reveal_with_fuel(walk, 3);
    reveal_with_fuel(eval_alternation, 2);
    let tail = parsers.skip(i);
    assert(tail[0] == parsers[i]);
    assert(tail.skip(1) =~= parsers.skip(i + 1));
    match eval(parsers[i], remaining) {
        Outcome::Accepted(rem, t) => {
            if t is Suppressed {
                assert(results + Seq::<TreeView>::empty() =~= results);
            } else {
                assert(results + seq![t] =~= results.push(t));
            }
        },
        Outcome::Rejected(e) => {
            if i < parsers.len() - 1 {
                lemma_disjunction_walk(
                    name,
                    parsers,
                    original,
                    remaining,
                    i + 1,
                    results,
                    LastStep::Rejected(e),
                    (fuel - 1) as nat,
                );
            }
        },
    }
}

/// Law: an alternation automaton tries its sub-parsers strictly in order,
/// each against the same unconsumed input, and accepts with the result of
/// the first that accepts; it rejects only when all reject, wrapping the
/// last failure as the cause.
pub proof fn lemma_alternation_automaton(name: Seq<char>, parsers: Seq<Node>, input: Seq<char>)
    requires
        1 <= parsers.len() <= usize::MAX,
    ensures
        ({
            let o = eval(disjunction_node(name, parsers), input);
            match eval_alternation(parsers, input) {
                AlternationOutcome::FirstWin(rem, t) => o == Outcome::Accepted(
                    rem,
                    TreeView::Branch(
                        name,
                        if t is Suppressed {
                            Seq::empty()
                        } else {
                            seq![t]
                        },
                    ),
                ),
                AlternationOutcome::AllFailed(e) => o == Outcome::Rejected(
                    rejection(name, input, input, LastStep::Rejected(e)),
                ),
            }
        }),
{
    lemma_disjunction_walk(
        name,
        parsers,
        input,
        input,
        0,
        Seq::empty(),
        LastStep::Start,
        walk_budget(),
    );
    assert(parsers.skip(0) =~= parsers);
    match eval_alternation(parsers, input) {
        AlternationOutcome::FirstWin(rem, t) => {
            if t is Suppressed {
                assert(Seq::<TreeView>::empty() + Seq::<TreeView>::empty()
                    =~= Seq::<TreeView>::empty());
            } else {
                assert(Seq::<TreeView>::empty() + seq![t] =~= seq![t]);
            }
        },
        AlternationOutcome::AllFailed(e) => {},
    }
}

/// The values a tree contributes to an enclosing branch: none when it is
/// suppressed, itself otherwise.
pub open spec fn visible(t: TreeView) -> Seq<TreeView> {
    if t is Suppressed {
        Seq::empty()
    } else {
        seq![t]
    }
}

/// How a separated list continues after an element success: while the
/// separator accepts, an element must follow it; the list ends exactly when
/// the separator fails, consuming nothing further. `rounds` bounds the
/// recursion; it is never reached when the element consumes input on every
/// success, which the law below requires.
pub enum SeparatedOutcome {
    Done(Seq<char>, Seq<TreeView>),
    ElementFailed(ErrorView, Seq<char>),
}

pub open spec fn separated_rest(
    element: Node,
    separator: Node,
    remaining: Seq<char>,
    rounds: nat,
) -> SeparatedOutcome
    decreases rounds,
{
    match eval(separator, remaining) {
        Outcome::Rejected(_) => SeparatedOutcome::Done(remaining, Seq::empty()),
        Outcome::Accepted(r1, ts) => match eval(element, r1) {
            Outcome::Rejected(err) => SeparatedOutcome::ElementFailed(err, r1),
            Outcome::Accepted(r2, te) => {
                if rounds == 0 {
                    SeparatedOutcome::Done(remaining, Seq::empty())
                } else {
                    match separated_rest(element, separator, r2, (rounds - 1) as nat) {
                        SeparatedOutcome::Done(rem, vs) => SeparatedOutcome::Done(
                            rem,
                            visible(ts) + visible(te) + vs,
                        ),
                        SeparatedOutcome::ElementFailed(e, rr) => {
                            SeparatedOutcome::ElementFailed(e, rr)
                        },
                    }
                }
            },
        },
    }
}

proof fn lemma_separated_walk(
    name: Seq<char>,
    element: Node,
    separator: Node,
    original: Seq<char>,
    remaining: Seq<char>,
    results: Seq<TreeView>,
    last: LastStep,
    fuel: nat,
    rounds: nat,
)
    requires
        forall|r: Seq<char>|
            (#[trigger] eval(element, r)) matches Outcome::Accepted(rem, _) ==> rem.len()
                < r.len(),
        rounds > remaining.len(),
        fuel >= 2 * rounds + 2,
    ensures
        ({
            let w = walk(
                name,
                seq![element, separator],
                seq![ParserIndex::Index(1), ParserIndex::Index(0)],
                seq![ParserIndex::RejectingState, ParserIndex::AcceptingState],
                original,
                remaining,
                ParserIndex::Index(1),
                results,
                last,
                fuel,
            );
            match separated_rest(element, separator, remaining, rounds) {
                SeparatedOutcome::Done(rem, vs) => w == Outcome::Accepted(
                    rem,
                    TreeView::Branch(name, results + vs),
                ),
                SeparatedOutcome::ElementFailed(e, rr) => w == Outcome::Rejected(
                    rejection(name, original, rr, LastStep::Rejected(e)),
                ),
            }
        }),
    decreases rounds,
{
    reveal_with_fuel(walk, 4);
    reveal_with_fuel(separated_rest, 2);
    let ps = seq![element, separator];
    assert(ps[0] == element && ps[1] == separator);
    match eval(separator, remaining) {
        Outcome::Rejected(_) => {
            assert(results + Seq::<TreeView>::empty() =~= results);
        },
        Outcome::Accepted(r1, ts) => {
            crate::laws::lemma_remainder_is_suffix(separator, remaining);
            let results1 = if ts is Suppressed {
                results
            } else {
                results.push(ts)
            };
            assert(results1 =~= results + visible(ts));
            match eval(element, r1) {
                Outcome::Rejected(err) => {},
                Outcome::Accepted(r2, te) => {
                    let results2 = if te is Suppressed {
                        results1
                    } else {
                        results1.push(te)
                    };
                    assert(results2 =~= (results + visible(ts)) + visible(te));
                    lemma_separated_walk(
                        name,
                        element,
                        separator,
                        original,
                        r2,
                        results2,
                        LastStep::Accepted(node_name(element), te),
                        (fuel - 2) as nat,
                        (rounds - 1) as nat,
                    );
                    match separated_rest(element, separator, r2, (rounds - 1) as nat) {
                        SeparatedOutcome::Done(rem, vs) => {
                            assert(results2 + vs =~= results + (visible(ts) + visible(te) + vs));
                        },
                        SeparatedOutcome::ElementFailed(e, rr) => {},
                    }
                },
            }
        },
    }
}

/// Law: the separated-list automaton (no trailing separator) parses
/// `element (separator element)*` greedily: the first element must succeed;
/// then, each time the separator accepts on the remainder, an element must
/// follow it, until the separator fails. Its branch children are the
/// interleaved non-suppressed element and separator values, in order; it
/// rejects — wrapping the sub-parse failure — exactly when the first
/// element fails, or an element fails right after a separator success
/// (there is no backtracking over a consumed separator). Stated for element
/// parsers that consume input whenever they succeed: with one that accepts
/// without consuming, the table loops and the walk's budget decides
/// instead.
pub proof fn lemma_separated_automaton(
    name: Seq<char>,
    element: Node,
    separator: Node,
    input: Seq<char>,
)
    requires
        forall|r: Seq<char>|
            (#[trigger] eval(element, r)) matches Outcome::Accepted(rem, _) ==> rem.len()
                < r.len(),
        2 * input.len() + 4 <= usize::MAX,
    ensures
        ({
            let o = eval(crate::semantics::separated_node(name, element, separator), input);
            match eval(element, input) {
                Outcome::Rejected(err) => o == Outcome::Rejected(
                    rejection(name, input, input, LastStep::Rejected(err)),
                ),
                Outcome::Accepted(r1, te) => match separated_rest(
                    element,
                    separator,
                    r1,
                    r1.len() + 1,
                ) {
                    SeparatedOutcome::Done(rem, vs) => o == Outcome::Accepted(
                        rem,
                        TreeView::Branch(name, visible(te) + vs),
                    ),
                    SeparatedOutcome::ElementFailed(e, rr) => o == Outcome::Rejected(
                        rejection(name, input, rr, LastStep::Rejected(e)),
                    ),
                },
            }
        }),
{
    reveal_with_fuel(walk, 3);
    reveal_with_fuel(eval, 2);
    let ps = seq![element, separator];
    assert(ps[0] == element && ps[1] == separator);
    let o = eval(crate::semantics::separated_node(name, element, separator), input);
    let w0 = walk(
        name,
        ps,
        seq![ParserIndex::Index(1), ParserIndex::Index(0)],
        seq![ParserIndex::RejectingState, ParserIndex::AcceptingState],
        input,
        input,
        ParserIndex::Index(0usize),
        Seq::empty(),
        LastStep::Start,
        walk_budget(),
    );
    assert(o == w0);
    match eval(element, input) {
        Outcome::Rejected(err) => {},
        Outcome::Accepted(r1, te) => {
            assert(r1.len() < input.len());
            assert((walk_budget() - 1) as nat >= 2 * (r1.len() + 1) + 2);
            let results1 = if te is Suppressed {
                Seq::<TreeView>::empty()
            } else {
                Seq::<TreeView>::empty().push(te)
            };
            assert(results1 =~= Seq::<TreeView>::empty() + visible(te));
            lemma_separated_walk(
                name,
                element,
                separator,
                input,
                r1,
                results1,
                LastStep::Accepted(node_name(element), te),
                (walk_budget() - 1) as nat,
                r1.len() + 1,
            );
            match separated_rest(element, separator, r1, r1.len() + 1) {
                SeparatedOutcome::Done(rem, vs) => {
                    assert(results1 + vs =~= visible(te) + vs);
                },
                SeparatedOutcome::ElementFailed(e, rr) => {},
            }
        },
    }
}

/// Law: an optional automaton never fails; when its sub-parser fails it
/// consumes nothing and yields an empty branch, and when the sub-parser
/// accepts it passes the result through (suppressed values excepted).
pub proof fn lemma_optional_automaton(name: Seq<char>, inner: Node, input: Seq<char>)
    ensures
        eval(maybe_node(name, inner), input) is Accepted,
        eval(inner, input) is Rejected ==> eval(maybe_node(name, inner), input)
            == Outcome::Accepted(input, TreeView::Branch(name, Seq::empty())),
        eval(inner, input) matches Outcome::Accepted(rem, t) ==> eval(maybe_node(name, inner), input)
            == Outcome::Accepted(
            rem,
            TreeView::Branch(
                name,
                if t is Suppressed {
                    Seq::empty()
                } else {
                    seq![t]
                },
            ),
        ),
{
    reveal_with_fuel(walk, 3);
    reveal_with_fuel(eval, 2);
    let ps = seq![inner];
    assert(ps[0] == inner);
    let o = eval(maybe_node(name, inner), input);
    let w0 = walk(
        name,
        ps,
        seq![ParserIndex::AcceptingState],
        seq![ParserIndex::AcceptingState],
        input,
        input,
        ParserIndex::Index(0usize),
        Seq::empty(),
        LastStep::Start,
        walk_budget(),
    );
    assert(o == w0);
    match eval(inner, input) {
        Outcome::Accepted(rem, t) => {
            if t is Suppressed {
            } else {
                assert(Seq::<TreeView>::empty().push(t) =~= seq![t]);
            }
        },
        Outcome::Rejected(e) => {},
    }
}

/// Law: the table-shape invariant. Every builder recipe yields an automaton
/// whose transition tables are exactly as long as its sub-parser list, with
/// every numeric target in bounds — so the automaton is well-formed whenever
/// its sub-parsers are.
pub proof fn lemma_table_shapes_wf(name: Seq<char>, parsers: Seq<Node>)
    requires
        1 <= parsers.len() <= usize::MAX,
        forall|i: int| 0 <= i < parsers.len() ==> wf(#[trigger] parsers[i]),
    ensures
        wf(crate::semantics::default_node(name, parsers)),
        wf(linear_node(name, parsers)),
        wf(disjunction_node(name, parsers)),
{
    let n = parsers.len() as int;
    assert forall|i: int| 0 <= i < n implies crate::semantics::target_ok(
        #[trigger] linear_success(parsers.len())[i],
        n,
    ) by {
        if i != n - 1 {
            assert(linear_success(parsers.len())[i] == ParserIndex::Index((i + 1) as usize));
        }
    }
    assert forall|i: int| 0 <= i < n implies crate::semantics::target_ok(
        #[trigger] disjunction_failure(parsers.len())[i],
        n,
    ) by {
        if i != n - 1 {
            assert(disjunction_failure(parsers.len())[i] == ParserIndex::Index((i + 1) as usize));
        }
    }
}

/// Law: the optional and separated-list shapes are well-formed whenever
/// their sub-parsers are.
pub proof fn lemma_small_shapes_wf(name: Seq<char>, element: Node, separator: Node)
    requires
        wf(element),
        wf(separator),
    ensures
        wf(maybe_node(name, element)),
        wf(crate::semantics::separated_node(name, element, separator)),
        wf(crate::semantics::separated_trailing_node(name, element, separator)),
{
    lemma_small_trailing_shape_wf(name, element, separator);
    let m = maybe_node(name, element);
    assert(m->Automaton_parsers.len() == 1);
    assert(forall|i: int|
        0 <= i < 1 ==> wf(#[trigger] m->Automaton_parsers[i]) && crate::semantics::target_ok(
            m->Automaton_on_success[i],
            1,
        ) && crate::semantics::target_ok(m->Automaton_on_failure[i], 1));
    let s = crate::semantics::separated_node(name, element, separator);
    assert(forall|i: int|
        0 <= i < 2 ==> wf(#[trigger] s->Automaton_parsers[i]) && crate::semantics::target_ok(
            s->Automaton_on_success[i],
            2,
        ) && crate::semantics::target_ok(s->Automaton_on_failure[i], 2));
}

/// No suppressed sentinel stands among a branch's children, at any depth.
pub open spec fn no_suppressed_children(t: TreeView) -> bool
    decreases t,
{
    match t {
        TreeView::Leaf(_, _) => true,
        TreeView::Suppressed => true,
        TreeView::Branch(_, children) => forall|i: int|
            0 <= i < children.len() ==> !((#[trigger] children[i]) is Suppressed)
                && no_suppressed_children(children[i]),
    }
}

proof fn lemma_walk_no_suppressed(
    name: Seq<char>,
    parsers: Seq<Node>,
    on_success: Seq<ParserIndex>,
    on_failure: Seq<ParserIndex>,
    original: Seq<char>,
    remaining: Seq<char>,
    state: ParserIndex,
    results: Seq<TreeView>,
    last: LastStep,
    fuel: nat,
)
    requires
        forall|i: int|
            0 <= i < results.len() ==> !((#[trigger] results[i]) is Suppressed)
                && no_suppressed_children(results[i]),
    ensures
        walk(
            name,
            parsers,
            on_success,
            on_failure,
            original,
            remaining,
            state,
            results,
            last,
            fuel,
        ) matches Outcome::Accepted(_, t) ==> no_suppressed_children(t),
    decreases parsers, fuel,
{
    match state {
        ParserIndex::AcceptingState => {},
        ParserIndex::RejectingState => {},
        ParserIndex::Index(j) => {
            if fuel == 0 || j >= parsers.len() {
            } else {
                match eval(parsers[j as int], remaining) {
                    Outcome::Accepted(rem2, tree) => {
                        lemma_no_suppressed_in_branches(parsers[j as int], remaining);
                        let results2 = if tree is Suppressed {
                            results
                        } else {
                            results.push(tree)
                        };
                        lemma_walk_no_suppressed(
                            name,
                            parsers,
                            on_success,
                            on_failure,
                            original,
                            rem2,
                            on_success[j as int],
                            results2,
                            LastStep::Accepted(node_name(parsers[j as int]), tree),
                            (fuel - 1) as nat,
                        );
                    },
                    Outcome::Rejected(e) => {
                        lemma_walk_no_suppressed(
                            name,
                            parsers,
                            on_success,
                            on_failure,
                            original,
                            remaining,
                            on_failure[j as int],
                            results,
                            LastStep::Rejected(e),
                            (fuel - 1) as nat,
                        );
                    },
                }
            }
        },
    }
}

/// Law: whatever the parser, an accepted parse's tree never holds the
/// suppressed sentinel among a branch's children — automata filter it out
/// before building their children.
pub proof fn lemma_no_suppressed_in_branches(n: Node, input: Seq<char>)
    ensures
        eval(n, input) matches Outcome::Accepted(_, t) ==> no_suppressed_children(t),
    decreases n, 0nat,
{
    match n {
        Node::Literal { .. } => {},
        Node::OneChar { .. } => {},
        Node::WordRun { .. } => {},
        Node::EndOfInput => {},
        Node::Silent { name, inner } => {},
        Node::Automaton { name, parsers, on_success, on_failure } => {
            lemma_walk_no_suppressed(
                name,
                parsers,
                on_success,
                on_failure,
                input,
                input,
                ParserIndex::Index(0),
                Seq::empty(),
                LastStep::Start,
                walk_budget(),
            );
        },
    }
}

proof fn lemma_small_trailing_shape_wf(name: Seq<char>, element: Node, separator: Node)
    requires
        wf(element),
        wf(separator),
    ensures
        wf(crate::semantics::separated_trailing_node(name, element, separator)),
{
    let cont = linear_node(name + "_continuation"@, seq![separator, element]);
    lemma_table_shapes_wf(name + "_continuation"@, seq![separator, element]);
    let m = maybe_node(name + "_trailing_separator"@, separator);
    assert(forall|i: int|
        0 <= i < 1 ==> wf(#[trigger] m->Automaton_parsers[i]) && crate::semantics::target_ok(
            m->Automaton_on_success[i],
            1,
        ) && crate::semantics::target_ok(m->Automaton_on_failure[i], 1));
    assert(wf(m));
    let silent = Node::Silent {
        name: "ignore_"@ + name + "_trailing_separator"@,
        inner: Box::new(m),
    };
    assert(wf(silent));
    let t = crate::semantics::separated_trailing_node(name, element, separator);
    assert(t->Automaton_parsers == seq![element, cont, silent]);
    assert forall|i: int| 0 <= i < 3 implies wf(#[trigger] t->Automaton_parsers[i])
        && crate::semantics::target_ok(t->Automaton_on_success[i], 3)
        && crate::semantics::target_ok(t->Automaton_on_failure[i], 3) by {
        if i == 0 {
            assert(t->Automaton_parsers[i] == element);
        } else if i == 1 {
            assert(t->Automaton_parsers[i] == cont);
        } else {
            assert(t->Automaton_parsers[i] == silent);
        }
    }
}

/// `rem` is what is left of `s` after removing some prefix.
pub open spec fn is_suffix_of(rem: Seq<char>, s: Seq<char>) -> bool {
    rem.len() <= s.len() && rem == s.skip(s.len() - rem.len())
}

proof fn lemma_suffix_trans(r2: Seq<char>, r1: Seq<char>, r0: Seq<char>)
    requires
        is_suffix_of(r2, r1),
        is_suffix_of(r1, r0),
    ensures
        is_suffix_of(r2, r0),
{
    assert(r0.skip(r0.len() - r1.len()).skip(r1.len() - r2.len()) =~= r0.skip(
        r0.len() - r2.len(),
    ));
}

proof fn lemma_walk_remainder(
    name: Seq<char>,
    parsers: Seq<Node>,
    on_success: Seq<ParserIndex>,
    on_failure: Seq<ParserIndex>,
    original: Seq<char>,
    remaining: Seq<char>,
    state: ParserIndex,
    results: Seq<TreeView>,
    last: LastStep,
    fuel: nat,
)
    ensures
        walk(
            name,
            parsers,
            on_success,
            on_failure,
            original,
            remaining,
            state,
            results,
            last,
            fuel,
        ) matches Outcome::Accepted(rem, _) ==> is_suffix_of(rem, remaining),
    decreases parsers, fuel,
{
    match state {
        ParserIndex::AcceptingState => {
            assert(remaining.skip(0) =~= remaining);
        },
        ParserIndex::RejectingState => {},
        ParserIndex::Index(j) => {
            if fuel == 0 || j >= parsers.len() {
            } else {
                match eval(parsers[j as int], remaining) {
                    Outcome::Accepted(rem2, tree) => {
                        lemma_remainder_is_suffix(parsers[j as int], remaining);
                        lemma_walk_remainder(
                            name,
                            parsers,
                            on_success,
                            on_failure,
                            original,
                            rem2,
                            on_success[j as int],
                            if tree is Suppressed {
                                results
                            } else {
                                results.push(tree)
                            },
                            LastStep::Accepted(node_name(parsers[j as int]), tree),
                            (fuel - 1) as nat,
                        );
                        match walk(
                            name,
                            parsers,
                            on_success,
                            on_failure,
                            original,
                            rem2,
                            on_success[j as int],
                            if tree is Suppressed {
                                results
                            } else {
                                results.push(tree)
                            },
                            LastStep::Accepted(node_name(parsers[j as int]), tree),
                            (fuel - 1) as nat,
                        ) {
                            Outcome::Accepted(rem, _) => {
                                lemma_suffix_trans(rem, rem2, remaining);
                            },
                            Outcome::Rejected(_) => {},
                        }
                    },
                    Outcome::Rejected(e) => {
                        lemma_walk_remainder(
                            name,
                            parsers,
                            on_success,
                            on_failure,
                            original,
                            remaining,
                            on_failure[j as int],
                            results,
                            LastStep::Rejected(e),
                            (fuel - 1) as nat,
                        );
                    },
                }
            }
        },
    }
}

/// Law: whatever the parser, an accepted parse leaves a remainder that is
/// the input with the matched prefix removed.
pub proof fn lemma_remainder_is_suffix(n: Node, input: Seq<char>)
    ensures
        eval(n, input) matches Outcome::Accepted(rem, _) ==> is_suffix_of(rem, input),
    decreases n, 0nat,
{
    match n {
        Node::Literal { name, pattern } => {
            if divergence_from(input, pattern, 0) == pattern.len() {
                lemma_divergence_from(input, pattern, 0);
            }
        },
        Node::OneChar { .. } => {},
        Node::WordRun { name, alphabet, allow_empty, listing } => {
            lemma_run_end(input, alphabet, 0);
        },
        Node::EndOfInput => {
            assert(input.skip(0) =~= input);
        },
        Node::Silent { name, inner } => {
            lemma_remainder_is_suffix(*inner, input);
        },
        Node::Automaton { name, parsers, on_success, on_failure } => {
            lemma_walk_remainder(
                name,
                parsers,
                on_success,
                on_failure,
                input,
                input,
                ParserIndex::Index(0),
                Seq::empty(),
                LastStep::Start,
                walk_budget(),
            );
        },
    }
}

} // verus!
