use parser_bricks::atoms::{AllWordsFromAlphabet, Alphabet, CharacterFromAlphabet, EndOfInputParser, StringParser};
use parser_bricks::brick::{Brick, ParserIndex};
use parser_bricks::constants::{lowercase_english, numerics, uppercase_english};
use parser_bricks::ignore::Ignore;
use parser_bricks::parser::{AbstractSyntaxTree, Parser, ParserNode};
use parser_bricks::utils::{ParseError, PropagatedParseError};
use std::rc::Rc;

#[test]
fn literal_matcher_consumes_exactly_its_pattern() {
    let p = StringParser::new("abc");
    let (remaining, tree) = p.parse("abcdef").unwrap();
    assert_eq!(remaining, "def");
    assert_eq!(
        tree,
        AbstractSyntaxTree::Leaf("abc".to_string(), "abc".to_string())
    );
    assert_eq!(p.get_name_clone(), "abc".to_string());
}

#[test]
fn literal_matcher_reports_first_mismatch() {
    let p = StringParser::new("aby");
    let e = p.parse("abx").unwrap_err();
    assert_eq!(e.parser_name, "aby".to_string());
    assert_eq!(e.message, "expected \"y\" but got \"x\"".to_string());
    assert_eq!(
        e.propagation,
        PropagatedParseError::Atomic("x".to_string(), "y".to_string())
    );
}

#[test]
fn literal_matcher_reports_exhaustion() {
    let p = StringParser::new("abc");
    let e = p.parse("ab").unwrap_err();
    assert_eq!(e.message, "exhausted input but expected \"c\"".to_string());
    assert_eq!(
        e.propagation,
        PropagatedParseError::Atomic("".to_string(), "c".to_string())
    );
}

#[test]
fn character_from_alphabet_takes_one_character() {
    let p = CharacterFromAlphabet {
        name: "letter".to_string(),
        alphabet: lowercase_english(),
    };
    let (remaining, tree) = p.parse("ab").unwrap();
    assert_eq!(remaining, "b");
    assert_eq!(
        tree,
        AbstractSyntaxTree::Leaf("letter".to_string(), "a".to_string())
    );
    let e = p.parse("AB").unwrap_err();
    assert_eq!(
        e.message,
        "Expected a character from the alphabet \"abcdefghijklmnopqrstuvwxyz\" but found \"A\"."
            .to_string()
    );
    assert!(matches!(e.propagation, PropagatedParseError::Atomic(_, _)));
    assert!(p.parse("").is_err());
    let upper = CharacterFromAlphabet {
        name: "upper".to_string(),
        alphabet: uppercase_english(),
    };
    assert!(upper.parse("AB").is_ok());
}

#[test]
fn word_run_fails_exactly_on_empty_prefix() {
    let digits = AllWordsFromAlphabet {
        name: "digits".to_string(),
        alphabet: numerics(),
        allow_empty_word: false,
    };
    let (remaining, tree) = digits.parse("12x3").unwrap();
    assert_eq!(remaining, "x3");
    assert_eq!(
        tree,
        AbstractSyntaxTree::Leaf("digits".to_string(), "12".to_string())
    );
    assert!(digits.parse("x12").is_err());
    assert!(digits.parse("").is_err());

    let lax = AllWordsFromAlphabet {
        name: "digits".to_string(),
        alphabet: numerics(),
        allow_empty_word: true,
    };
    let (remaining, tree) = lax.parse("x").unwrap();
    assert_eq!(remaining, "x");
    assert_eq!(
        tree,
        AbstractSyntaxTree::Leaf("digits".to_string(), "".to_string())
    );
}

#[test]
fn end_of_input_accepts_only_empty_input() {
    let p = EndOfInputParser;
    let (remaining, tree) = p.parse("").unwrap();
    assert_eq!(remaining, "");
    assert_eq!(tree, AbstractSyntaxTree::Ignore);
    let e = p.parse("x").unwrap_err();
    assert_eq!(e.parser_name, "end_of_input".to_string());
    assert_eq!(
        e.propagation,
        PropagatedParseError::Atomic("x".to_string(), "".to_string())
    );
}

#[test]
fn ignore_advances_input_but_suppresses_the_value() {
    let w = Ignore::new(Rc::new(ParserNode::Text(StringParser::new("abc"))));
    assert_eq!(w.get_name_clone(), "ignore_abc".to_string());
    let (remaining, tree) = w.parse("abcdef").unwrap();
    assert_eq!(remaining, "def");
    assert_eq!(tree, AbstractSyntaxTree::Ignore);
    assert!(w.parse("xyz").is_err());
}

#[test]
fn sequence_collects_children_in_order_and_filters_suppressed() {
    let a = Rc::new(ParserNode::Text(StringParser::new("a")));
    let b = Rc::new(ParserNode::Silent(Ignore::new(Rc::new(ParserNode::Text(
        StringParser::new("b"),
    )))));
    let c = Rc::new(ParserNode::Text(StringParser::new("c")));
    let seq = Brick::make_linear("seq", vec![a, b, c]);
    let (remaining, tree) = seq.parse("abcd").unwrap();
    assert_eq!(remaining, "d");
    assert_eq!(
        tree,
        AbstractSyntaxTree::Branch(
            "seq".to_string(),
            vec![
                AbstractSyntaxTree::Leaf("a".to_string(), "a".to_string()),
                AbstractSyntaxTree::Leaf("c".to_string(), "c".to_string()),
            ]
        )
    );
}

#[test]
fn sequence_failure_wraps_the_first_failing_subparser() {
    let a = Rc::new(ParserNode::Text(StringParser::new("a")));
    let b = Rc::new(ParserNode::Text(StringParser::new("b")));
    let seq = Brick::make_linear("seq", vec![a, b]);
    let e = seq.parse("ax").unwrap_err();
    assert_eq!(e.parser_name, "seq".to_string());
    match e.propagation {
        PropagatedParseError::BecauseSubparserRejected(inner) => {
            assert_eq!(inner.parser_name, "b".to_string());
            assert_eq!(
                inner.propagation,
                PropagatedParseError::Atomic("x".to_string(), "b".to_string())
            );
        }
        other => panic!("unexpected propagation: {:?}", other),
    }
}

#[test]
fn alternation_takes_the_first_success_on_the_original_input() {
    let ab = Rc::new(ParserNode::Text(StringParser::new("ab")));
    let a = Rc::new(ParserNode::Text(StringParser::new("a")));
    let alt = Brick::make_disjunction("alt", vec![ab.clone(), a.clone()]);
    // "ab" wins even though "a" would also match; input is not consumed by
    // the failed trial of the other order.
    let (remaining, tree) = alt.parse("ab!").unwrap();
    assert_eq!(remaining, "!");
    assert_eq!(
        tree,
        AbstractSyntaxTree::Branch(
            "alt".to_string(),
            vec![AbstractSyntaxTree::Leaf("ab".to_string(), "ab".to_string())]
        )
    );
    let (remaining, _) = alt.parse("ax").unwrap();
    assert_eq!(remaining, "x");

    let e = alt.parse("zz").unwrap_err();
    match e.propagation {
        PropagatedParseError::BecauseSubparserRejected(inner) => {
            // the last failure is retained
            assert_eq!(inner.parser_name, "a".to_string());
        }
        other => panic!("unexpected propagation: {:?}", other),
    }
}

#[test]
fn optional_never_fails_and_consumes_nothing_on_failure() {
    let a = Rc::new(ParserNode::Text(StringParser::new("a")));
    let opt = Brick::maybe("opt", a);
    let (remaining, tree) = opt.parse("xyz").unwrap();
    assert_eq!(remaining, "xyz");
    assert_eq!(tree, AbstractSyntaxTree::Branch("opt".to_string(), vec![]));
    let (remaining, tree) = opt.parse("abc").unwrap();
    assert_eq!(remaining, "bc");
    assert_eq!(
        tree,
        AbstractSyntaxTree::Branch(
            "opt".to_string(),
            vec![AbstractSyntaxTree::Leaf("a".to_string(), "a".to_string())]
        )
    );
}

#[test]
fn separated_list_accepts_and_rejects_the_expected_strings() {
    let digits = Rc::new(ParserNode::Word(AllWordsFromAlphabet {
        name: "digits".to_string(),
        alphabet: numerics(),
        allow_empty_word: false,
    }));
    let operator = Rc::new(ParserNode::OneChar(CharacterFromAlphabet {
        name: "operator".to_string(),
        alphabet: Rc::new(Alphabet::from_chars("+-")),
    }));
    let list = Brick::make_separated("list", digits, operator, false);
    assert!(list.parse("123").is_ok());
    assert!(list.parse("123+456").is_ok());
    assert!(list.parse("1+2+3-4").is_ok());
    assert!(list.parse("").is_err());
    assert!(list.parse("+").is_err());
    assert!(list.parse("123+").is_err());
    assert!(list.parse("+123").is_err());
}

#[test]
fn separated_list_with_trailing_flag_accepts_one_trailing_separator() {
    let digits = Rc::new(ParserNode::Word(AllWordsFromAlphabet {
        name: "digits".to_string(),
        alphabet: numerics(),
        allow_empty_word: false,
    }));
    let operator = Rc::new(ParserNode::OneChar(CharacterFromAlphabet {
        name: "operator".to_string(),
        alphabet: Rc::new(Alphabet::from_chars("+-")),
    }));
    let list = Brick::make_separated("ops", digits, operator, true);
    let (remaining, _) = list.parse("1+2").unwrap();
    assert_eq!(remaining, "");
    let (remaining, _) = list.parse("123").unwrap();
    assert_eq!(remaining, "");
    // The decisive inputs: a single trailing separator is consumed, and it
    // contributes no child.
    let (remaining, tree) = list.parse("1+").unwrap();
    assert_eq!(remaining, "");
    assert_eq!(
        tree,
        AbstractSyntaxTree::Branch(
            "ops".to_string(),
            vec![AbstractSyntaxTree::Leaf("digits".to_string(), "1".to_string())]
        )
    );
    let (remaining, _) = list.parse("1+2+").unwrap();
    assert_eq!(remaining, "");
    // A second trailing separator is not part of the list.
    let (remaining, _) = list.parse("1++").unwrap();
    assert_eq!(remaining, "+");
    // Still at least one element.
    assert!(list.parse("").is_err());
    assert!(list.parse("+").is_err());
}

#[test]
fn rejection_after_success_names_the_accepted_subparser() {
    let a = Rc::new(ParserNode::Text(StringParser::new("a")));
    let mut brick = Brick::new("strict", vec![a]);
    // Route even the success to the rejecting terminal.
    brick.on_success[0] = ParserIndex::RejectingState;
    let e = brick.parse("abc").unwrap_err();
    assert_eq!(e.parser_name, "strict".to_string());
    assert_eq!(
        e.message,
        "Brick failed to parse \"abc\". Error occurred when trying to parse \"bc\".".to_string()
    );
    match e.propagation {
        PropagatedParseError::BecauseSubparserAccepted(name, tree) => {
            assert_eq!(name, "a".to_string());
            assert_eq!(
                tree,
                AbstractSyntaxTree::Leaf("a".to_string(), "a".to_string())
            );
        }
        other => panic!("unexpected propagation: {:?}", other),
    }
}

#[test]
fn parse_error_new_builds_the_given_error() {
    let e = ParseError::new(
        "message".to_string(),
        "name".to_string(),
        PropagatedParseError::Atomic("x".to_string(), "y".to_string()),
    );
    assert_eq!(e.message, "message".to_string());
    assert_eq!(e.parser_name, "name".to_string());
    assert_eq!(
        e.propagation,
        PropagatedParseError::Atomic("x".to_string(), "y".to_string())
    );
}
