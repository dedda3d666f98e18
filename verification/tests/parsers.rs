use parser_bricks::atoms::{AllWordsFromAlphabet, Alphabet, CharacterFromAlphabet, EndOfInputParser, StringParser};
use parser_bricks::brick::{Brick, ParserIndex};
use parser_bricks::constants::numerics;
use parser_bricks::parser::{Parser, ParserNode};
use std::rc::Rc;

#[test]
fn test_parse_all_words_from_alphabet() {
    let parse_numbers = Rc::new(AllWordsFromAlphabet {
        name: "numerics".to_string(),
        alphabet: numerics(),
        allow_empty_word: false,
    });
    assert!(parse_numbers.parse("123").is_ok());
    assert!(parse_numbers.parse("+").is_err());
    assert!(parse_numbers.parse("").is_err());
}

#[test]
fn test_expression() {
    // A simplified version of a ternary-expression rule:
    // Expression: "disjunction" " if " "disjunction" " else " Expression
    //           | "disjunction"
    //           | "lambda"
    let disjunction_string = Rc::new(ParserNode::Text(StringParser::new("disjunction")));
    let lambda = Rc::new(ParserNode::Text(StringParser::new("lambda")));
    let _if = Rc::new(ParserNode::Text(StringParser::new(" if ")));
    let _else = Rc::new(ParserNode::Text(StringParser::new(" else ")));

    let chain = Rc::new(ParserNode::Composite(Brick::make_linear(
        "ternary_operator",
        vec![
            disjunction_string.clone(),
            _if.clone(),
            disjunction_string.clone(),
            _else.clone(),
        ],
    )));
    let mut expression = Brick::new(
        "expression",
        vec![chain.clone(), disjunction_string.clone(), lambda.clone()],
    );

    // After the chain, a new expression must follow: loop back to index 0.
    expression.on_success[0] = ParserIndex::Index(0);
    // If the chain fails, the expression may be just "disjunction".
    expression.on_failure[0] = ParserIndex::Index(1);
    expression.on_success[1] = ParserIndex::AcceptingState;
    expression.on_failure[1] = ParserIndex::Index(2);
    expression.on_success[2] = ParserIndex::AcceptingState;
    expression.on_failure[2] = ParserIndex::RejectingState;

    let expression = Rc::new(ParserNode::Composite(expression));
    let eof = Rc::new(ParserNode::End(EndOfInputParser));
    let mut parser = Brick::new("only_expression", vec![expression.clone(), eof.clone()]);
    parser.on_success[0] = ParserIndex::Index(1);
    parser.on_failure[0] = ParserIndex::RejectingState;
    parser.on_success[1] = ParserIndex::AcceptingState;
    parser.on_failure[1] = ParserIndex::RejectingState;

    assert!(parser.parse("lambda").is_ok());
    assert!(parser.parse("disjunction").is_ok());
    assert!(parser.parse("if").is_err());
    assert!(parser.parse("else").is_err());
    assert!(parser.parse("").is_err());
    assert!(parser.parse("disjunction if disjunction else lambda").is_ok());
    assert!(
        parser
            .parse("disjunction if disjunction else disjunction if disjunction else lambda")
            .is_ok()
    );
    assert!(
        parser
            .parse("disjunction if disjunction else disjunction if disjunction else disjunction")
            .is_ok()
    );
    assert!(parser.parse("disjunction if disjunction else").is_err());
}

#[test]
fn test_chain_of_operations() {
    // A parser that matches operations like 123, 123+456, and 123+456/789.
    let parse_numbers = Rc::new(ParserNode::Word(AllWordsFromAlphabet {
        name: "numerics".to_string(),
        alphabet: numerics(),
        allow_empty_word: false,
    }));
    let operators = Rc::new(Alphabet::from_chars("+-*/"));
    let parse_operator = Rc::new(ParserNode::OneChar(CharacterFromAlphabet {
        name: "operator".to_string(),
        alphabet: operators,
    }));
    let parse_operation = Rc::new(ParserNode::Composite(Brick::make_separated(
        "operation",
        parse_numbers.clone(),
        parse_operator.clone(),
        false,
    )));
    let eof = Rc::new(ParserNode::End(EndOfInputParser));
    let parser = Brick::make_linear("only_operation", vec![parse_operation.clone(), eof.clone()]);

    assert!(parser.parse("").is_err());
    assert!(parser.parse("+").is_err());
    assert!(parser.parse("123").is_ok());
    assert!(parser.parse("123+").is_err());
    assert!(parser.parse("123+456").is_ok());
    assert!(parser.parse("0/0").is_ok());
    assert!(parser.parse("0/2*2").is_ok());
    assert!(parser.parse("1").is_ok());
    assert!(parser.parse("12+21+12/12-65").is_ok());
    assert!(parser.parse("+12").is_err());
    assert!(parser.parse("-12").is_err());
    assert!(parser.parse("/").is_err());
}
