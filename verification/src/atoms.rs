//! Leaf recognizers: exact text, one character from an alphabet, the maximal
//! run of characters from an alphabet, and end of input. Each consumes a
//! prefix of its input atomically or fails with an `Atomic` cause.

use crate::parser::{AbstractSyntaxTree, Parser};
use crate::semantics::{
    divergence_from, eval, eval_end_of_input, eval_literal, eval_one_char, eval_word, node_name,
    run_end, Node, Outcome,
};
use crate::utils::{ParseError, ParseResult, PropagatedParseError};
use std::rc::Rc;
use vstd::prelude::*;
use vstd::string::{StrSliceExecFns, StringExecFns};

verus! {

/// The set of characters named by a sequence.
pub open spec fn char_set(s: Seq<char>) -> Set<char> {
    Set::new(|c: char| s.contains(c))
}

/// A finite set of characters, the configuration of the character-class
/// recognizers. `text` is the listing quoted in diagnostics.
pub struct Alphabet {
    pub chars: Vec<char>,
    pub text: String,
}

impl View for Alphabet {
    type V = Set<char>;

    open spec fn view(&self) -> Set<char> {
        char_set(self.chars@)
    }
}

impl Alphabet {
    /// The listing of this alphabet's characters, as quoted in diagnostics.
    pub open spec fn listing(&self) -> Seq<char> {
        self.text@
    }

    /// An alphabet holding exactly the characters of `s`.
    pub fn from_chars(s: &str) -> (a: Alphabet)
        ensures
            a@ == char_set(s@),
            a.listing() == s@,
    {
        let len: usize = s.unicode_len();
        let mut chars: Vec<char> = Vec::new();
        let mut i: usize = 0;
        while i < len
            invariant
                i <= len,
                len == s@.len(),
                chars@ == s@.take(i as int),
            decreases len - i,
        {
            chars.push(s.get_char(i));
            proof {
                assert(chars@ =~= s@.take(i + 1));
            }
            i = i + 1;
        }
        proof {
            assert(chars@ =~= s@);
        }
        Alphabet { chars, text: String::from_str(s) }
    }

    pub fn contains(&self, c: char) -> (b: bool)
        ensures
            b == self@.contains(c),
    {
        let mut k: usize = 0;
        while k < self.chars.len()
            invariant
                k <= self.chars@.len(),
                forall|j: int| 0 <= j < k ==> self.chars@[j] != c,
            decreases self.chars@.len() - k,
        {
            if self.chars[k] == c {
                return true;
            }
            k = k + 1;
        }
        proof {
            assert(!self.chars@.contains(c));
        }
        false
    }
}

/// Succeeds exactly when the input starts with its configured text.
pub struct StringParser {
    pub name: String,
    pub string: String,
}

impl StringParser {
    pub fn new(string: &str) -> (p: StringParser)
        ensures
            p.name@ == string@,
            p.string@ == string@,
    {
        StringParser { name: String::from_str(string), string: String::from_str(string) }
    }
}

impl Parser for StringParser {
    open spec fn node(&self) -> Node {
        Node::Literal { name: self.name@, pattern: self.string@ }
    }

    fn parse<'a>(&self, input: &'a str) -> (r: ParseResult<'a, AbstractSyntaxTree>) {
        let pat: &str = self.string.as_str();
        let n: usize = pat.unicode_len();
        let in_len: usize = input.unicode_len();
        let mut i: usize = 0;
        while i < n
            invariant
                i <= n,
                n == self.string@.len(),
                in_len == input@.len(),
                pat@ == self.string@,
                i == 0 || i <= in_len,
                divergence_from(input@, self.string@, 0) == divergence_from(
                    input@,
                    self.string@,
                    i as int,
                ),
            decreases n - i,
        {
            if i >= in_len {
                let mut msg = String::from_str("exhausted input but expected \"");
                msg.append(pat.substring_char(i, i + 1));
                msg.append("\"");
                let err = ParseError {
                    message: msg,
                    parser_name: self.name.clone(),
                    propagation: PropagatedParseError::Atomic(
                        String::new(),
                        String::from_str(pat.substring_char(i, i + 1)),
                    ),
                };
                proof {
                    assert(divergence_from(input@, self.string@, i as int) == i);
                    assert(pat@.subrange(i as int, i + 1) =~= seq![self.string@[i as int]]);
                    assert(err.to_view().message =~= crate::semantics::literal_exhausted_message(
                        self.string@[i as int],
                    ));
                }
                return Err(err);
            }
            let actual: char = input.get_char(i);
            let expected: char = pat.get_char(i);
            if actual != expected {
                let mut msg = String::from_str("expected \"");
                msg.append(pat.substring_char(i, i + 1));
                msg.append("\" but got \"");
                msg.append(input.substring_char(i, i + 1));
                msg.append("\"");
                let err = ParseError {
                    message: msg,
                    parser_name: self.name.clone(),
                    propagation: PropagatedParseError::Atomic(
                        String::from_str(input.substring_char(i, i + 1)),
                        String::from_str(pat.substring_char(i, i + 1)),
                    ),
                };
                proof {
                    assert(divergence_from(input@, self.string@, i as int) == i);
                    assert(pat@.subrange(i as int, i + 1) =~= seq![self.string@[i as int]]);
                    assert(input@.subrange(i as int, i + 1) =~= seq![input@[i as int]]);
                    assert(err.to_view().message =~= crate::semantics::literal_mismatch_message(
                        input@[i as int],
                        self.string@[i as int],
                    ));
                }
                return Err(err);
            }
            proof {
                assert(divergence_from(input@, self.string@, i as int) == divergence_from(
                    input@,
                    self.string@,
                    i + 1,
                ));
            }
            i = i + 1;
        }
        proof {
            assert(divergence_from(input@, self.string@, i as int) == i);
        }
        let remaining: &'a str = input.substring_char(n, in_len);
        proof {
            assert(remaining@ =~= input@.skip(n as int));
        }
        Ok((remaining, AbstractSyntaxTree::Leaf(self.name.clone(), self.string.clone())))
    }

    fn get_name_clone(&self) -> (r: String) {
        self.name.clone()
    }
}

/// Succeeds consuming exactly one character when it belongs to the
/// configured alphabet.
pub struct CharacterFromAlphabet {
    pub name: String,
    pub alphabet: Rc<Alphabet>,
}

impl Parser for CharacterFromAlphabet {
    open spec fn node(&self) -> Node {
        Node::OneChar {
            name: self.name@,
            alphabet: self.alphabet@,
            listing: self.alphabet.listing(),
        }
    }

    fn parse<'a>(&self, input: &'a str) -> (r: ParseResult<'a, AbstractSyntaxTree>) {
        let in_len: usize = input.unicode_len();
        if in_len == 0 {
            let mut msg = String::from_str("Expected a character from the alphabet \"");
            msg.append(self.alphabet.text.as_str());
            msg.append("\" but found an empty input.");
            let mut expected = String::from_str("character from alphabet \"");
            expected.append(self.alphabet.text.as_str());
            expected.append("\"");
            return Err(
                ParseError {
                    message: msg,
                    parser_name: self.name.clone(),
                    propagation: PropagatedParseError::Atomic(String::new(), expected),
                },
            );
        }
        let c: char = input.get_char(0);
        if self.alphabet.contains(c) {
            let text = String::from_str(input.substring_char(0, 1));
            proof {
                assert(input@.subrange(0, 1) =~= seq![input@[0]]);
            }
            return Ok(
                (input.substring_char(1, in_len), AbstractSyntaxTree::Leaf(self.name.clone(), text)),
            );
        }
        let mut msg = String::from_str("Expected a character from the alphabet \"");
        msg.append(self.alphabet.text.as_str());
        msg.append("\" but found \"");
        msg.append(input.substring_char(0, 1));
        msg.append("\".");
        let mut expected = String::from_str("character from alphabet \"");
        expected.append(self.alphabet.text.as_str());
        expected.append("\"");
        let err = ParseError {
            message: msg,
            parser_name: self.name.clone(),
            propagation: PropagatedParseError::Atomic(
                String::from_str(input.substring_char(0, 1)),
                expected,
            ),
        };
        proof {
            assert(input@.subrange(0, 1) =~= seq![input@[0]]);
            assert(err.to_view().message =~= crate::semantics::one_char_mismatch_message(
                self.alphabet.listing(),
                input@[0],
            ));
        }
        Err(err)
    }

    fn get_name_clone(&self) -> (r: String) {
        self.name.clone()
    }
}

/// Greedily consumes the longest prefix whose characters all belong to the
/// configured alphabet; whether an empty match is acceptable is
/// configurable.
pub struct AllWordsFromAlphabet {
    pub name: String,
    pub alphabet: Rc<Alphabet>,
    pub allow_empty_word: bool,
}

impl Parser for AllWordsFromAlphabet {
    open spec fn node(&self) -> Node {
        Node::WordRun {
            name: self.name@,
            alphabet: self.alphabet@,
            allow_empty: self.allow_empty_word,
            listing: self.alphabet.listing(),
        }
    }

    fn parse<'a>(&self, input: &'a str) -> (r: ParseResult<'a, AbstractSyntaxTree>) {
        let in_len: usize = input.unicode_len();
        let mut e: usize = 0;
        while e < in_len && self.alphabet.contains(input.get_char(e))
            invariant
                e <= in_len,
                in_len == input@.len(),
                run_end(input@, self.alphabet@, 0) == run_end(input@, self.alphabet@, e as int),
            decreases in_len - e,
        {
            proof {
                assert(run_end(input@, self.alphabet@, e as int) == run_end(
                    input@,
                    self.alphabet@,
                    e + 1,
                ));
            }
            e = e + 1;
        }
        proof {
            assert(run_end(input@, self.alphabet@, e as int) == e);
        }
        if e > 0 || self.allow_empty_word {
            let text = String::from_str(input.substring_char(0, e));
            let remaining: &'a str = input.substring_char(e, in_len);
            proof {
                assert(text@ =~= input@.take(e as int));
                assert(remaining@ =~= input@.skip(e as int));
            }
            return Ok((remaining, AbstractSyntaxTree::Leaf(self.name.clone(), text)));
        }
        if in_len == 0 {
            let mut msg = String::from_str("Expected a non-empty word from the alphabet \"");
            msg.append(self.alphabet.text.as_str());
            msg.append("\" but got nothing.");
            let mut expected = String::from_str("non-empty word from alphabet \"");
            expected.append(self.alphabet.text.as_str());
            expected.append("\"");
            return Err(
                ParseError {
                    message: msg,
                    parser_name: self.name.clone(),
                    propagation: PropagatedParseError::Atomic(String::new(), expected),
                },
            );
        }
        let mut msg = String::from_str("Expected a non-empty word from the alphabet \"");
        msg.append(self.alphabet.text.as_str());
        msg.append("\" but got \"");
        msg.append(input.substring_char(0, 1));
        msg.append("\".");
        let mut expected = String::from_str("non-empty word from alphabet \"");
        expected.append(self.alphabet.text.as_str());
        expected.append("\"");
        let err = ParseError {
            message: msg,
            parser_name: self.name.clone(),
            propagation: PropagatedParseError::Atomic(
                String::from_str(input.substring_char(0, 1)),
                expected,
            ),
        };
        proof {
            assert(input@.subrange(0, 1) =~= seq![input@[0]]);
            assert(err.to_view().message =~= crate::semantics::word_mismatch_message(
                self.alphabet.listing(),
                input@[0],
            ));
        }
        Err(err)
    }

    fn get_name_clone(&self) -> (r: String) {
        self.name.clone()
    }
}

/// Succeeds, producing a suppressed value and consuming nothing, exactly
/// when the input is empty.
pub struct EndOfInputParser;

impl Parser for EndOfInputParser {
    open spec fn node(&self) -> Node {
        Node::EndOfInput
    }

    fn parse<'a>(&self, input: &'a str) -> (r: ParseResult<'a, AbstractSyntaxTree>) {
        if input.unicode_len() == 0 {
            return Ok((input, AbstractSyntaxTree::Ignore));
        }
        let mut msg = String::from_str("Expected end of input but got \"");
        msg.append(input);
        msg.append("\"");
        let err = ParseError {
            message: msg,
            parser_name: String::from_str("end_of_input"),
            propagation: PropagatedParseError::Atomic(String::from_str(input), String::new()),
        };
        proof {
            assert(err.to_view().message =~= crate::semantics::end_of_input_message(input@));
        }
        Err(err)
    }

    fn get_name_clone(&self) -> (r: String) {
        String::from_str("end_of_input")
    }
}

} // verus!
