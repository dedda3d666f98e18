//! Ready-made alphabets for common character classes.

use crate::atoms::{char_set, Alphabet};
use std::rc::Rc;
use vstd::prelude::*;

verus! {

/// The decimal digits.
pub fn numerics() -> (a: Rc<Alphabet>)
    ensures
        a@ == char_set("0123456789"@),
{
    Rc::new(Alphabet::from_chars("0123456789"))
}

/// The lowercase English letters.
pub fn lowercase_english() -> (a: Rc<Alphabet>)
    ensures
        a@ == char_set("abcdefghijklmnopqrstuvwxyz"@),
{
    Rc::new(Alphabet::from_chars("abcdefghijklmnopqrstuvwxyz"))
}

/// The uppercase English letters.
pub fn uppercase_english() -> (a: Rc<Alphabet>)
    ensures
        a@ == char_set("ABCDEFGHIJKLMNOPQRSTUVWXYZ"@),
{
    Rc::new(Alphabet::from_chars("ABCDEFGHIJKLMNOPQRSTUVWXYZ"))
}

} // verus!
