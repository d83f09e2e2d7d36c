//! A word that lives as long as the program.

use vstd::prelude::*;

verus! {

/// Always the word `Hello`, a literal that outlives `input`.
pub fn first_word(input: &str) -> (r: &'static str)
    ensures
        r@ == "Hello"@,
{
    "Hello"
}

} // verus!
