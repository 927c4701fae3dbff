use vstd::prelude::*;
use vstd::std_specs::iter::IteratorSpec;

verus! {

broadcast use vstd::string::axiom_spec_iter, vstd::string::next_postcondition;

/// The characters of a string, in order, as a vector of Unicode scalar
/// values.
pub fn chars_of(inp: &str) -> (r: Vec<char>)
    ensures
        r@ == inp@,
{
    let mut it = inp.chars();
    let mut v: Vec<char> = Vec::new();
    loop
        invariant
            v@ + it.remaining() == inp@,
            it.decrease() is Some,
        ensures
            v@ == inp@,
        decreases it.decrease()->0,
    {
        match it.next() {
            Some(c) => {
                v.push(c);
                proof {
                    assert(v@ + it.remaining() =~= inp@);
                }
            },
            None => {
                proof {
                    assert(v@ =~= inp@);
                }
                break ;
            },
        }
    }
    v
}

/// Relies on `String`'s `FromIterator` over `char`: collecting characters
/// yields the string holding exactly those characters in order.
#[verifier::external_body]
pub fn string_from_chars(v: Vec<char>) -> (r: String)
    ensures
        r@ == v@,
{
    v.into_iter().collect()
}

} // verus!
