//! Uniform random shuffling of a string's characters.

use vstd::prelude::*;

use rand::seq::SliceRandom;

use crate::text::chars_to_string;
use crate::text::str_to_chars;

verus! {

broadcast use vstd::seq_lib::group_to_multiset_ensures;

/// Declares rand's generator handle type, so that the wrappers below can
/// pass it along; the library never looks inside a value of it.
#[verifier::external_type_specification]
#[verifier::external_body]
pub struct ExThreadRng(rand::rngs::ThreadRng);

/// Relies on rand::thread_rng: obtains a handle to the thread-local random
/// number generator.
#[verifier::external_body]
fn fresh_rng() -> rand::rngs::ThreadRng {
    rand::thread_rng()
}

/// Relies on rand's SliceRandom::shuffle, a Fisher-Yates swap loop over the
/// slice: the elements are permuted in place, so the multiset of elements is
/// unchanged whatever the generator returns.
#[verifier::external_body]
fn shuffle_in_place(v: &mut Vec<char>, rng: &mut rand::rngs::ThreadRng)
    ensures
        final(v)@.to_multiset() == old(v)@.to_multiset(),
{
    v.shuffle(rng);
}

/// Returns the characters of `input` rearranged in a random order: the
/// result is always a permutation of the input (same characters, same
/// length), so the empty string and a one-character string come back
/// unchanged.
pub fn randomize_string(input: &str) -> (r: String)
    ensures
        r@.to_multiset() == input@.to_multiset(),
        r@.len() == input@.len(),
        input@.len() <= 1 ==> r@ == input@,
{
    let mut chars = str_to_chars(input);
    let mut rng = fresh_rng();
    shuffle_in_place(&mut chars, &mut rng);
    let r = chars_to_string(chars);
    proof {
        assert(r@.len() == r@.to_multiset().len());
        assert(input@.len() == input@.to_multiset().len());
        if input@.len() == 1 {
            assert(input@.contains(input@[0]));
            assert(input@.to_multiset().count(input@[0]) > 0);
            assert(r@.contains(input@[0]));
            assert(r@ =~= input@);
        }
        if input@.len() == 0 {
            assert(r@ =~= input@);
        }
    }
    r
}

} // verus!
