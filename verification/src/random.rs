//! The two draws that the engine asks of the random generator.

use vstd::prelude::*;
use rand::rngs::SmallRng;
use rand::seq::SliceRandom;
use crate::point::Point;

verus! {

/// The generator that drives every random choice of the engine. Its state
/// is not modelled: a draw may return any value that its contract allows.
#[verifier::external_type_specification]
#[verifier::external_body]
pub struct ExSmallRng(SmallRng);

/// Draws one entry of a list of matches with `SliceRandom::choose` of the
/// `rand` crate. Assumed of it: the draw is `None` exactly for an empty
/// list, and otherwise an entry of the list.
#[verifier::external_body]
pub(crate) fn choose_match(rng: &mut SmallRng, matched: &Vec<(usize, Point)>) -> (choice: Option<
    (usize, Point),
>)
    ensures
        choice is None <==> matched@.len() == 0,
        choice is Some ==> matched@.contains(choice.unwrap()),
{
    matched.choose(rng).copied()
}

/// Reorders a list of matches in place with `SliceRandom::shuffle` of the
/// `rand` crate. Assumed of it: the list holds the same entries afterwards,
/// each as often as before, in some order.
#[verifier::external_body]
pub(crate) fn shuffle_matches(rng: &mut SmallRng, matched: &mut Vec<(usize, Point)>)
    ensures
        final(matched)@.to_multiset() == old(matched)@.to_multiset(),
{
    matched.shuffle(rng);
}

} // verus!
