//! Access to two elements of one collection at the same time.

use vstd::prelude::*;

verus! {

/// Hands out two elements of one slice for changing at the same time.
///
/// The two positions must differ: that attacker and target are two entities
/// is what lets both be changed in one step.
pub fn mut_two<T>(first_index: usize, second_index: usize, items: &mut [T]) -> (pair: (
    &mut T,
    &mut T,
))
    requires
        first_index != second_index,
        first_index < old(items)@.len(),
        second_index < old(items)@.len(),
    ensures
        *pair.0 == old(items)@[first_index as int],
        *pair.1 == old(items)@[second_index as int],
        final(items)@ == old(items)@.update(first_index as int, *final(pair.0)).update(
            second_index as int,
            *final(pair.1),
        ),
{
    if first_index < second_index {
        let (first_slice, second_slice) = items.split_at_mut(second_index);
        (&mut first_slice[first_index], &mut second_slice[0])
    } else {
        let (first_slice, second_slice) = items.split_at_mut(first_index);
        (&mut second_slice[0], &mut first_slice[second_index])
    }
}

} // verus!
