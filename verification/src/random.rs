//! The random choices of the `random` and `pick` functions of Logo.

use vstd::prelude::*;
use rand::Rng;

verus! {

/// `rand::thread_rng().gen_range(0..=bound)`: a number drawn uniformly from
/// `0..=bound`. Nothing is stated of which one comes out beyond the range;
/// the range is never empty, so the call does not panic.
#[verifier::external_body]
fn draw_at_most(bound: u32) -> (r: u32)
    ensures
        r <= bound,
{
    rand::thread_rng().gen_range(0..=bound)
}

/// `rand::thread_rng().gen_range(0..len)`: an index drawn uniformly from
/// `0..len`. Nothing is stated of which one comes out beyond the range; the
/// range must not be empty, for the call panics on an empty one.
#[verifier::external_body]
fn draw_below(len: usize) -> (r: usize)
    requires
        len > 0,
    ensures
        r < len,
{
    rand::thread_rng().gen_range(0..len)
}

/// A random whole number from 0 to `bound`, both included.
pub fn random_up_to(bound: u32) -> (r: u32)
    ensures
        r <= bound,
{
    draw_at_most(bound)
}

/// One of the items, chosen at random.
pub fn pick<T>(items: &Vec<T>) -> (r: &T)
    requires
        items.len() > 0,
    ensures
        exists|i: int| 0 <= i < items.len() && items@[i] == *r,
{
    let i = draw_below(items.len());
    &items[i]
}

} // verus!
