use vstd::prelude::*;
use rand::Rng;
use rand::seq::IteratorRandom;
use rand::seq::SliceRandom;

verus! {

/// `rand::rngs::StdRng`, the seedable generator that drives dungeon generation;
/// opaque here.
#[verifier::external_type_specification]
#[verifier::external_body]
pub struct ExStdRng(rand::rngs::StdRng);

/// Relies on `rand::Rng::gen_range` over a half-open `u32` range: the value lies in
/// `[lo, hi)`. It panics on an empty range, which `requires` leaves out.
#[verifier::external_body]
pub(crate) fn gen_range(rng: &mut rand::rngs::StdRng, lo: u32, hi: u32) -> (r: u32)
    requires
        lo < hi,
    ensures
        lo <= r < hi,
{
    rng.gen_range(lo..hi)
}

/// Relies on `rand::seq::SliceRandom::choose`: `None` exactly for an empty slice,
/// otherwise one of its elements.
#[verifier::external_body]
pub(crate) fn choose_from(rng: &mut rand::rngs::StdRng, table: &[usize]) -> (r: Option<usize>)
    ensures
        r is None <==> table@.len() == 0,
        r matches Some(v) ==> table@.contains(v),
{
    table.choose(rng).copied()
}

/// Relies on `rand::seq::IteratorRandom::choose_multiple` over `0..len`: reservoir
/// sampling keeps `min(amount, len)` distinct items of the range.
#[verifier::external_body]
pub(crate) fn choose_multiple_indices(
    rng: &mut rand::rngs::StdRng,
    len: usize,
    amount: usize,
) -> (r: Vec<usize>)
    ensures
        r@.len() == if amount < len {
            amount
        } else {
            len
        },
        forall|i: int| 0 <= i < r@.len() ==> r@[i] < len,
        forall|i: int, j: int| 0 <= i < j < r@.len() ==> r@[i] != r@[j],
{
    (0..len).choose_multiple(rng, amount)
}

} // verus!
