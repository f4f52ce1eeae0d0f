//! Draws from the thread-local random source. Nothing is promised of a draw
//! beyond the range it falls in.
use crate::config::{ratio_ok, Ratio};
use vstd::prelude::*;

verus! {

/// Relies on `rand::Rng::random_ratio`, which panics unless
/// `0 < denominator` and `numerator <= denominator`, is always true when they
/// are equal and never true when the numerator is `0`.
#[verifier::external_body]
pub(crate) fn ratio_hit(r: Ratio) -> (b: bool)
    requires
        ratio_ok(r),
    ensures
        r.0 == r.1 ==> b,
        r.0 == 0 ==> !b,
{
    rand::Rng::random_ratio(&mut rand::rng(), r.0, r.1)
}

/// Relies on `rand::Rng::random_range` on an inclusive `u64` range, which
/// panics on an empty range and otherwise returns a value inside it.
#[verifier::external_body]
pub(crate) fn u64_in(lo: u64, hi: u64) -> (r: u64)
    requires
        lo <= hi,
    ensures
        lo <= r <= hi,
{
    rand::Rng::random_range(&mut rand::rng(), lo..=hi)
}

/// A uniform draw in `[lo, hi]`.
pub(crate) fn usize_in(lo: usize, hi: usize) -> (r: usize)
    requires
        lo <= hi,
    ensures
        lo <= r <= hi,
{
    u64_in(lo as u64, hi as u64) as usize
}

/// A uniform draw in `[lo, hi]`.
pub(crate) fn i32_in(lo: i32, hi: i32) -> (r: i32)
    requires
        lo <= hi,
    ensures
        lo <= r <= hi,
{
    let span = (hi as i64 - lo as i64) as u64;
    let offset = u64_in(0, span);
    (lo as i64 + offset as i64) as i32
}

/// Relies on `rand::Rng::random::<char>`: any Unicode scalar value.
#[verifier::external_body]
pub(crate) fn any_char() -> (c: char) {
    rand::Rng::random::<char>(&mut rand::rng())
}

/// Relies on `rand::seq::IteratorRandom::choose_multiple` over the indices
/// `0..n`: reservoir sampling, which keeps `min(n, amount)` of the indices,
/// each at most once.
#[verifier::external_body]
pub(crate) fn sample_indices(n: usize, amount: usize) -> (r: Vec<usize>)
    ensures
        r@.len() == if n < amount {
            n
        } else {
            amount
        },
        forall|i: int| 0 <= i < r@.len() ==> r@[i] < n,
        r@.no_duplicates(),
{
    rand::seq::IteratorRandom::choose_multiple(0..n, &mut rand::rng(), amount)
}

/// Relies on `String`'s `FromIterator<char>`: the characters in order.
#[verifier::external_body]
pub(crate) fn string_from_chars(cs: &Vec<char>) -> (r: String)
    ensures
        r@ == cs@,
{
    cs.iter().collect()
}

} // verus!
