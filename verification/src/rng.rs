//! Draws of pseudo-random values, taken from the process-wide generator.
//!
//! Every simulation choice that depends on chance goes through one of these
//! functions. Nothing is promised of a drawn value beyond its range, so all
//! code built on top is verified for every outcome of every draw.

use vstd::prelude::*;

verus! {

/// Relies on fastrand::usize: a uniform draw from the inclusive range
/// `low..=high`; it panics only when the range is empty.
#[verifier::external_body]
pub(crate) fn random_usize_between(low: usize, high: usize) -> (r: usize)
    requires
        low <= high,
    ensures
        low <= r <= high,
{
    fastrand::usize(low..=high)
}

/// Relies on fastrand::u8: a uniform draw from the inclusive range
/// `0..=high`.
#[verifier::external_body]
pub(crate) fn random_u8_up_to(high: u8) -> (r: u8)
    ensures
        r <= high,
{
    fastrand::u8(0..=high)
}

/// Relies on fastrand::u64: a uniform draw from `0..bound`; it panics only
/// when the range is empty.
#[verifier::external_body]
pub(crate) fn random_u64_below(bound: u64) -> (r: u64)
    requires
        bound > 0,
    ensures
        r < bound,
{
    fastrand::u64(0..bound)
}

/// Relies on fastrand::bool: a uniform draw of a boolean.
#[verifier::external_body]
pub(crate) fn random_bool() -> (r: bool)
{
    fastrand::bool()
}

} // verus!
