//! Random choices among finitely many things.
use vstd::prelude::*;

verus! {

/// `fastrand::u8` on the range from zero up to, not including, `bound`: some
/// number of that range. The range must hold a number.
#[verifier::external_body]
pub(crate) fn random_u8_below(bound: u8) -> (r: u8)
    requires
        bound > 0,
    ensures
        r < bound,
{
    fastrand::u8(0..bound)
}

/// `fastrand::usize` on the range from zero up to, not including, `bound`:
/// some number of that range. The range must hold a number.
#[verifier::external_body]
pub(crate) fn random_usize_below(bound: usize) -> (r: usize)
    requires
        bound > 0,
    ensures
        r < bound,
{
    fastrand::usize(0..bound)
}

/// Picks one of `count` children at random: its place among them.
pub fn random_child(count: usize) -> (r: usize)
    requires
        count > 0,
    ensures
        r < count,
{
    random_usize_below(count)
}

/// The density that is the same in every direction.
#[derive(Debug, Clone, Copy, PartialEq, Eq, Structural)]
pub struct UniformSphericalPDF;

} // verus!
