use vstd::prelude::*;

verus! {

#[verifier::external_type_specification]
#[verifier::external_body]
pub struct ExStdRng(rand::rngs::StdRng);

/// Relies on rand::Rng::gen_range over `lo..=hi`: it returns a value of the
/// range and panics only when the range is empty, which the precondition
/// rules out.
#[verifier::external_body]
pub(crate) fn rand_range_inclusive(rng: &mut rand::rngs::StdRng, lo: u16, hi: u16) -> (r: u16)
    requires
        lo <= hi,
    ensures
        lo <= r <= hi,
{
    rand::Rng::gen_range(rng, lo..=hi)
}

/// Relies on rand::Rng::gen with the Standard distribution on bool: a coin
/// flip drawn from the generator; nothing is promised of its value.
#[verifier::external_body]
pub(crate) fn rand_coin(rng: &mut rand::rngs::StdRng) -> bool {
    rand::Rng::gen(rng)
}

} // verus!
