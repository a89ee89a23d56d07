//! The random sources that fresh matrices are drawn from.
//!
//! Nothing is known of a drawn value but its type, so the calls into `rand`
//! promise nothing about their results. What is stated is which generator a
//! value was drawn from, and that drawing leaves a seeded source seeded.
use vstd::prelude::*;
use rand::distributions::{Distribution, Standard};
use rand::rngs::StdRng;

verus! {

/// `rand::distributions::Standard`, the distribution that values are drawn
/// from. It is named in bounds only.
#[verifier::external_type_specification]
#[verifier::external_body]
pub struct ExStandard(Standard);

/// `rand::rngs::StdRng`, a seeded generator. It is carried about and handed
/// back to `rand`; nothing is known of its state.
#[verifier::external_type_specification]
#[verifier::external_body]
pub struct ExStdRng(StdRng);

/// `rand::random`: one value of the standard distribution of `T`, drawn from
/// the generator of the current thread. For a floating-point `T` that
/// distribution is uniform over the half-open unit interval; the contract
/// claims nothing of the value.
#[verifier::external_body]
pub(crate) fn draw<T>() -> (x: T) where Standard: Distribution<T> {
    rand::random()
}

/// `SeedableRng::seed_from_u64` of `StdRng`: a generator whose sequence is
/// fixed by `seed`. The contract claims nothing of it.
#[verifier::external_body]
pub(crate) fn seeded(seed: u64) -> (rng: StdRng) {
    rand::SeedableRng::seed_from_u64(seed)
}

/// `Rng::gen` on a `StdRng`: the generator's next value of the standard
/// distribution of `T`. The contract claims nothing of the value, nor of the
/// generator afterwards.
#[verifier::external_body]
pub(crate) fn draw_from<T>(rng: &mut StdRng) -> (x: T) where Standard: Distribution<T> {
    rand::Rng::gen(rng)
}

/// The next value of `source`. Where there is a seeded generator, the value
/// is one that `draw_from` may give for it, and the generator is left as
/// `draw_from` leaves it; else the value is one that `draw` may give, and
/// there is still no seeded generator.
pub(crate) fn next<T>(source: &mut Option<StdRng>) -> (x: T) where Standard: Distribution<T>
    ensures
        *old(source) is None ==> *final(source) is None && call_ensures(draw::<T>, (), x),
        *old(source) matches Some(before) ==> exists|rng: &mut StdRng|
            *rng == before && *final(source) == Some(*final(rng)) && #[trigger] call_ensures(
                draw_from::<T>,
                (rng,),
                x,
            ),
{
    match source {
        Some(rng) => draw_from(rng),
        None => draw(),
    }
}

} // verus!
