use vstd::prelude::*;

use crate::field::Fp;
use ark_std::rand::rngs::StdRng;

verus! {

#[verifier::external_type_specification]
#[verifier::external_body]
pub struct ExStdRng(StdRng);

/// Relies on ark_std::UniformRand::rand for u64: one value drawn from the
/// generator. Nothing is known of the value.
#[verifier::external_body]
fn draw_u64(rng: &mut StdRng) -> (r: u64) {
    <u64 as ark_std::UniformRand>::rand(rng)
}

/// Draws one field element from the generator.
pub fn draw_fp(rng: &mut StdRng) -> (r: Fp)
    ensures
        r.canonical(),
{
    Fp::from_u64(draw_u64(rng))
}

/// Draws `n` field elements from the generator.
pub fn draw_fps(rng: &mut StdRng, n: usize) -> (r: Vec<Fp>)
    ensures
        r@.len() == n,
        forall|i: int| 0 <= i < n ==> (#[trigger] r@[i]).canonical(),
{
    let mut out: Vec<Fp> = Vec::new();
    let mut i: usize = 0;
    while i < n
        invariant
            i <= n,
            out@.len() == i,
            forall|j: int| 0 <= j < i ==> (#[trigger] out@[j]).canonical(),
        decreases n - i,
    {
        out.push(draw_fp(rng));
        i = i + 1;
    }
    out
}

} // verus!
