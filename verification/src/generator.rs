//! The seeded pseudo-random stream that boards and random play are drawn from.

use rand::Rng;
use rand_mt::Mt19937GenRand32;
use vstd::prelude::*;

verus! {

/// `rand_mt::Mt19937GenRand32`, the 32-bit Mersenne Twister, as a value whose
/// inside is not looked at: all that is said of one is said through
/// `pending_outputs`.
#[verifier::external_type_specification]
#[verifier::external_body]
pub struct ExMt19937GenRand32(Mt19937GenRand32);

/// The outputs that a Mersenne Twister seeded with `seed` produces, by position:
/// entry `0` is the first output.
pub uninterp spec fn seeded_outputs(seed: u32) -> Map<nat, u32>;

/// The outputs that the generator `mt` will produce from its present state on,
/// by position: entry `0` is the next output.
pub uninterp spec fn pending_outputs(mt: Mt19937GenRand32) -> Map<nat, u32>;

/// The stream `outputs` without its first entry.
pub open spec fn after_first(outputs: Map<nat, u32>) -> Map<nat, u32> {
    Map::new(|i: nat| true, |i: nat| outputs[i + 1])
}

/// `rand_mt::Mt19937GenRand32::new`. Believed, not proved: the state of the new
/// generator, and with it every output to come, is computed from `seed` and
/// nothing else.
#[verifier::external_body]
fn mt_seeded(seed: u32) -> (mt: Mt19937GenRand32)
    ensures
        pending_outputs(mt) == seeded_outputs(seed),
{
    Mt19937GenRand32::new(seed)
}

/// `rand::Rng::gen::<u32>` on a Mersenne Twister, which is the twister's
/// `next_u32`. Believed, not proved: it returns the next output of the stream
/// and moves the generator one output on, so that what was second is next.
#[verifier::external_body]
fn mt_draw(mt: &mut Mt19937GenRand32) -> (out: u32)
    ensures
        out == pending_outputs(*old(mt))[0],
        pending_outputs(*final(mt)) == after_first(pending_outputs(*old(mt))),
{
    mt.gen::<u32>()
}

/// A seeded generator of 32-bit values. Its seed fixes every value it hands out.
pub struct Generator {
    mt: Mt19937GenRand32,
}

/// The `index`-th value (from 0) that a generator seeded with `seed` hands out.
pub open spec fn output(seed: u32, index: nat) -> u32 {
    seeded_outputs(seed)[index]
}

impl Generator {
    /// The value that the `ahead`-th call of `next_u32` from now returns
    /// (`ahead == 0`: the very next call).
    pub closed spec fn upcoming(&self, ahead: nat) -> u32 {
        pending_outputs(self.mt)[ahead]
    }

    /// A generator at the start of the stream of `seed`.
    pub fn new(seed: u32) -> (g: Generator)
        ensures
            forall|i: nat| #[trigger] g.upcoming(i) == output(seed, i),
    {
        Generator { mt: mt_seeded(seed) }
    }

    /// Hands out the next value of the stream.
    pub fn next_u32(&mut self) -> (out: u32)
        ensures
            out == old(self).upcoming(0),
            forall|i: nat| #[trigger] final(self).upcoming(i) == old(self).upcoming(i + 1),
    {
        mt_draw(&mut self.mt)
    }
}

} // verus!
