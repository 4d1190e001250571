//! What chance brings, drawn from `rand`.

use vstd::prelude::*;

verus! {

/// Sixteen bytes that were drawn. There is no other way to them than to draw.
pub struct RandomBytes {
    bytes: [u8; 16],
}

impl RandomBytes {
    /// The bytes.
    pub closed spec fn view(&self) -> Seq<u8> {
        self.bytes@
    }

    /// The bytes.
    pub fn get(&self) -> (r: [u8; 16])
        ensures
            r@ == self@,
    {
        self.bytes
    }
}

/// A number that was drawn. There is no other way to it than to draw.
pub struct RandomNumber {
    /// The highest that could have come.
    max: u64,
    value: u64,
}

impl RandomNumber {
    /// The number.
    pub closed spec fn value(self) -> u64 {
        self.value
    }

    /// The highest number that could have come.
    pub closed spec fn max(self) -> u64 {
        self.max
    }

    /// The number.
    pub fn get(&self) -> (r: u64)
        ensures
            r == self.value(),
    {
        self.value
    }
}

/// `rand::random`: sixteen bytes from the thread's generator. Which bytes they are is left to chance.
#[verifier::external_body]
pub(crate) fn random_bytes() -> RandomBytes {
    RandomBytes { bytes: rand::random::<[u8; 16]>() }
}

/// `rand::Rng::gen_range` over `0..=max`, with the thread's generator: a number that is at most `max`.
/// Which one it is is left to chance.
#[verifier::external_body]
pub(crate) fn random_up_to(max: u64) -> (r: RandomNumber)
    ensures
        r.max() == max,
        r.value() <= max,
{
    RandomNumber { max, value: rand::Rng::gen_range(&mut rand::thread_rng(), 0..=max) }
}

} // verus!
