use vstd::prelude::*;

verus! {

/// Relies on std::time::SystemTime::now and duration_since: the seconds of
/// the wall clock since the Unix epoch, or zero should the clock read
/// earlier than the epoch. The clock pins nothing about the result, so
/// nothing more is stated.
#[verifier::external_body]
pub fn unix_timestamp() -> u64 {
    match std::time::SystemTime::now().duration_since(std::time::SystemTime::UNIX_EPOCH) {
        Ok(n) => n.as_secs(),
        Err(_) => 0,
    }
}

/// The eight big-endian bytes of a 64-bit value.
pub fn u64_be_bytes(v: u64) -> (r: [u8; 8])
    ensures
        r@ == seq![
            (v >> 56) as u8,
            (v >> 48) as u8,
            (v >> 40) as u8,
            (v >> 32) as u8,
            (v >> 24) as u8,
            (v >> 16) as u8,
            (v >> 8) as u8,
            v as u8,
        ],
{
    let r: [u8; 8] = [
        (v >> 56) as u8,
        (v >> 48) as u8,
        (v >> 40) as u8,
        (v >> 32) as u8,
        (v >> 24) as u8,
        (v >> 16) as u8,
        (v >> 8) as u8,
        v as u8,
    ];
    proof {
        assert(r@ =~= seq![
            (v >> 56) as u8,
            (v >> 48) as u8,
            (v >> 40) as u8,
            (v >> 32) as u8,
            (v >> 24) as u8,
            (v >> 16) as u8,
            (v >> 8) as u8,
            v as u8,
        ]);
    }
    r
}

/// An eight-byte sampler seed.
#[derive(Clone, Copy, Debug)]
pub struct RandomSeed(pub [u8; 8]);

impl Default for RandomSeed {
    /// A seed taken from the wall clock, as big-endian bytes.
    fn default() -> (r: Self)
        ensures
            r.0@.len() == 8,
    {
        RandomSeed(u64_be_bytes(unix_timestamp()))
    }
}

/// A generator state: nothing more than the seed it was built from.
#[derive(Clone, Copy, Debug)]
pub struct Random(pub RandomSeed);

impl Random {
    /// Build the generator state from a seed.
    pub fn from_seed(seed: RandomSeed) -> (r: Random)
        ensures
            r.0.0@ == seed.0@,
    {
        Random(seed)
    }
}

} // verus!
