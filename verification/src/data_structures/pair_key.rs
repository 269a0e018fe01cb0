//! Keys of unordered pairs.

use vstd::prelude::*;

verus! {

/// The key of an unordered pair of indices.
#[derive(Clone, Copy, Debug, PartialEq, Eq, Hash, Structural)]
pub struct PairKey(u64);

impl View for PairKey {
    type V = u64;

    closed spec fn view(&self) -> u64 {
        self.0
    }
}

/// The number of the pair key of `a` and `b`: the smaller index in the upper half,
/// the larger one in the lower half.
pub open spec fn pair_key_bits(a: u32, b: u32) -> u64 {
    if a < b {
        (a * 0x1_0000_0000 + b) as u64
    } else {
        (b * 0x1_0000_0000 + a) as u64
    }
}

impl PairKey {
    /// Creates the key of the pair of `id1` and `id2`, in either order.
    pub fn new(id1: u32, id2: u32) -> (res: Self)
        ensures
            res@ == pair_key_bits(id1, id2),
    {
        if id1 < id2 {
            let hi: u64 = id1 as u64;
            let lo: u64 = id2 as u64;
            assert((hi << 32) | lo == hi * 0x1_0000_0000 + lo) by (bit_vector)
                requires
                    hi < 0x1_0000_0000,
                    lo < 0x1_0000_0000,
            ;
            PairKey((hi << 32) | lo)
        } else {
            let hi: u64 = id2 as u64;
            let lo: u64 = id1 as u64;
            assert((hi << 32) | lo == hi * 0x1_0000_0000 + lo) by (bit_vector)
                requires
                    hi < 0x1_0000_0000,
                    lo < 0x1_0000_0000,
            ;
            PairKey((hi << 32) | lo)
        }
    }

    /// Returns the key as a single number.
    pub fn bits(&self) -> (res: u64)
        ensures
            res == self@,
    {
        self.0
    }
}

/// Two pairs have the same key exactly if they are the same pair, in either order.
pub proof fn pair_key_identifies_pair(a1: u32, b1: u32, a2: u32, b2: u32)
    ensures
        pair_key_bits(a1, b1) == pair_key_bits(a2, b2) <==> (a1 == a2 && b1 == b2) || (a1 == b2
            && b1 == a2),
{
}

/// The smaller index is in the upper half of the key, and the larger one in the lower half.
pub proof fn pair_key_halves(a: u32, b: u32)
    ensures
        pair_key_bits(a, b) / 0x1_0000_0000 <= pair_key_bits(a, b) % 0x1_0000_0000,
        pair_key_bits(a, b) / 0x1_0000_0000 == a || pair_key_bits(a, b) / 0x1_0000_0000 == b,
        pair_key_bits(a, b) / 0x1_0000_0000 + pair_key_bits(a, b) % 0x1_0000_0000 == a + b,
{
}

} // verus!
