//! The 64-bit FNV-1a hash, for the keys of hot lookup tables.
use vstd::prelude::*;

verus! {

pub const FNV_OFFSET_BASIS: u64 = 0xcbf29ce484222325;

pub const FNV_PRIME: u64 = 0x100000001b3;

/// One FNV-1a round: xor in the byte, then multiply modulo `2^64`.
pub open spec fn fnv_round(h: u64, b: u8) -> u64 {
    (((h ^ (b as u64)) as nat * FNV_PRIME as nat) % 0x1_0000_0000_0000_0000) as u64
}

/// The state after feeding `bytes`, in order, to a hasher in state `h`.
pub open spec fn fnv_fold(h: u64, bytes: Seq<u8>) -> u64
    decreases bytes.len(),
{
    if bytes.len() == 0 {
        h
    } else {
        fnv_round(fnv_fold(h, bytes.drop_last()), bytes.last())
    }
}

pub struct FnvHasher(u64);

impl FnvHasher {
    pub closed spec fn state(&self) -> u64 {
        self.0
    }

    /// The hash of everything written so far.
    pub fn finish(&self) -> (r: u64)
        ensures
            r == self.state(),
    {
        self.0
    }

    /// Feeds `bytes` to the hash, in order.
    pub fn write(&mut self, bytes: &[u8])
        ensures
            final(self).state() == fnv_fold(old(self).state(), bytes@),
    {
        let mut hash = self.0;
        let mut i: usize = 0;
        while i < bytes.len()
            invariant
                i <= bytes@.len(),
                hash == fnv_fold(self.0, bytes@.subrange(0, i as int)),
            decreases bytes@.len() - i,
        {
            let b = bytes[i];
            hash = (hash ^ (b as u64)).wrapping_mul(FNV_PRIME);
            proof {
                let pre = bytes@.subrange(0, i as int);
                let next = bytes@.subrange(0, i + 1);
                assert(next.drop_last() =~= pre);
                assert(next.last() == b);
            }
            i = i + 1;
        }
        assert(bytes@.subrange(0, bytes@.len() as int) =~= bytes@);
        self.0 = hash;
    }
}

impl Default for FnvHasher {
    fn default() -> (r: FnvHasher)
        ensures
            r.state() == FNV_OFFSET_BASIS,
    {
        FnvHasher(FNV_OFFSET_BASIS)
    }
}

} // verus!
