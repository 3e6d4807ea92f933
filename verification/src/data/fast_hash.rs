//! A fast, non-cryptographic hasher (the FxHash algorithm) for maps keyed
//! by [`SymbolId`](super::types::SymbolId): symbol keys come from the
//! user's own data, so hash-flooding resistance buys nothing there.
use std::hash::{BuildHasherDefault, Hasher};
use vstd::bytes::{spec_u64_from_le_bytes, u64_from_le_bytes};
use vstd::prelude::*;

verus! {

/// The FxHash multiplier.
pub const SEED: u64 = 0x51_7c_c1_b7_27_22_0a_95;

#[derive(Default)]
pub struct FxHasher {
    pub hash: u64,
}

/// `h` rotated left by five bits.
pub open spec fn rotl5(h: u64) -> u64 {
    (h << 5u64) | (h >> 59u64)
}

/// One mixing step: fold the 8-byte `word` into the running hash `h`.
pub open spec fn fx_step(h: u64, word: u64) -> u64 {
    vstd::wrapping::u64_specs::wrapping_mul(rotl5(h) ^ word, SEED)
}

/// The first (up to) eight bytes of `bytes`, zero-padded to eight and read
/// as a little-endian word.
pub open spec fn first_word(bytes: Seq<u8>) -> u64 {
    spec_u64_from_le_bytes(
        Seq::new(8, |j: int| if j < bytes.len() { bytes[j] } else { 0u8 }),
    )
}

/// The hash state after feeding `bytes`, eight bytes at a time, into `h`.
pub open spec fn fx_hash_bytes(h: u64, bytes: Seq<u8>) -> u64
    decreases bytes.len(),
{
    if bytes.len() == 0 {
        h
    } else if bytes.len() <= 8 {
        fx_step(h, first_word(bytes))
    } else {
        fx_hash_bytes(fx_step(h, first_word(bytes)), bytes.skip(8))
    }
}

impl FxHasher {
    /// The mixing step, with the rotation written out.
    fn mix(h: u64, word: u64) -> (r: u64)
        ensures
            r == fx_step(h, word),
    {
        let rotated: u64 = (h << 5u64) | (h >> 59u64);
        (rotated ^ word).wrapping_mul(SEED)
    }

    /// The zero-padded eight-byte word starting at `start`.
    fn word_at(bytes: &[u8], start: usize) -> (r: u64)
        requires
            start < bytes@.len(),
        ensures
            r == first_word(bytes@.skip(start as int)),
    {
        let mut buf: Vec<u8> = Vec::new();
        let mut j: usize = 0;
        while j < 8
            invariant
                j <= 8,
                start < bytes@.len(),
                buf@.len() == j,
                forall|k: int|
                    0 <= k < j ==> buf@[k] == (if start + k < bytes@.len() {
                        bytes@[start + k]
                    } else {
                        0u8
                    }),
            decreases 8 - j,
        {
            if j < bytes.len() - start {
                buf.push(bytes[start + j]);
            } else {
                buf.push(0u8);
            }
            j = j + 1;
        }
        let ghost tail = bytes@.skip(start as int);
        assert(buf@ =~= Seq::new(8, |k: int| if k < tail.len() { tail[k] } else { 0u8 }));
        u64_from_le_bytes(buf.as_slice())
    }
}

impl Hasher for FxHasher {
    fn write(&mut self, bytes: &[u8])
        ensures
            final(self).hash == fx_hash_bytes(old(self).hash, bytes@),
    {
        let n = bytes.len();
        let mut i: usize = 0;
        assert(bytes@.skip(0) =~= bytes@);
        while i < n
            invariant
                n == bytes@.len(),
                i <= n,
                fx_hash_bytes(old(self).hash, bytes@) == fx_hash_bytes(
                    self.hash,
                    bytes@.skip(i as int),
                ),
            decreases n - i,
        {
            let word = Self::word_at(bytes, i);
            self.hash = Self::mix(self.hash, word);
            let ghost rest = bytes@.skip(i as int);
            if n - i > 8 {
                assert(rest.skip(8) =~= bytes@.skip(i + 8));
                i = i + 8;
            } else {
                assert(bytes@.skip(n as int).len() == 0);
                i = n;
            }
        }
    }

    fn finish(&self) -> (r: u64)
        ensures
            r == self.hash,
    {
        self.hash
    }
}

/// Builds [`FxHasher`]s for `std` hash maps.
pub type FxBuildHasher = BuildHasherDefault<FxHasher>;

} // verus!
