//! Seeding the host's generator of pseudo-random numbers.

use vstd::prelude::*;

verus! {

/// Two to the power 8.
pub const BYTE: u64 = 256;

/// The byte of `seed` at place `i`, counted from the most significant byte.
pub open spec fn be_byte(seed: u64, i: int) -> int {
    (seed as int / vstd::arithmetic::power::pow(256, (7 - i) as nat)) % 256
}

/// The 32 bytes that seed the generator for `seed`: 24 zero bytes, then the
/// eight bytes of `seed`, most significant first.
pub open spec fn seed_material(seed: u64) -> Seq<u8> {
    Seq::new(
        32,
        |i: int|
            if i < 24 {
                0u8
            } else {
                be_byte(seed, i - 24) as u8
            },
    )
}

/// The generator of the host, which a program seeds before it draws.
#[derive(Clone, Copy, Debug, PartialEq, Eq)]
pub struct RandomNumberGenerator {
    seed: u64,
}

impl RandomNumberGenerator {
    /// A generator to be seeded with `seed`.
    pub fn new(seed: u64) -> (r: RandomNumberGenerator)
        ensures
            r.seed() == seed,
    {
        RandomNumberGenerator { seed }
    }

    /// The seed.
    pub closed spec fn seed(&self) -> u64 {
        self.seed
    }

    /// The bytes with which the host's generator is seeded: 24 zero bytes,
    /// then the eight bytes of the seed, most significant first.
    pub fn seed_bytes(&self) -> (r: [u8; 32])
        ensures
            r@ == seed_material(self.seed()),
    {
        let s: u64 = self.seed;
        proof {
            vstd::arithmetic::power::lemma_pow0(256);
            vstd::arithmetic::power::lemma_pow1(256);
            reveal_with_fuel(vstd::arithmetic::power::pow, 9);
            assert(vstd::arithmetic::power::pow(256, 0) == 1);
            assert(vstd::arithmetic::power::pow(256, 1) == 0x100);
            assert(vstd::arithmetic::power::pow(256, 2) == 0x1_0000);
            assert(vstd::arithmetic::power::pow(256, 3) == 0x100_0000);
            assert(vstd::arithmetic::power::pow(256, 4) == 0x1_0000_0000);
            assert(vstd::arithmetic::power::pow(256, 5) == 0x100_0000_0000);
            assert(vstd::arithmetic::power::pow(256, 6) == 0x1_0000_0000_0000);
            assert(vstd::arithmetic::power::pow(256, 7) == 0x100_0000_0000_0000);
        }
        let b0: u8 = ((s / 0x100_0000_0000_0000) % BYTE) as u8;
        let b1: u8 = ((s / 0x1_0000_0000_0000) % BYTE) as u8;
        let b2: u8 = ((s / 0x100_0000_0000) % BYTE) as u8;
        let b3: u8 = ((s / 0x1_0000_0000) % BYTE) as u8;
        let b4: u8 = ((s / 0x100_0000) % BYTE) as u8;
        let b5: u8 = ((s / 0x1_0000) % BYTE) as u8;
        let b6: u8 = ((s / 0x100) % BYTE) as u8;
        let b7: u8 = (s % BYTE) as u8;
        let arr: [u8; 32] = [
            0, 0, 0, 0, 0, 0, 0, 0, 0, 0, 0, 0, 0, 0, 0, 0, 0, 0, 0, 0, 0, 0, 0, 0,
            b0, b1, b2, b3, b4, b5, b6, b7,
        ];
        assert(arr@ =~= seed_material(s));
        arr
    }

    /// The number drawn for a request between 1 and `max_range`, from what
    /// the host's generator gave for that range.
    pub fn number(&self, drawn: u64, max_range: u32) -> (r: u32)
        requires
            1 <= drawn <= max_range,
        ensures
            r == drawn,
    {
        drawn as u32
    }
}

} // verus!
