//! The handle of an address, carried in 32 bytes and back.

use vstd::prelude::*;
use crate::random::be_byte;

verus! {

/// The 32 bytes that carry a handle: its eight bytes, most significant
/// first, then 24 zero bytes.
pub open spec fn carried(handle: u64) -> Seq<u8> {
    Seq::new(
        32,
        |i: int|
            if i < 8 {
                be_byte(handle, i) as u8
            } else {
                0u8
            },
    )
}

/// The handle that the first eight of the bytes spell, most significant
/// byte first.
pub open spec fn spelled(bytes: Seq<u8>) -> int {
    bytes[0] * 0x100_0000_0000_0000 + bytes[1] * 0x1_0000_0000_0000 + bytes[2] * 0x100_0000_0000
        + bytes[3] * 0x1_0000_0000 + bytes[4] * 0x100_0000 + bytes[5] * 0x1_0000 + bytes[6] * 0x100
        + bytes[7]
}

proof fn lemma_powers()
    ensures
        vstd::arithmetic::power::pow(256, 0) == 1,
        vstd::arithmetic::power::pow(256, 1) == 0x100,
        vstd::arithmetic::power::pow(256, 2) == 0x1_0000,
        vstd::arithmetic::power::pow(256, 3) == 0x100_0000,
        vstd::arithmetic::power::pow(256, 4) == 0x1_0000_0000,
        vstd::arithmetic::power::pow(256, 5) == 0x100_0000_0000,
        vstd::arithmetic::power::pow(256, 6) == 0x1_0000_0000_0000,
        vstd::arithmetic::power::pow(256, 7) == 0x100_0000_0000_0000,
{
    reveal_with_fuel(vstd::arithmetic::power::pow, 9);
}

/// The handle of an address in the first eight of 32 bytes.
pub fn address_to_bytes_n32(handle: u64) -> (r: [u8; 32])
    ensures
        r@ == carried(handle),
{
    proof {
        lemma_powers();
    }
    let b0: u8 = ((handle / 0x100_0000_0000_0000) % 256) as u8;
    let b1: u8 = ((handle / 0x1_0000_0000_0000) % 256) as u8;
    let b2: u8 = ((handle / 0x100_0000_0000) % 256) as u8;
    let b3: u8 = ((handle / 0x1_0000_0000) % 256) as u8;
    let b4: u8 = ((handle / 0x100_0000) % 256) as u8;
    let b5: u8 = ((handle / 0x1_0000) % 256) as u8;
    let b6: u8 = ((handle / 0x100) % 256) as u8;
    let b7: u8 = (handle % 256) as u8;
    let arr: [u8; 32] = [
        b0, b1, b2, b3, b4, b5, b6, b7,
        0, 0, 0, 0, 0, 0, 0, 0, 0, 0, 0, 0, 0, 0, 0, 0, 0, 0, 0, 0, 0, 0, 0, 0,
    ];
    assert(arr@ =~= carried(handle));
    arr
}

/// The handle that the first eight of the 32 bytes hold.
pub fn bytes_n32_to_address(bytes: &[u8; 32]) -> (r: u64)
    ensures
        r == spelled(bytes@),
{
    let b0: u64 = bytes[0] as u64;
    let b1: u64 = bytes[1] as u64;
    let b2: u64 = bytes[2] as u64;
    let b3: u64 = bytes[3] as u64;
    let b4: u64 = bytes[4] as u64;
    let b5: u64 = bytes[5] as u64;
    let b6: u64 = bytes[6] as u64;
    let b7: u64 = bytes[7] as u64;
    b0 * 0x100_0000_0000_0000 + b1 * 0x1_0000_0000_0000 + b2 * 0x100_0000_0000 + b3
        * 0x1_0000_0000 + b4 * 0x100_0000 + b5 * 0x1_0000 + b6 * 0x100 + b7
}

/// A handle that was carried in 32 bytes comes back as it was.
pub proof fn lemma_handle_round_trip(handle: u64)
    ensures
        spelled(carried(handle)) == handle,
{
    lemma_powers();
    let b0: u64 = (handle / 0x100_0000_0000_0000) % 256;
    let b1: u64 = (handle / 0x1_0000_0000_0000) % 256;
    let b2: u64 = (handle / 0x100_0000_0000) % 256;
    let b3: u64 = (handle / 0x1_0000_0000) % 256;
    let b4: u64 = (handle / 0x100_0000) % 256;
    let b5: u64 = (handle / 0x1_0000) % 256;
    let b6: u64 = (handle / 0x100) % 256;
    let b7: u64 = handle % 256;
    assert(b0 * 0x100_0000_0000_0000 + b1 * 0x1_0000_0000_0000 + b2 * 0x100_0000_0000 + b3
        * 0x1_0000_0000 + b4 * 0x100_0000 + b5 * 0x1_0000 + b6 * 0x100 + b7 == handle)
        by (bit_vector)
        requires
            b0 == (handle / 0x100_0000_0000_0000) % 256,
            b1 == (handle / 0x1_0000_0000_0000) % 256,
            b2 == (handle / 0x100_0000_0000) % 256,
            b3 == (handle / 0x1_0000_0000) % 256,
            b4 == (handle / 0x100_0000) % 256,
            b5 == (handle / 0x1_0000) % 256,
            b6 == (handle / 0x100) % 256,
            b7 == handle % 256,
    ;
    assert(carried(handle)[0] == b0);
    assert(carried(handle)[1] == b1);
    assert(carried(handle)[2] == b2);
    assert(carried(handle)[3] == b3);
    assert(carried(handle)[4] == b4);
    assert(carried(handle)[5] == b5);
    assert(carried(handle)[6] == b6);
    assert(carried(handle)[7] == b7);
}

} // verus!
