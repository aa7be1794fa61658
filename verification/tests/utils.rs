use nebula::utils::address_to_bytes_n32;
use nebula::utils::bytes_n32_to_address;

#[test]
fn test_encoding_decoding_address_to_bytes32() {
    for handle in [0u64, 1, 77, 0x0102_0304_0506_0708, u64::MAX] {
        let bytes = address_to_bytes_n32(handle);
        assert_eq!(handle, bytes_n32_to_address(&bytes))
    }
}

#[test]
fn handle_lies_in_the_first_eight_bytes() {
    let bytes = address_to_bytes_n32(0x0102_0304_0506_0708);
    assert_eq!([1, 2, 3, 4, 5, 6, 7, 8], bytes[..8]);
    assert_eq!([0u8; 24], bytes[8..]);
    let mut other = [0xffu8; 32];
    other[..8].copy_from_slice(&5u64.to_be_bytes());
    assert_eq!(5, bytes_n32_to_address(&other));
}
