use nebula::random::RandomNumberGenerator;

#[test]
fn seed_goes_into_the_last_eight_bytes() {
    let bytes = RandomNumberGenerator::new(0x0102_0304_0506_0708).seed_bytes();
    let mut expected = [0u8; 32];
    expected[24..32].copy_from_slice(&0x0102_0304_0506_0708u64.to_be_bytes());
    assert_eq!(expected, bytes);
    assert_eq!([0u8; 32], RandomNumberGenerator::new(0).seed_bytes());
    let all = RandomNumberGenerator::new(u64::MAX).seed_bytes();
    assert_eq!([0u8; 24], all[..24]);
    assert_eq!([0xffu8; 8], all[24..]);
    assert_eq!(666u64.to_be_bytes(), RandomNumberGenerator::new(666).seed_bytes()[24..]);
}

#[test]
fn drawn_number_is_handed_on() {
    let generator = RandomNumberGenerator::new(1);
    assert_eq!(1, generator.number(1, 50));
    assert_eq!(50, generator.number(50, 50));
    assert_eq!(u32::MAX, generator.number(u32::MAX as u64, u32::MAX));
}
