use idiomatic::text::u16_to_dec;

#[test]
fn decimal_rendering_exact_values() {
    assert_eq!(u16_to_dec(0), "0");
    assert_eq!(u16_to_dec(7), "7");
    assert_eq!(u16_to_dec(10), "10");
    assert_eq!(u16_to_dec(401), "401");
    assert_eq!(u16_to_dec(500), "500");
    assert_eq!(u16_to_dec(65535), "65535");
}
