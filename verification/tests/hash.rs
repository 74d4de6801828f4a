use martin::hash::{particle_bits, salted_bits};

#[test]
fn particle_bits_known_values_and_range() {
    assert_eq!(particle_bits(0), 3_936_055);
    assert_eq!(particle_bits(1), 3_140_787);
    assert_eq!(particle_bits(2), 15_308_267);
    for n in [0u32, 5, 1 << 20, u32::MAX] {
        assert!(particle_bits(n) <= 0xff_ffff);
    }
}

#[test]
fn salted_bits_known_values() {
    assert_eq!(salted_bits(12_345, 2_654_435_761), 11_080);
    assert_eq!(salted_bits(0, 5), 0);
    assert_eq!(salted_bits(1, 256), 1);
    assert_eq!(salted_bits(3, 0x1_0000), 768);
    assert!(salted_bits(u32::MAX, u32::MAX) <= 0xffff);
}
