use martin::morton::{morton_code, morton_order, part1by2, resample_morton};
use martin::splats::{expand, Rng, MAX_LSYSTEM_LEN};

#[test]
fn resample_morton_hits_the_target_count() {
    // 50 points along x, quantized onto the 10-bit grid
    let keys: Vec<u32> = (0..50u32).map(|i| morton_code(i * 20, 0, 0)).collect();
    assert_eq!(resample_morton(&keys, 200).len(), 200); // up-sample
    assert_eq!(resample_morton(&keys, 10).len(), 10); // down-sample
}

#[test]
fn resample_picks_the_proportional_slot() {
    let keys: Vec<u32> = (0..50u32).map(|i| morton_code(i * 20, 0, 0)).collect();
    let order = morton_order(&keys);
    assert_eq!(order, (0..50usize).collect::<Vec<_>>()); // already in Z-order along x
    let down = resample_morton(&keys, 10);
    assert_eq!(down, vec![0, 5, 10, 15, 20, 25, 30, 35, 40, 45]);
    let up = resample_morton(&keys, 200);
    assert_eq!(&up[0..8], &[0, 0, 0, 0, 1, 1, 1, 1]);
    assert_eq!(up[199], 49);
    assert!(resample_morton(&Vec::new(), 5).is_empty());
    assert!(resample_morton(&keys, 0).is_empty());
}

#[test]
fn morton_order_is_stable_by_key() {
    let keys = vec![5u32, 1, 5, 0];
    assert_eq!(morton_order(&keys), vec![3, 1, 0, 2]);
}

#[test]
fn part1by2_spreads_every_third_bit() {
    assert_eq!(part1by2(0), 0);
    assert_eq!(part1by2(1), 1);
    assert_eq!(part1by2(3), 9);
    assert_eq!(part1by2(5), 65);
    assert_eq!(part1by2(1023), 0x0924_9249);
    assert_eq!(part1by2(1024), 0); // only the low ten bits count
}

#[test]
fn morton_code_interleaves_the_axes() {
    assert_eq!(morton_code(1, 0, 0), 1);
    assert_eq!(morton_code(0, 1, 0), 2);
    assert_eq!(morton_code(0, 0, 1), 4);
    assert_eq!(morton_code(1, 1, 1), 7);
    assert_eq!(morton_code(3, 5, 7), 431);
    assert_eq!(morton_code(1023, 1023, 1023), (1 << 30) - 1);
}

#[test]
fn splitmix_from_seed_zero() {
    let mut r = Rng(0);
    assert_eq!(r.next_u64(), 0xE220_A839_7B1D_CDAF);
    assert_eq!(r.next_u64(), 0x6E78_9E6A_A1B9_65F4);
    assert_eq!(r.next_u64(), 0x06C4_5D18_8009_454F);
    assert_eq!(r.0, 0x9E37_79B9_7F4A_7C15u64.wrapping_mul(3));
}

#[test]
fn int_below_reduces_the_next_draw() {
    let mut a = Rng(42);
    let mut b = Rng(42);
    let raw = a.next_u64();
    assert_eq!(raw, 0xBDD7_3226_2FEB_6E95);
    assert_eq!(b.int_below(10), raw % 10);
    assert_eq!(b.0, a.0);
    let mut c = Rng(42);
    assert_eq!(c.int_below(7), 5);
}

#[test]
fn expand_rewrites_x_and_f_only() {
    assert_eq!(expand("X", "F+[X]", "FF", 0), "X");
    assert_eq!(expand("X", "F+[X]", "FF", 1), "F+[X]");
    assert_eq!(expand("X", "F+[X]", "FF", 2), "FF+[F+[X]]");
    assert_eq!(expand("+-&^/\\[]", "Q", "R", 3), "+-&^/\\[]");
}

#[test]
fn expand_stops_past_the_cap() {
    // F doubles every pass: 2^19 is the first length over the cap, and no pass runs after it
    let s = expand("F", "", "FF", 25);
    assert_eq!(s.len(), 1 << 19);
    assert!(s.len() > MAX_LSYSTEM_LEN);
    assert_eq!(expand("F", "", "FF", 18).len(), 1 << 18);
}
