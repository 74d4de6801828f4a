//! Morton (Z-order) codes and the Morton resampling index plan.

use vstd::prelude::*;

verus! {

/// Bit `i` of `n` moved to bit `3 * i`, for the ten low bits of `n`.
pub open spec fn spread10(n: u32) -> u32 {
    (n & 0x1) | ((n & 0x2) << 2u32) | ((n & 0x4) << 4u32) | ((n & 0x8) << 6u32) | ((n & 0x10)
        << 8u32) | ((n & 0x20) << 10u32) | ((n & 0x40) << 12u32) | ((n & 0x80) << 14u32) | ((n
        & 0x100) << 16u32) | ((n & 0x200) << 18u32)
}

/// Spread a 10-bit integer so its bits occupy every third position (for Morton/Z-order).
pub fn part1by2(n: u32) -> (r: u32)
    ensures
        r == spread10(n),
{
    let m0 = n & 0x3ff;
    let m1 = (m0 | (m0 << 16u32)) & 0x030000ff;
    let m2 = (m1 | (m1 << 8u32)) & 0x0300f00f;
    let m3 = (m2 | (m2 << 4u32)) & 0x030c30c3;
    let m4 = (m3 | (m3 << 2u32)) & 0x09249249;
    assert(m4 == spread10(n)) by (bit_vector)
        requires
            m0 == n & 0x3ff,
            m1 == (m0 | (m0 << 16u32)) & 0x030000ff,
            m2 == (m1 | (m1 << 8u32)) & 0x0300f00f,
            m3 == (m2 | (m2 << 4u32)) & 0x030c30c3,
            m4 == (m3 | (m3 << 2u32)) & 0x09249249,
    ;
    m4
}

/// The 30-bit Morton (Z-order) code of three quantized coordinates: bit `i` of `x`, `y`, `z`
/// lands on bit `3i`, `3i + 1`, `3i + 2`.
pub open spec fn spec_morton(x: u32, y: u32, z: u32) -> u32 {
    spread10(x) | (spread10(y) << 1u32) | (spread10(z) << 2u32)
}

/// Morton code of a position already quantized to `0..=1023` per axis.
pub fn morton_code(x: u32, y: u32, z: u32) -> (r: u32)
    ensures
        r == spec_morton(x, y, z),
{
    part1by2(x) | (part1by2(y) << 1u32) | (part1by2(z) << 2u32)
}

/// Morton interleaving: bit `i` (for `i < 10`) of each coordinate is bit `3i + axis` of the code,
/// and no code has a bit at or above position 30.
pub proof fn lemma_morton_interleaves(x: u32, y: u32, z: u32, i: u32)
    requires
        i < 10,
    ensures
        (spec_morton(x, y, z) >> (3 * i)) & 1 == (x >> i) & 1,
        (spec_morton(x, y, z) >> (3 * i + 1)) & 1 == (y >> i) & 1,
        (spec_morton(x, y, z) >> (3 * i + 2)) & 1 == (z >> i) & 1,
        spec_morton(x, y, z) < 0x4000_0000,
{
    assert((spec_morton(x, y, z) >> (3 * i)) & 1 == (x >> i) & 1) by (bit_vector)
        requires
            i < 10,
    ;
    assert((spec_morton(x, y, z) >> (3 * i + 1)) & 1 == (y >> i) & 1) by (bit_vector)
        requires
            i < 10,
    ;
    assert((spec_morton(x, y, z) >> (3 * i + 2)) & 1 == (z >> i) & 1) by (bit_vector)
        requires
            i < 10,
    ;
    assert(spec_morton(x, y, z) < 0x4000_0000) by (bit_vector);
}

/// `a` comes before `b` in Morton order: by key, ties broken by position in the input (a stable sort).
pub open spec fn key_before(keys: Seq<u32>, a: int, b: int) -> bool {
    keys[a] < keys[b] || (keys[a] == keys[b] && a < b)
}

/// `ord` lists every index of `keys` exactly once, stably sorted by key.
pub open spec fn is_morton_order(keys: Seq<u32>, ord: Seq<usize>) -> bool {
    &&& ord.len() == keys.len()
    &&& forall|j: int| 0 <= j < ord.len() ==> #[trigger] ord[j] < keys.len()
    &&& forall|i: int, j: int|
        0 <= i < j < ord.len() ==> key_before(keys, #[trigger] ord[i] as int, #[trigger] ord[j] as int)
}

/// The resample slot `i` of `n` reads from position `min(i * m / n, m - 1)` of the order.
pub open spec fn resample_pick(i: int, m: int, n: int) -> int {
    let p = (i * m) / n;
    if p < m - 1 { p } else { m - 1 }
}

pub open spec fn pack_spec(key: u32, idx: int) -> int {
    key * 0x1_0000_0000_0000_0000 + idx
}

pub open spec fn u128_sorted(s: Seq<u128>) -> bool {
    forall|i: int, j: int| 0 <= i <= j < s.len() ==> #[trigger] s[i] <= #[trigger] s[j]
}

/// `slice::sort_unstable` on `u128`s: sorts ascending, keeping exactly the same elements.
#[verifier::external_body]
fn sort_u128(v: &mut Vec<u128>)
    ensures
        final(v)@.len() == old(v)@.len(),
        u128_sorted(final(v)@),
        final(v)@.to_multiset() == old(v)@.to_multiset(),
{
    v.sort_unstable();
}

proof fn lemma_packed_distinct(keys: Seq<u32>, p: Seq<u128>)
    requires
        p.len() == keys.len(),
        keys.len() <= 0x1_0000_0000_0000_0000,
        forall|i: int| 0 <= i < p.len() ==> #[trigger] p[i] as int == pack_spec(keys[i], i),
    ensures
        p.no_duplicates(),
{
    assert forall|i: int, j: int| 0 <= i < p.len() && 0 <= j < p.len() && i != j implies p[i]
        != p[j] by {
        if p[i] == p[j] {
            assert(pack_spec(keys[i], i) == pack_spec(keys[j], j));
            assert(i == j) by (nonlinear_arith)
                requires
                    keys[i] * 0x1_0000_0000_0000_0000 + i == keys[j] * 0x1_0000_0000_0000_0000 + j,
                    0 <= i < 0x1_0000_0000_0000_0000,
                    0 <= j < 0x1_0000_0000_0000_0000,
            ;
        }
    }
}

proof fn lemma_unpack(key: u32, idx: int)
    requires
        0 <= idx < 0x1_0000_0000_0000_0000,
    ensures
        pack_spec(key, idx) % 0x1_0000_0000_0000_0000 == idx,
        pack_spec(key, idx) / 0x1_0000_0000_0000_0000 == key,
{
    vstd::arithmetic::div_mod::lemma_fundamental_div_mod_converse(
        pack_spec(key, idx),
        0x1_0000_0000_0000_0000,
        key as int,
        idx,
    );
}

/// The Morton order of a set of Morton keys: every index once, stably sorted by key (the order
/// `sort_by_key` leaves the points in).
pub fn morton_order(keys: &Vec<u32>) -> (ord: Vec<usize>)
    ensures
        is_morton_order(keys@, ord@),
{
    let m = keys.len();
    let mut packed: Vec<u128> = Vec::with_capacity(m);
    let mut i: usize = 0;
    while i < m
        invariant
            i <= m,
            m == keys.len(),
            packed@.len() == i,
            forall|k: int| 0 <= k < i ==> #[trigger] packed@[k] as int == pack_spec(keys@[k], k),
        decreases m - i,
    {
        let p: u128 = (keys[i] as u128) * 0x1_0000_0000_0000_0000u128 + (i as u128);
        packed.push(p);
        i += 1;
    }
    let ghost orig = packed@;
    proof {
        lemma_packed_distinct(keys@, orig);
        orig.lemma_multiset_has_no_duplicates();
    }
    sort_u128(&mut packed);
    let ghost sorted = packed@;
    proof {
        broadcast use vstd::seq_lib::group_to_multiset_ensures;
        assert forall|x: u128| sorted.to_multiset().contains(x) implies sorted.to_multiset().count(
            x,
        ) == 1 by {
            assert(orig.to_multiset().contains(x));
        }
        sorted.lemma_multiset_has_no_duplicates_conv();
        assert forall|t: int| 0 <= t < m implies orig.contains(#[trigger] sorted[t]) by {
            assert(sorted.to_multiset().count(sorted[t]) > 0);
            assert(orig.to_multiset().count(sorted[t]) > 0);
        }
    }
    let mut ord: Vec<usize> = Vec::with_capacity(m);
    let mut j: usize = 0;
    while j < m
        invariant
            j <= m,
            m == keys.len(),
            packed@ == sorted,
            sorted.len() == m,
            orig.len() == m,
            u128_sorted(sorted),
            sorted.no_duplicates(),
            forall|k: int| 0 <= k < m ==> #[trigger] orig[k] as int == pack_spec(keys@[k], k),
            forall|t: int| 0 <= t < m ==> orig.contains(#[trigger] sorted[t]),
            ord@.len() == j,
            forall|t: int|
                0 <= t < j ==> #[trigger] ord@[t] < m && sorted[t] as int == pack_spec(
                    keys@[ord@[t] as int],
                    ord@[t] as int,
                ),
        decreases m - j,
    {
        let p = packed[j];
        proof {
            assert(orig.contains(sorted[j as int]));
            let k = choose|k: int| 0 <= k < orig.len() && orig[k] == sorted[j as int];
            lemma_unpack(keys@[k], k);
        }
        let idx = (p % 0x1_0000_0000_0000_0000u128) as usize;
        ord.push(idx);
        j += 1;
    }
    proof {
        assert forall|a: int, b: int| 0 <= a < b < ord@.len() implies key_before(
            keys@,
            #[trigger] ord@[a] as int,
            #[trigger] ord@[b] as int,
        ) by {
            assert(sorted[a] <= sorted[b]);
            assert(sorted[a] != sorted[b]);
            let ka = keys@[ord@[a] as int];
            let kb = keys@[ord@[b] as int];
            let ia = ord@[a] as int;
            let ib = ord@[b] as int;
            assert(ka < kb || (ka == kb && ia < ib)) by (nonlinear_arith)
                requires
                    ka * 0x1_0000_0000_0000_0000 + ia < kb * 0x1_0000_0000_0000_0000 + ib,
                    0 <= ia < 0x1_0000_0000_0000_0000,
                    0 <= ib < 0x1_0000_0000_0000_0000,
            ;
        }
    }
    ord
}

proof fn lemma_order_covers(keys: Seq<u32>, o: Seq<usize>)
    requires
        is_morton_order(keys, o),
    ensures
        forall|x: usize| x < keys.len() ==> #[trigger] o.contains(x),
{
    let m = keys.len() as int;
    let oi = o.map_values(|x: usize| x as int);
    assert(oi.no_duplicates()) by {
        assert forall|a: int, b: int| 0 <= a < oi.len() && 0 <= b < oi.len() && a != b implies oi[a]
            != oi[b] by {
            if a < b {
                assert(key_before(keys, o[a] as int, o[b] as int));
            } else {
                assert(key_before(keys, o[b] as int, o[a] as int));
            }
        }
    }
    oi.unique_seq_to_set();
    vstd::set_lib::lemma_int_range(0, m);
    assert(oi.to_set().subset_of(vstd::set_lib::set_int_range(0, m)));
    vstd::set_lib::lemma_subset_equality(oi.to_set(), vstd::set_lib::set_int_range(0, m));
    assert forall|x: usize| x < m implies #[trigger] o.contains(x) by {
        assert(vstd::set_lib::set_int_range(0, m).contains(x as int));
        assert(oi.to_set().contains(x as int));
        assert(oi.contains(x as int));
        let j = choose|j: int| 0 <= j < oi.len() && oi[j] == x as int;
        assert(o[j] == x);
    }
}

proof fn lemma_orders_agree_below(keys: Seq<u32>, o1: Seq<usize>, o2: Seq<usize>, j: int)
    requires
        is_morton_order(keys, o1),
        is_morton_order(keys, o2),
        0 <= j <= keys.len(),
    ensures
        forall|k: int| 0 <= k < j ==> o1[k] == o2[k],
    decreases j,
{
    if j > 0 {
        let t = j - 1;
        lemma_orders_agree_below(keys, o1, o2, t);
        lemma_order_covers(keys, o1);
        lemma_order_covers(keys, o2);
        if o1[t] != o2[t] {
            let a = o1[t] as int;
            let b = o2[t] as int;
            if key_before(keys, a, b) {
                assert(o2.contains(o1[t]));
                let k = choose|k: int| 0 <= k < o2.len() && o2[k] == o1[t];
                if k < t {
                    assert(o1[k] == o2[k]);
                    assert(key_before(keys, o1[k] as int, o1[t] as int));
                } else {
                    assert(key_before(keys, o2[t] as int, o2[k] as int));
                }
            } else {
                assert(o1.contains(o2[t]));
                let k = choose|k: int| 0 <= k < o1.len() && o1[k] == o2[t];
                if k < t {
                    assert(o1[k] == o2[k]);
                    assert(key_before(keys, o2[k] as int, o2[t] as int));
                } else {
                    assert(key_before(keys, o1[t] as int, o1[k] as int));
                }
            }
        }
    }
}

/// The Morton order of a key sequence is unique: any two stable key orders are the same sequence.
pub proof fn lemma_morton_order_unique(keys: Seq<u32>, o1: Seq<usize>, o2: Seq<usize>)
    requires
        is_morton_order(keys, o1),
        is_morton_order(keys, o2),
    ensures
        o1 == o2,
{
    lemma_orders_agree_below(keys, o1, o2, keys.len() as int);
    assert(o1 =~= o2);
}

/// Resample a Morton-sorted cloud of `keys.len()` points to exactly `n`: slot `i` takes the point at
/// position `min(i * m / n, m - 1)` of the Morton order (up- or down-sampling); nothing when either
/// count is zero.
pub fn resample_morton(keys: &Vec<u32>, n: usize) -> (res: Vec<usize>)
    requires
        n == 0 || keys.len() * (n - 1) <= usize::MAX,
    ensures
        res.len() == (if keys.len() == 0 || n == 0 { 0 } else { n }),
        forall|ord: Seq<usize>|
            is_morton_order(keys@, ord) ==> forall|i: int|
                0 <= i < res.len() ==> #[trigger] res@[i] == ord[resample_pick(
                    i,
                    keys.len() as int,
                    n as int,
                )],
{
    let m = keys.len();
    if m == 0 || n == 0 {
        return Vec::new();
    }
    let ord = morton_order(keys);
    let mut res: Vec<usize> = Vec::with_capacity(n);
    let mut i: usize = 0;
    while i < n
        invariant
            i <= n,
            m == keys.len(),
            m > 0,
            n > 0,
            m * (n - 1) <= usize::MAX,
            is_morton_order(keys@, ord@),
            res@.len() == i,
            forall|k: int|
                0 <= k < i ==> #[trigger] res@[k] == ord@[resample_pick(k, m as int, n as int)],
        decreases n - i,
    {
        assert(i * m <= m * (n - 1)) by (nonlinear_arith)
            requires
                i < n,
        ;
        let p = (i * m) / n;
        let q = if p < m - 1 {
            p
        } else {
            m - 1
        };
        res.push(ord[q]);
        i += 1;
    }
    proof {
        assert forall|o: Seq<usize>| is_morton_order(keys@, o) implies forall|k: int|
            0 <= k < res.len() ==> #[trigger] res@[k] == o[resample_pick(k, m as int, n as int)] by {
            lemma_morton_order_unique(keys@, ord@, o);
        }
    }
    res
}

/// Resampling keeps spatial order: a later slot never reads an earlier point of the Morton order,
/// and every slot reads a point of the cloud.
pub proof fn lemma_resample_keeps_spatial_order(i: int, j: int, m: int, n: int)
    requires
        0 <= i <= j < n,
        0 < m,
    ensures
        0 <= resample_pick(i, m, n) <= resample_pick(j, m, n) < m,
{
    vstd::arithmetic::mul::lemma_mul_inequality(i, j, m);
    vstd::arithmetic::mul::lemma_mul_nonnegative(i, m);
    vstd::arithmetic::div_mod::lemma_div_is_ordered(i * m, j * m, n);
    vstd::arithmetic::div_mod::lemma_div_pos_is_pos(i * m, n);
}

} // verus!
