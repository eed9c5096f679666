//! The Goldilocks prime is a prime: every number below it but zero has an inverse modulo it.

use vstd::arithmetic::div_mod::{
    lemma_fundamental_div_mod, lemma_mod_mod, lemma_mod_multiples_vanish, lemma_mul_mod_noop_left,
    lemma_mul_mod_noop_right, lemma_small_mod,
};
use vstd::arithmetic::power2::{lemma2_to64, lemma_pow2_pos, lemma_pow2_unfold, pow2};
use vstd::prelude::*;
use vstd::set_lib::{lemma_int_range, lemma_len_subset, lemma_map_size, set_int_range};
use crate::goldilocks::P;

verus! {

/// A number whose `2^31`-th power is minus one modulo the Goldilocks prime, so that it generates
/// the subgroup of order `2^32`.
pub const ROOT: u64 = 0x1856_29dc_da58_878c;

/// The power of a number modulo another.
pub open spec fn power_mod(a: int, n: nat, d: int) -> int
    decreases n,
{
    if n == 0 {
        1int % d
    } else {
        (power_mod(a, (n - 1) as nat, d) * a) % d
    }
}

proof fn lemma_power_range(a: int, n: nat, d: int)
    requires
        d > 0,
    ensures
        0 <= power_mod(a, n, d) < d,
{
}

pub proof fn lemma_power_add(a: int, m: nat, n: nat, d: int)
    requires
        d > 0,
    ensures
        power_mod(a, m + n, d) == (power_mod(a, m, d) * power_mod(a, n, d)) % d,
    decreases n,
{
    let x = power_mod(a, m, d);
    lemma_power_range(a, m, d);
    if n == 0 {
        lemma_mul_mod_noop_right(x, 1, d);
        lemma_small_mod(x as nat, d as nat);
    } else {
        let y = power_mod(a, (n - 1) as nat, d);
        lemma_power_add(a, m, (n - 1) as nat, d);
        assert((m + n - 1) as nat == m + (n - 1) as nat);
        lemma_mul_mod_noop_left(x * y, a, d);
        lemma_mul_mod_noop_right(x, y * a, d);
        assert((x * y) * a == x * (y * a)) by (nonlinear_arith);
    }
}

pub proof fn lemma_power_mul(a: int, m: nat, n: nat, d: int)
    requires
        d > 0,
    ensures
        power_mod(a, m * n, d) == power_mod(power_mod(a, m, d), n, d),
    decreases n,
{
    if n == 0 {
        assert(m * n == 0) by (nonlinear_arith)
            requires
                n == 0,
        ;
    } else {
        let before = (n - 1) as nat;
        assert(m * n == m * before + m) by (nonlinear_arith)
            requires
                n == before + 1,
        ;
        lemma_power_mul(a, m, before, d);
        lemma_power_add(a, m * before, m, d);
    }
}

/// What holds of a power modulo a number holds modulo its divisors.
proof fn lemma_power_divisor(a: int, n: nat, d: int, e: int)
    requires
        d > 0,
        e > 0,
    ensures
        power_mod(a, n, d * e) % d == power_mod(a, n, d),
    decreases n,
{
    if n == 0 {
        lemma_mod_mod(1, d, e);
    } else {
        let x = power_mod(a, (n - 1) as nat, d * e);
        lemma_power_divisor(a, (n - 1) as nat, d, e);
        lemma_mod_mod(x * a, d, e);
        lemma_mul_mod_noop_left(x, a, d);
    }
}

proof fn lemma_power_of_one(n: nat, d: int)
    requires
        d > 1,
    ensures
        power_mod(1, n, d) == 1,
    decreases n,
{
    lemma_small_mod(1, d as nat);
    if n > 0 {
        lemma_power_of_one((n - 1) as nat, d);
    }
}

/// An odd power of minus one is minus one.
proof fn lemma_power_of_minus_one(n: nat, d: int)
    requires
        d > 1,
    ensures
        power_mod(d - 1, n, d) == (if n % 2 == 1 {
            d - 1
        } else {
            1
        }),
    decreases n,
{
    lemma_small_mod(1, d as nat);
    lemma_small_mod((d - 1) as nat, d as nat);
    if n > 0 {
        lemma_power_of_minus_one((n - 1) as nat, d);
        if n % 2 == 0 {
            assert((d - 1) * (d - 1) == d * (d - 2) + 1) by (nonlinear_arith);
            lemma_mod_multiples_vanish(d - 2, 1, d);
        }
    }
}

/// A number whose `2^k`-th power is minus one has no lower power that is one than the
/// `2^(k + 1)`-th.
pub proof fn lemma_order(x: int, k: nat, m: nat, d: int)
    requires
        d > 2,
        power_mod(x, pow2(k), d) == d - 1,
        0 < m < pow2(k + 1),
    ensures
        power_mod(x, m, d) != 1,
    decreases m,
{
    lemma_pow2_unfold(k + 1);
    lemma_pow2_pos(k);
    if m % 2 == 1 {
        if power_mod(x, m, d) == 1 {
            lemma_power_mul(x, m, pow2(k), d);
            lemma_power_of_one(pow2(k), d);
            lemma_power_mul(x, pow2(k), m, d);
            lemma_power_of_minus_one(m, d);
            assert(m * pow2(k) == pow2(k) * m) by (nonlinear_arith);
        }
    } else {
        if k == 0 {
            lemma2_to64();
        }
        let before = (k - 1) as nat;
        let square = power_mod(x, 2, d);
        lemma_pow2_unfold(k);
        lemma_power_mul(x, 2, pow2(before), d);
        lemma_order(square, before, m / 2, d);
        lemma_power_mul(x, 2, m / 2, d);
        assert(2 * (m / 2) == m);
    }
}

proof fn lemma_square_step(a: int, k: nat, x: int, y: int)
    requires
        power_mod(a, pow2(k), P as int) == x,
        (x * x) % (P as int) == y,
    ensures
        power_mod(a, pow2(k + 1), P as int) == y,
{
    lemma_pow2_unfold(k + 1);
    lemma_power_add(a, pow2(k), pow2(k), P as int);
}

proof fn lemma_first_power(a: int)
    requires
        0 <= a < P,
    ensures
        power_mod(a, pow2(0), P as int) == a,
{
    lemma2_to64();
    reveal_with_fuel(power_mod, 2);
    lemma_small_mod(1, P as nat);
    lemma_small_mod(a as nat, P as nat);
}

pub proof fn lemma_root()
    ensures
        power_mod(ROOT as int, pow2(31), P as int) == P - 1,
{
    lemma_first_power(ROOT as int);
    lemma_square_step(ROOT as int, 0, 0x1856_29dc_da58_878c, 0x400a_7f75_5588_e659);
    lemma_square_step(ROOT as int, 1, 0x400a_7f75_5588_e659, 0x7e9b_d009_b86a_0845);
    lemma_square_step(ROOT as int, 2, 0x7e9b_d009_b86a_0845, 0xdfa8_c93b_a46d_2666);
    lemma_square_step(ROOT as int, 3, 0xdfa8_c93b_a46d_2666, 0x5904_9500_004a_4485);
    lemma_square_step(ROOT as int, 4, 0x5904_9500_004a_4485, 0x10d7_8dd8_915a_171d);
    lemma_square_step(ROOT as int, 5, 0x10d7_8dd8_915a_171d, 0xed41_d05b_78d6_e286);
    lemma_square_step(ROOT as int, 6, 0xed41_d05b_78d6_e286, 0x4bba_f597_6ecf_efd8);
    lemma_square_step(ROOT as int, 7, 0x4bba_f597_6ecf_efd8, 0x86cd_cc31_c307_e171);
    lemma_square_step(ROOT as int, 8, 0x86cd_cc31_c307_e171, 0xea9d_5a13_36fb_c98b);
    lemma_square_step(ROOT as int, 9, 0xea9d_5a13_36fb_c98b, 0x4b2a_18ad_e672_46b5);
    lemma_square_step(ROOT as int, 10, 0x4b2a_18ad_e672_46b5, 0xf502_aef5_3232_2654);
    lemma_square_step(ROOT as int, 11, 0xf502_aef5_3232_2654, 0x30ba_2ecd_5e93_e76d);
    lemma_square_step(ROOT as int, 12, 0x30ba_2ecd_5e93_e76d, 0xfbd4_1c6b_8caa_3302);
    lemma_square_step(ROOT as int, 13, 0xfbd4_1c6b_8caa_3302, 0x8128_1a7b_05f9_beac);
    lemma_square_step(ROOT as int, 14, 0x8128_1a7b_05f9_beac, 0xabd0_a6e8_aa3d_8a0e);
    lemma_square_step(ROOT as int, 15, 0xabd0_a6e8_aa3d_8a0e, 0x54df_9630_bf79_450e);
    lemma_square_step(ROOT as int, 16, 0x54df_9630_bf79_450e, 0xf6b2_cffe_2306_baac);
    lemma_square_step(ROOT as int, 17, 0xf6b2_cffe_2306_baac, 0xe0ee_0993_10bb_a1e2);
    lemma_square_step(ROOT as int, 18, 0xe0ee_0993_10bb_a1e2, 0x1544_ef23_35d1_7997);
    lemma_square_step(ROOT as int, 19, 0x1544_ef23_35d1_7997, 0xf2c3_5199_959d_fcb6);
    lemma_square_step(ROOT as int, 20, 0xf2c3_5199_959d_fcb6, 0x0653_b480_1da1_c8cf);
    lemma_square_step(ROOT as int, 21, 0x0653_b480_1da1_c8cf, 0x9d8f_2ad7_8bfe_d972);
    lemma_square_step(ROOT as int, 22, 0x9d8f_2ad7_8bfe_d972, 0x1905_d02a_5c41_1f4e);
    lemma_square_step(ROOT as int, 23, 0x1905_d02a_5c41_1f4e, 0xbf79_143c_e60c_a966);
    lemma_square_step(ROOT as int, 24, 0xbf79_143c_e60c_a966, 0xf800_07ff_0800_0001);
    lemma_square_step(ROOT as int, 25, 0xf800_07ff_0800_0001, 0x0000_0080_0000_0000);
    lemma_square_step(ROOT as int, 26, 0x0000_0080_0000_0000, 0x0000_3fff_ffff_c000);
    lemma_square_step(ROOT as int, 27, 0x0000_3fff_ffff_c000, 0xefff_ffff_0000_0001);
    lemma_square_step(ROOT as int, 28, 0xefff_ffff_0000_0001, 0xffff_fffe_ff00_0001);
    lemma_square_step(ROOT as int, 29, 0xffff_fffe_ff00_0001, 0x0001_0000_0000_0000);
    lemma_square_step(ROOT as int, 30, 0x0001_0000_0000_0000, 0xffff_ffff_0000_0000);
}

/// The powers of the root, below `2^32`, are distinct and not zero modulo a divisor of the prime.
proof fn lemma_powers_distinct(d: int, i: nat, j: nat)
    requires
        d > 2,
        power_mod(ROOT as int, pow2(31), d) == d - 1,
        i < j < pow2(32),
    ensures
        power_mod(ROOT as int, i, d) != power_mod(ROOT as int, j, d),
        power_mod(ROOT as int, i, d) != 0,
{
    let x = ROOT as int;
    let (a, b) = (power_mod(x, i, d), power_mod(x, j, d));
    let up = (pow2(32) - i) as nat;
    let c = power_mod(x, up, d);
    let gap = (j - i) as nat;
    lemma_small_mod(1, d as nat);
    // the power that is one
    lemma_pow2_unfold(32);
    lemma_power_add(x, pow2(31), pow2(31), d);
    assert((d - 1) * (d - 1) == d * (d - 2) + 1) by (nonlinear_arith);
    lemma_mod_multiples_vanish(d - 2, 1, d);
    assert(power_mod(x, pow2(32), d) == 1);
    lemma_power_add(x, i, up, d);
    assert(i + up == pow2(32));
    assert((a * c) % d == 1);
    if a == 0 {
        assert(a * c == 0) by (nonlinear_arith)
            requires
                a == 0,
        ;
        lemma_small_mod(0, d as nat);
    }
    if a == b {
        lemma_power_add(x, j, up, d);
        assert(j + up == pow2(32) + gap);
        lemma_power_add(x, pow2(32), gap, d);
        lemma_power_range(x, gap, d);
        lemma_small_mod(power_mod(x, gap, d) as nat, d as nat);
        lemma_order(x, 31, gap, d);
    }
}

/// A divisor of the prime, other than one, is greater than `2^32`.
proof fn lemma_divisor_is_large(d: int, e: int)
    requires
        d > 1,
        e > 0,
        d * e == P,
    ensures
        d > 0x1_0000_0000,
{
    assert(d != 2) by {
        if d == 2 {
            assert(2 * e == P);
        }
    }
    let x = ROOT as int;
    lemma_root();
    lemma_power_divisor(x, pow2(31), d, e);
    assert((P - 1) % d == d - 1) by {
        assert(P - 1 == d * (e - 1) + (d - 1)) by (nonlinear_arith)
            requires
                d * e == P,
        ;
        lemma_mod_multiples_vanish(e - 1, d - 1, d);
        lemma_small_mod((d - 1) as nat, d as nat);
    }
    lemma2_to64();
    let f = |i: int| power_mod(x, i as nat, d);
    let indices = set_int_range(0, 0xFFFF_FFFF);
    let images = indices.map(f);
    assert forall|i: int, j: int| #[trigger]
        indices.contains(i) && #[trigger] indices.contains(j) && f(i) == f(j) implies i == j by {
        if i < j {
            lemma_powers_distinct(d, i as nat, j as nat);
        } else if j < i {
            lemma_powers_distinct(d, j as nat, i as nat);
        }
    }
    lemma_int_range(0, 0xFFFF_FFFF);
    lemma_map_size(indices, images, f);
    assert forall|y: int| #[trigger] images.contains(y) implies set_int_range(1, d).contains(y) by {
        let i = choose|i: int| indices.contains(i) && f(i) == y;
        lemma_powers_distinct(d, i as nat, (i + 1) as nat);
        lemma_power_range(x, i as nat, d);
    }
    lemma_int_range(1, d);
    lemma_len_subset(images, set_int_range(1, d));
    // d - 1 >= 2^32 - 1, and 2^32 does not divide the prime
    if d == 0x1_0000_0000 {
        assert(0x1_0000_0000 * e == P);
    }
}

/// The prime is a prime.
proof fn lemma_prime(d: int)
    requires
        1 < d < P,
    ensures
        (P as int) % d != 0,
{
    if (P as int) % d == 0 {
        let e = (P as int) / d;
        lemma_fundamental_div_mod(P as int, d);
        assert(e > 1) by (nonlinear_arith)
            requires
                d * e == P,
                1 < d < P,
        ;
        assert(e * d == P) by (nonlinear_arith)
            requires
                d * e == P,
        ;
        lemma_divisor_is_large(d, e);
        lemma_divisor_is_large(e, d);
        assert(d * e > P) by (nonlinear_arith)
            requires
                d > 0x1_0000_0000,
                e > 0x1_0000_0000,
        ;
    }
}

/// Every number below the prime but zero has an inverse modulo it.
pub proof fn lemma_inverse(a: int) -> (x: int)
    requires
        0 < a < P,
    ensures
        0 <= x < P,
        (a * x) % (P as int) == 1,
    decreases a,
{
    let p = P as int;
    if a == 1 {
        1
    } else {
        let (q, r) = (p / a, p % a);
        lemma_prime(a);
        lemma_fundamental_div_mod(p, a);
        let y = lemma_inverse(r);
        let x = (-q * y) % p;
        // a x = -q a y = (r - p) y
        lemma_mul_mod_noop_right(a, -q * y, p);
        assert(a * (-q * y) == p * (-y) + r * y) by (nonlinear_arith)
            requires
                p == a * q + r,
        ;
        lemma_mod_multiples_vanish(-y, r * y, p);
        x
    }
}

/// The power of seven whose exponent has `k` ones in binary.
#[verifier::opaque]
spec fn seven_to_ones(k: nat) -> int {
    power_mod(7, (pow2(k) - 1) as nat, P as int)
}

proof fn lemma_odd_step(k: nat, x: int, y: int)
    requires
        seven_to_ones(k) == x,
        (((x * x) % (P as int)) * 7) % (P as int) == y,
    ensures
        seven_to_ones(k + 1) == y,
{
    reveal(seven_to_ones);
    let a = 7;
    let n = (pow2(k) - 1) as nat;
    lemma_pow2_pos(k);
    lemma_pow2_unfold(k + 1);
    lemma_power_add(a, n, n, P as int);
    assert((pow2(k + 1) - 1) as nat == n + n + 1);
}

proof fn lemma_seven_odd_power()
    ensures
        seven_to_ones(32) == 0x1856_29dc_da58_878c,
{
    assert(seven_to_ones(1) == 7) by {
        reveal(seven_to_ones);
        lemma_first_power(7);
        lemma2_to64();
    }
    lemma_odd_step(1, 0x0000_0000_0000_0007, 0x0000_0000_0000_0157);
    lemma_odd_step(2, 0x0000_0000_0000_0157, 0x0000_0000_000c_90f7);
    lemma_odd_step(3, 0x0000_0000_000c_90f7, 0x0000_0451_60b7_a437);
    lemma_odd_step(4, 0x0000_0451_60b7_a437, 0x99af_ae24_0f49_187b);
    lemma_odd_step(5, 0x99af_ae24_0f49_187b, 0xa897_4fb5_a161_a54e);
    lemma_odd_step(6, 0xa897_4fb5_a161_a54e, 0x6140_0096_e777_dba3);
    lemma_odd_step(7, 0x6140_0096_e777_dba3, 0x70c2_c3d5_1532_b015);
    lemma_odd_step(8, 0x70c2_c3d5_1532_b015, 0x246c_0cee_a861_a57f);
    lemma_odd_step(9, 0x246c_0cee_a861_a57f, 0x7288_f8ac_3eb1_47db);
    lemma_odd_step(10, 0x7288_f8ac_3eb1_47db, 0x312d_46fa_4985_c61b);
    lemma_odd_step(11, 0x312d_46fa_4985_c61b, 0xa647_05c6_baab_a93f);
    lemma_odd_step(12, 0xa647_05c6_baab_a93f, 0x8ba3_d55d_2139_aa43);
    lemma_odd_step(13, 0x8ba3_d55d_2139_aa43, 0x9185_1167_eece_da71);
    lemma_odd_step(14, 0x9185_1167_eece_da71, 0x3972_67bb_b0d4_70dc);
    lemma_odd_step(15, 0x3972_67bb_b0d4_70dc, 0xa867_93b7_0b17_04a5);
    lemma_odd_step(16, 0xa867_93b7_0b17_04a5, 0x3c0b_da2f_fb16_3853);
    lemma_odd_step(17, 0x3c0b_da2f_fb16_3853, 0x02de_9087_3f8d_cc0c);
    lemma_odd_step(18, 0x02de_9087_3f8d_cc0c, 0x8bfa_bfdd_7ea6_212d);
    lemma_odd_step(19, 0x8bfa_bfdd_7ea6_212d, 0x19c0_e0fb_7b44_6dca);
    lemma_odd_step(20, 0x19c0_e0fb_7b44_6dca, 0x69d6_953b_b77f_86f7);
    lemma_odd_step(21, 0x69d6_953b_b77f_86f7, 0x6c1e_e88c_45c2_b408);
    lemma_odd_step(22, 0x6c1e_e88c_45c2_b408, 0x51e7_d705_a299_e049);
    lemma_odd_step(23, 0x51e7_d705_a299_e049, 0x7c00_6a86_cb2e_1b6a);
    lemma_odd_step(24, 0x7c00_6a86_cb2e_1b6a, 0xb5b6_6fc4_e2a5_e852);
    lemma_odd_step(25, 0xb5b6_6fc4_e2a5_e852, 0x9c09_c794_6430_52c2);
    lemma_odd_step(26, 0x9c09_c794_6430_52c2, 0x1ca3_70dd_dbd4_b593);
    lemma_odd_step(27, 0x1ca3_70dd_dbd4_b593, 0xb54f_aaef_eebf_d11e);
    lemma_odd_step(28, 0xb54f_aaef_eebf_d11e, 0xe647_9c57_5768_caac);
    lemma_odd_step(29, 0xe647_9c57_5768_caac, 0x514f_d349_847c_85d1);
    lemma_odd_step(30, 0x514f_d349_847c_85d1, 0xd950_51a3_1cf4_a6ef);
    lemma_odd_step(31, 0xd950_51a3_1cf4_a6ef, 0x1856_29dc_da58_878c);
}

proof fn lemma_seven_even_power()
    ensures
        power_mod(0x1856_29dc_da58_878c, pow2(31), P as int) == P - 1,
{
    lemma_first_power(0x1856_29dc_da58_878c);
    lemma_square_step(0x1856_29dc_da58_878c, 0, 0x1856_29dc_da58_878c, 0x400a_7f75_5588_e659);
    lemma_square_step(0x1856_29dc_da58_878c, 1, 0x400a_7f75_5588_e659, 0x7e9b_d009_b86a_0845);
    lemma_square_step(0x1856_29dc_da58_878c, 2, 0x7e9b_d009_b86a_0845, 0xdfa8_c93b_a46d_2666);
    lemma_square_step(0x1856_29dc_da58_878c, 3, 0xdfa8_c93b_a46d_2666, 0x5904_9500_004a_4485);
    lemma_square_step(0x1856_29dc_da58_878c, 4, 0x5904_9500_004a_4485, 0x10d7_8dd8_915a_171d);
    lemma_square_step(0x1856_29dc_da58_878c, 5, 0x10d7_8dd8_915a_171d, 0xed41_d05b_78d6_e286);
    lemma_square_step(0x1856_29dc_da58_878c, 6, 0xed41_d05b_78d6_e286, 0x4bba_f597_6ecf_efd8);
    lemma_square_step(0x1856_29dc_da58_878c, 7, 0x4bba_f597_6ecf_efd8, 0x86cd_cc31_c307_e171);
    lemma_square_step(0x1856_29dc_da58_878c, 8, 0x86cd_cc31_c307_e171, 0xea9d_5a13_36fb_c98b);
    lemma_square_step(0x1856_29dc_da58_878c, 9, 0xea9d_5a13_36fb_c98b, 0x4b2a_18ad_e672_46b5);
    lemma_square_step(0x1856_29dc_da58_878c, 10, 0x4b2a_18ad_e672_46b5, 0xf502_aef5_3232_2654);
    lemma_square_step(0x1856_29dc_da58_878c, 11, 0xf502_aef5_3232_2654, 0x30ba_2ecd_5e93_e76d);
    lemma_square_step(0x1856_29dc_da58_878c, 12, 0x30ba_2ecd_5e93_e76d, 0xfbd4_1c6b_8caa_3302);
    lemma_square_step(0x1856_29dc_da58_878c, 13, 0xfbd4_1c6b_8caa_3302, 0x8128_1a7b_05f9_beac);
    lemma_square_step(0x1856_29dc_da58_878c, 14, 0x8128_1a7b_05f9_beac, 0xabd0_a6e8_aa3d_8a0e);
    lemma_square_step(0x1856_29dc_da58_878c, 15, 0xabd0_a6e8_aa3d_8a0e, 0x54df_9630_bf79_450e);
    lemma_square_step(0x1856_29dc_da58_878c, 16, 0x54df_9630_bf79_450e, 0xf6b2_cffe_2306_baac);
    lemma_square_step(0x1856_29dc_da58_878c, 17, 0xf6b2_cffe_2306_baac, 0xe0ee_0993_10bb_a1e2);
    lemma_square_step(0x1856_29dc_da58_878c, 18, 0xe0ee_0993_10bb_a1e2, 0x1544_ef23_35d1_7997);
    lemma_square_step(0x1856_29dc_da58_878c, 19, 0x1544_ef23_35d1_7997, 0xf2c3_5199_959d_fcb6);
    lemma_square_step(0x1856_29dc_da58_878c, 20, 0xf2c3_5199_959d_fcb6, 0x0653_b480_1da1_c8cf);
    lemma_square_step(0x1856_29dc_da58_878c, 21, 0x0653_b480_1da1_c8cf, 0x9d8f_2ad7_8bfe_d972);
    lemma_square_step(0x1856_29dc_da58_878c, 22, 0x9d8f_2ad7_8bfe_d972, 0x1905_d02a_5c41_1f4e);
    lemma_square_step(0x1856_29dc_da58_878c, 23, 0x1905_d02a_5c41_1f4e, 0xbf79_143c_e60c_a966);
    lemma_square_step(0x1856_29dc_da58_878c, 24, 0xbf79_143c_e60c_a966, 0xf800_07ff_0800_0001);
    lemma_square_step(0x1856_29dc_da58_878c, 25, 0xf800_07ff_0800_0001, 0x0000_0080_0000_0000);
    lemma_square_step(0x1856_29dc_da58_878c, 26, 0x0000_0080_0000_0000, 0x0000_3fff_ffff_c000);
    lemma_square_step(0x1856_29dc_da58_878c, 27, 0x0000_3fff_ffff_c000, 0xefff_ffff_0000_0001);
    lemma_square_step(0x1856_29dc_da58_878c, 28, 0xefff_ffff_0000_0001, 0xffff_fffe_ff00_0001);
    lemma_square_step(0x1856_29dc_da58_878c, 29, 0xffff_fffe_ff00_0001, 0x0001_0000_0000_0000);
    lemma_square_step(0x1856_29dc_da58_878c, 30, 0x0001_0000_0000_0000, 0xffff_ffff_0000_0000);
}

/// Half of the prime less one.
pub const HALF: u64 = 0x7FFF_FFFF_8000_0000;

/// Seven, to that power, is minus one.
pub proof fn lemma_seven()
    ensures
        power_mod(7, HALF as nat, P as int) == P - 1,
        2 * HALF == P - 1,
{
    reveal(seven_to_ones);
    lemma_seven_odd_power();
    lemma_seven_even_power();
    lemma_power_mul(7, (pow2(32) - 1) as nat, pow2(31), P as int);
    lemma2_to64();
    assert((pow2(32) - 1) as nat * pow2(31) == HALF);
}

/// Seven is not in the subgroup of order `2^32`.
pub proof fn lemma_seven_outside()
    ensures
        power_mod(7, pow2(32), P as int) != 1,
{
    lemma_first_power(7);
    lemma_square_step(7, 0, 0x0000_0000_0000_0007, 0x0000_0000_0000_0031);
    lemma_square_step(7, 1, 0x0000_0000_0000_0031, 0x0000_0000_0000_0961);
    lemma_square_step(7, 2, 0x0000_0000_0000_0961, 0x0000_0000_0057_f6c1);
    lemma_square_step(7, 3, 0x0000_0000_0057_f6c1, 0x0000_1e39_a505_7d81);
    lemma_square_step(7, 4, 0x0000_1e39_a505_7d81, 0x33cd_c300_6aff_ab59);
    lemma_square_step(7, 5, 0x33cd_c300_6aff_ab59, 0x9c23_2dfb_69ab_851e);
    lemma_square_step(7, 6, 0x9c23_2dfb_69ab_851e, 0xa8c0_0422_5447_0173);
    lemma_square_step(7, 7, 0xa8c0_0422_5447_0173, 0x1553_5ad6_9462_d090);
    lemma_square_step(7, 8, 0x1553_5ad6_9462_d090, 0xfef4_5a86_9aab_8679);
    lemma_square_step(7, 9, 0xfef4_5a86_9aab_8679, 0x21be_ccb8_b6d8_f6fa);
    lemma_square_step(7, 10, 0x21be_ccb8_b6d8_f6fa, 0x583c_f0d9_02a8_6abc);
    lemma_square_step(7, 11, 0x583c_f0d9_02a8_6abc, 0x8bf1_2873_1ab1_a0b5);
    lemma_square_step(7, 12, 0x8bf1_2873_1ab1_a0b5, 0xd17a_d58e_e893_a7d2);
    lemma_square_step(7, 13, 0xd17a_d58e_e893_a7d2, 0xfaa3_79da_87a7_f914);
    lemma_square_step(7, 14, 0xfaa3_79da_87a7_f914, 0x9220_d622_d5cf_1603);
    lemma_square_step(7, 15, 0x9220_d622_d5cf_1603, 0x9ad5_0a05_4da1_207f);
    lemma_square_step(7, 16, 0x9ad5_0a05_4da1_207f, 0xa452_f750_dd9b_8a44);
    lemma_square_step(7, 17, 0xa452_f750_dd9b_8a44, 0x1415_f3b2_bce0_9454);
    lemma_square_step(7, 18, 0x1415_f3b2_bce0_9454, 0xd3db_3f11_768a_e838);
    lemma_square_step(7, 19, 0xd3db_3f11_768a_e838, 0xb446_26e0_5edf_0086);
    lemma_square_step(7, 20, 0xb446_26e0_5edf_0086, 0xe4de_14a4_047c_b0bf);
    lemma_square_step(7, 21, 0xe4de_14a4_047c_b0bf, 0xf4d8_5bd7_e852_ec36);
    lemma_square_step(7, 22, 0xf4d8_5bd7_e852_ec36, 0x3d56_e129_7235_21fd);
    lemma_square_step(7, 23, 0x3d56_e129_7235_21fd, 0x6402_e9b2_8e42_bfe3);
    lemma_square_step(7, 24, 0x6402_e9b2_8e42_bfe3, 0xf7fd_0e66_3289_5a3a);
    lemma_square_step(7, 25, 0xf7fd_0e66_3289_5a3a, 0x4444_7512_bd52_434a);
    lemma_square_step(7, 26, 0x4444_7512_bd52_434a, 0xc878_1611_02d0_f705);
    lemma_square_step(7, 27, 0xc878_1611_02d0_f705, 0xf52d_ac93_873e_b7ce);
    lemma_square_step(7, 28, 0xf52d_ac93_873e_b7ce, 0x4bf5_4669_63dd_8aae);
    lemma_square_step(7, 29, 0x4bf5_4669_63dd_8aae, 0x392e_c704_9f67_a8b5);
    lemma_square_step(7, 30, 0x392e_c704_9f67_a8b5, 0xf132_3b7a_cab0_9084);
    lemma_square_step(7, 31, 0xf132_3b7a_cab0_9084, 0xaa5b_2509_f86b_b4d4);
}

} // verus!
