use xetex_shaping::scaled_math::{
    ab_vs_cd, half, init_randoms, m_log, make_frac, mult_and_add, new_randoms, next_random,
    norm_rand, norm_rand_attempt, round_xn_over_d, take_frac, unif_rand, x_over_n, xn_over_d,
    Arith, Randoms, SPEC_LOG, TWO_TO_THE,
};

fn arith() -> Arith {
    Arith { arith_error: false, remainder: 0 }
}

#[test]
fn half_rounds_ties_up() {
    assert_eq!(half(3), 2);
    assert_eq!(half(-3), -1);
    assert_eq!(half(4), 2);
    assert_eq!(half(-1), 0);
    assert_eq!(half(0), 0);
}

#[test]
fn ab_vs_cd_compares_products() {
    assert_eq!(ab_vs_cd(2, 3, 3, 2), 0);
    assert_eq!(ab_vs_cd(2, 3, 1, 5), 1);
    assert_eq!(ab_vs_cd(-2, 3, 1, 5), -1);
    assert_eq!(ab_vs_cd(0, 5, 0, -7), 0);
    assert_eq!(ab_vs_cd(-2, -3, 1, 5), 1);
    assert_eq!(ab_vs_cd(2, 3, -1, 5), 1);
    assert_eq!(ab_vs_cd(-2, 3, -1, 5), -1);
    assert_eq!(ab_vs_cd(-2, 3, 1, -7), 1);
    assert_eq!(ab_vs_cd(0x7FFFFFFF, 0x7FFFFFFF, 0x7FFFFFFE, 0x7FFFFFFF), 1);
    assert_eq!(ab_vs_cd(1_000_003, 999_999, 1_000_001, 1_000_001), -1);
    assert_eq!(ab_vs_cd(1024, 10, 32, 320), 0);
}

#[test]
fn mult_and_add_checks_the_bound() {
    let mut a = arith();
    assert_eq!(mult_and_add(3, 5, 7, 0x3FFFFFFF, &mut a), 22);
    assert_eq!(mult_and_add(-3, 5, 7, 0x3FFFFFFF, &mut a), -8);
    assert_eq!(mult_and_add(0, 5, 7, 0x3FFFFFFF, &mut a), 7);
    assert!(!a.arith_error);
    assert_eq!(mult_and_add(2, 0x20000000, 0, 0x3FFFFFFF, &mut a), 0);
    assert!(a.arith_error);
    let mut a = arith();
    assert_eq!(mult_and_add(2, 0x1FFFFFFF, 1, 0x3FFFFFFF, &mut a), 0x3FFFFFFF);
    assert!(!a.arith_error);
    assert_eq!(mult_and_add(2, -0x20000000, 0, 0x3FFFFFFF, &mut a), 0);
    assert!(a.arith_error);
}

#[test]
fn x_over_n_truncates_and_keeps_the_sign_of_the_dividend() {
    let mut a = arith();
    assert_eq!(x_over_n(7, 2, &mut a), 3);
    assert_eq!(a.remainder, 1);
    assert_eq!(x_over_n(-7, 2, &mut a), -3);
    assert_eq!(a.remainder, -1);
    assert_eq!(x_over_n(7, -2, &mut a), -3);
    assert_eq!(a.remainder, 1);
    assert_eq!(x_over_n(-7, -2, &mut a), 3);
    assert_eq!(a.remainder, -1);
    assert!(!a.arith_error);
    assert_eq!(x_over_n(9, 0, &mut a), 0);
    assert_eq!(a.remainder, 9);
    assert!(a.arith_error);
}

#[test]
fn xn_over_d_scales() {
    let mut a = arith();
    assert_eq!(xn_over_d(1000, 7, 3, &mut a), 2333);
    assert_eq!(a.remainder, 1);
    assert_eq!(xn_over_d(-1000, 7, 3, &mut a), -2333);
    assert_eq!(a.remainder, -1);
    assert_eq!(xn_over_d(0x3FFFFFFF, 65536, 65536, &mut a), 0x3FFFFFFF);
    assert!(!a.arith_error);
    xn_over_d(0x3FFFFFFF, 3, 2, &mut a);
    assert!(a.arith_error);
}

#[test]
fn round_xn_over_d_rounds_half_away_from_zero() {
    let mut a = arith();
    assert_eq!(round_xn_over_d(1000, 7, 3, &mut a), 2333);
    assert_eq!(round_xn_over_d(1000, 8, 3, &mut a), 2667);
    assert_eq!(round_xn_over_d(3, 1, 2, &mut a), 2);
    assert_eq!(round_xn_over_d(-3, 1, 2, &mut a), -2);
    assert_eq!(round_xn_over_d(-1000, 8, 3, &mut a), -2667);
    assert!(!a.arith_error);
}

#[test]
fn make_frac_is_the_rounded_quotient() {
    let mut a = arith();
    assert_eq!(make_frac(1, 2, &mut a), 0x0800_0000);
    assert_eq!(make_frac(1, 3, &mut a), 89478485);
    assert_eq!(make_frac(2, 3, &mut a), 178956971);
    assert_eq!(make_frac(-1, 3, &mut a), -89478485);
    assert_eq!(make_frac(1, -3, &mut a), -89478485);
    assert_eq!(make_frac(7, 1, &mut a), 7 * 0x1000_0000);
    assert_eq!(make_frac(0, -5, &mut a), 0);
    assert_eq!(make_frac(0x7FFFFFFF, 0x1000_0000, &mut a), 0x7FFFFFFF);
    assert!(!a.arith_error);
    assert_eq!(make_frac(8, 1, &mut a), 0x7FFFFFFF);
    assert!(a.arith_error);
    assert_eq!(make_frac(-8, 1, &mut a), -0x7FFFFFFF);
}

#[test]
fn take_frac_is_the_rounded_product() {
    let mut a = arith();
    assert_eq!(take_frac(100, 0x0800_0000, &mut a), 50);
    assert_eq!(take_frac(3, 0x0800_0000, &mut a), 2);
    assert_eq!(take_frac(-3, 0x0800_0000, &mut a), -2);
    assert_eq!(take_frac(3, -0x0800_0000, &mut a), -2);
    assert_eq!(take_frac(1000, 89478485, &mut a), 333);
    assert_eq!(take_frac(0x4000_0000, 0x1000_0000, &mut a), 0x4000_0000);
    assert_eq!(take_frac(0x7FFFFFFF, 0x0FFF_FFFF, &mut a), 0x7FFFFFF7);
    assert_eq!(take_frac(5, 3 * 0x1000_0000, &mut a), 15);
    assert!(!a.arith_error);
    assert_eq!(take_frac(0x7FFFFFFF, 0x2000_0000, &mut a), 0x7FFFFFFF);
    assert!(a.arith_error);
}

#[test]
fn m_log_of_known_values() {
    assert_eq!(m_log(0), None);
    assert_eq!(m_log(-5), None);
    // ln(1) = 0 for the scaled value 65536.
    assert_eq!(m_log(65536), Some(0));
    // 2^24 * ln 2 = 11629080.
    assert_eq!(m_log(131072), Some(11629080));
    // 2^24 * ln(1/65536) = -186065279.
    assert_eq!(m_log(1), Some(-186065279));
    let e = m_log(178145).unwrap();
    assert!((e - (1 << 24)).abs() < 64);
}

#[test]
fn tables_hold_powers_and_logarithms() {
    for k in 0..31 {
        assert_eq!(TWO_TO_THE[k], 1 << k);
    }
    for k in 1..29 {
        let exact = (1u64 << 27) as f64 * (1.0 / (1.0 - 0.5f64.powi(k as i32))).ln();
        assert!((SPEC_LOG[k] as f64 - exact).abs() <= 1.0);
    }
}

#[test]
fn randoms_are_seeded_and_refreshed() {
    let mut r = Randoms::new();
    init_randoms(42, &mut r);
    assert_eq!(r.j_random, 54);
    assert!(r.table.iter().all(|v| (0..0x1000_0000).contains(v)));
    let first = r.table;
    let mut again = Randoms::new();
    init_randoms(-42, &mut again);
    assert_eq!(again.table, first);
    let before = r.table;
    new_randoms(&mut r);
    for k in 0..24 {
        assert_eq!(r.table[k], (before[k] - before[k + 31]).rem_euclid(0x1000_0000));
    }
    for k in 24..55 {
        assert_eq!(r.table[k], (before[k] - r.table[k - 24]).rem_euclid(0x1000_0000));
    }
}

#[test]
fn seeding_fills_the_table_in_steps_of_21() {
    // With the seed 0 the pairs go (0, 1), (1, 2^28 - 1), (2^28 - 1, 2), ...
    let mut r = Randoms::new();
    init_randoms(0, &mut r);
    let mut expect = [0i32; 55];
    let (mut j, mut k) = (0i32, 1i32);
    for i in 0..55usize {
        let jj = k;
        k = (j - k).rem_euclid(0x1000_0000);
        j = jj;
        expect[(i * 21) % 55] = j;
    }
    let mut want = Randoms { table: expect, j_random: 0 };
    new_randoms(&mut want);
    new_randoms(&mut want);
    new_randoms(&mut want);
    assert_eq!(r.table, want.table);
}

#[test]
fn next_random_walks_down_and_refreshes() {
    let mut r = Randoms::new();
    init_randoms(7, &mut r);
    let t = r.table;
    assert_eq!(next_random(&mut r), t[53]);
    assert_eq!(r.j_random, 53);
    r.j_random = 0;
    let v = next_random(&mut r);
    assert_eq!(r.j_random, 54);
    assert_eq!(v, r.table[54]);
    assert_ne!(r.table, t);
}

#[test]
fn unif_rand_stays_below_its_bound() {
    let mut r = Randoms::new();
    init_randoms(123, &mut r);
    let mut a = arith();
    for _ in 0..200 {
        let v = unif_rand(1000, &mut r, &mut a);
        assert!((0..1000).contains(&v));
        let v = unif_rand(-1000, &mut r, &mut a);
        assert!((-999..=0).contains(&v));
    }
    assert_eq!(unif_rand(0, &mut r, &mut a), 0);
    assert!(!a.arith_error);
}

#[test]
fn norm_rand_finds_a_deviate() {
    let mut r = Randoms::new();
    init_randoms(2024, &mut r);
    let mut a = arith();
    assert_eq!(norm_rand(&mut r, &mut a, 0), None);
    let mut sum: i64 = 0;
    for _ in 0..200 {
        let v = norm_rand(&mut r, &mut a, 1000).unwrap();
        assert!(v.abs() < 8 * 65536);
        sum += v as i64;
    }
    assert!((sum / 200).abs() < 65536);
    let mut one = r.clone_state();
    let mut two = r.clone_state();
    assert_eq!(norm_rand_attempt(&mut one, &mut a), norm_rand(&mut two, &mut a, 1));
    assert!(!a.arith_error);
}
