use plinko::binomial_gaussian::GaussianBinomialSamplerTee;
use plinko::binomial_leveled::LeveledBinomialSamplerTee;
use plinko::binomial_precomputed::{PrecomputedBinomialSamplerTee, PRECOMPUTE_MAX_N};
use plinko::binomial_tee::{public_edge_case, BinomialSamplerTee};
use plinko::scan::HitScan;

const STEP: u64 = 0x9E3779B97F4A7C15;

fn uniform(prf_output: u64) -> f64 {
    (prf_output as f64 + 0.5) / (u64::MAX as f64 + 1.0)
}

fn le_mask(a: f64, b: f64) -> u64 {
    (a <= b) as u64
}

fn lt_mask(a: f64, b: f64) -> u64 {
    (a < b) as u64
}

/// Feeds a scan with the comparisons of `u` against the cumulative
/// probabilities of Binomial(n, p), computed in log space.
fn run_log_space(scan: &mut HitScan, p: f64, u: f64) {
    let n = scan.draw_size();
    let q = 1.0 - p;
    let log_q = q.ln();
    let log_p_over_q = p.ln() - log_q;
    let mut log_pmf = (n as f64) * log_q;
    let mut cdf = 0.0f64;
    while !scan.is_done() {
        let k = scan.index();
        let inside = scan.in_range() == 1;
        if k != 0 {
            let log_factor = (scan.remaining() as f64 / k as f64).ln() + log_p_over_q;
            if inside {
                log_pmf += log_factor;
            }
        }
        if inside {
            cdf += log_pmf.exp();
        }
        scan.observe(le_mask(u, cdf));
    }
}

fn half_table() -> Vec<Vec<f64>> {
    let mut tables = vec![vec![0.0f64; PRECOMPUTE_MAX_N + 1]; PRECOMPUTE_MAX_N + 1];
    for n in 0..=PRECOMPUTE_MAX_N {
        if n == 0 {
            tables[0][0] = 1.0;
        } else {
            let scale = 0.5f64.powi(n as i32);
            let mut cdf = 0.0f64;
            let mut binom_coeff = 1.0f64;
            for k in 0..=n {
                cdf += binom_coeff * scale;
                tables[n][k] = cdf;
                if k < n {
                    binom_coeff *= (n - k) as f64 / (k + 1) as f64;
                }
            }
            for k in (n + 1)..=PRECOMPUTE_MAX_N {
                tables[n][k] = 1.0;
            }
        }
    }
    tables
}

fn run_table(scan: &mut HitScan, row: &[f64], u: f64) {
    while !scan.is_done() {
        let k = scan.index() as usize;
        scan.observe(le_mask(u, row[k]));
    }
}

fn folded(num: u64, denom: u64) -> (f64, bool) {
    let p = num as f64 / denom as f64;
    if p > 0.5 {
        (1.0 - p, true)
    } else {
        (p, false)
    }
}

fn exact_sample(s: &BinomialSamplerTee, count: u64, num: u64, denom: u64, prf: u64) -> u64 {
    if let Some(early) = public_edge_case(count, num, denom) {
        return early;
    }
    let (p, complement) = folded(num, denom);
    let mut scan = s.scan(count);
    run_log_space(&mut scan, p, uniform(prf));
    s.sample(count, num, denom, complement, &scan)
}

fn leveled_sample(
    s: &LeveledBinomialSamplerTee,
    level: usize,
    count: u64,
    num: u64,
    denom: u64,
    prf: u64,
) -> u64 {
    if let Some(early) = public_edge_case(count, num, denom) {
        return early;
    }
    let (p, complement) = folded(num, denom);
    let mut scan = s.scan(level, count);
    run_log_space(&mut scan, p, uniform(prf));
    s.sample(level, count, num, denom, complement, &scan)
}

fn inv_norm_cdf(u: f64) -> f64 {
    let upper = u > 0.5;
    let p = if upper { 1.0 - u } else { u };
    let p_safe = p.max(1e-15);
    let t = (-2.0 * p_safe.ln()).sqrt();
    let numerator = 2.515517 + t * (0.802853 + t * 0.010328);
    let denominator = 1.0 + t * (1.432788 + t * (0.189269 + t * 0.001308));
    let z_neg = t - numerator / denominator;
    if upper {
        z_neg
    } else {
        -z_neg
    }
}

fn gaussian_sample(
    s: &GaussianBinomialSamplerTee,
    count: u64,
    num: u64,
    denom: u64,
    prf: u64,
) -> u64 {
    if let Some(early) = public_edge_case(count, num, denom) {
        return early;
    }
    let p = num as f64 / denom as f64;
    let u = uniform(prf);
    let n = count as f64;
    let mean_above = lt_mask(10.0, n * p);
    let rest_above = lt_mask(10.0, n * (1.0 - p));
    let sigma = (n * p * (1.0 - p)).sqrt();
    let rounded = (n * p + sigma * inv_norm_cdf(u)).round().max(0.0) as u64;
    let (p_adj, complement) = folded(num, denom);
    let mut scan = s.scan(count);
    run_log_space(&mut scan, p_adj, u);
    s.sample(count, num, denom, mean_above, rest_above, rounded, complement, &scan)
}

fn half_sample(
    s: &PrecomputedBinomialSamplerTee,
    tables: &[Vec<f64>],
    count: u64,
    prf: u64,
) -> u64 {
    let u = uniform(prf);
    let table = count as usize <= PRECOMPUTE_MAX_N;
    let mut scan = s.scan(true, count);
    if table {
        run_table(&mut scan, &tables[count as usize], u);
    } else {
        run_log_space(&mut scan, 0.5, u);
    }
    s.sample_half(count, &scan)
}

fn precomputed_sample(
    s: &PrecomputedBinomialSamplerTee,
    tables: &[Vec<f64>],
    count: u64,
    num: u64,
    denom: u64,
    prf: u64,
) -> u64 {
    if let Some(early) = public_edge_case(count, num, denom) {
        return early;
    }
    let table = s.uses_table(count, num, denom);
    let (p, complement) = folded(num, denom);
    let mut scan = s.scan(table, count);
    if table {
        run_table(&mut scan, &tables[count as usize], uniform(prf));
    } else {
        run_log_space(&mut scan, p, uniform(prf));
    }
    s.sample(count, num, denom, complement, &scan)
}

#[test]
fn test_sampler_matches_standard() {
    let sampler = BinomialSamplerTee::new(1024);

    for count in [10, 50, 100, 500, 1000] {
        for (num, denom) in [(1, 2), (1, 4), (3, 4)] {
            for i in 0..20u64 {
                let prf = i.wrapping_mul(STEP);
                let result = exact_sample(&sampler, count, num, denom, prf);
                assert!(result <= count, "result {} > count {}", result, count);
            }
        }
    }
}

#[test]
fn test_sampler_distribution() {
    let sampler = BinomialSamplerTee::new(1024);
    let n = 100u64;
    let samples = 1000u64;
    let mut sum = 0u64;

    for i in 0..samples {
        let prf = i.wrapping_mul(STEP);
        sum += exact_sample(&sampler, n, 1, 2, prf);
    }

    let mean = sum as f64 / samples as f64;
    let expected = 50.0;
    assert!((mean - expected).abs() < 5.0, "mean {} too far from {}", mean, expected);
}

#[test]
fn test_smaller_bound_is_faster() {
    let small = BinomialSamplerTee::new(100);
    let large = BinomialSamplerTee::new(10000);

    let r1 = exact_sample(&small, 50, 1, 2, 12345);
    let r2 = exact_sample(&large, 50, 1, 2, 12345);

    assert_eq!(r1, r2);
}

#[test]
fn test_level_bounds_computed_correctly() {
    let sampler = LeveledBinomialSamplerTee::new(49152, 256);

    assert_eq!(sampler.level_bound(0), 49152);
    assert_eq!(sampler.level_bound(1), 24576);
    assert!(sampler.level_bound(7) > 0);
}

#[test]
fn test_sample_matches_global_sampler() {
    let n = 1000u64;
    let m = 100u64;
    let leveled = LeveledBinomialSamplerTee::new(n, m);
    let global = BinomialSamplerTee::new(n);

    for count in [10, 50, 100, 500] {
        for i in 0..20u64 {
            let prf = i.wrapping_mul(STEP);
            let r1 = leveled_sample(&leveled, 0, count, 1, 2, prf);
            let r2 = exact_sample(&global, count, 1, 2, prf);
            assert_eq!(r1, r2, "mismatch at count={}, prf={}", count, prf);
        }
    }
}

#[test]
fn test_total_iterations_less_than_naive() {
    let n = 12_500_000u64;
    let m = 256u64;
    let sampler = LeveledBinomialSamplerTee::new(n, m);

    let naive = 8 * n;
    let optimized = sampler.total_iterations();

    assert!(
        optimized < naive / 3,
        "should be at least 3x better: {} vs {}",
        optimized,
        naive
    );
}

#[test]
fn test_gaussian_mean_variance() {
    let sampler = GaussianBinomialSamplerTee::new(1024);
    let n = 10000u64;
    let samples = 1000u64;

    let mut sum: u64 = 0;
    for i in 0..samples {
        let prf = i.wrapping_mul(STEP);
        sum += gaussian_sample(&sampler, n, 1, 2, prf);
    }

    let mean = sum as f64 / samples as f64;
    let expected = n as f64 * 0.5;

    let std_err = (n as f64 * 0.25 / samples as f64).sqrt();
    assert!(
        (mean - expected).abs() < 5.0 * std_err * (n as f64).sqrt(),
        "Gaussian mean {} far from expected {}",
        mean,
        expected
    );
}

#[test]
fn binomial_gaussian_test_result_in_bounds() {
    let sampler = GaussianBinomialSamplerTee::new(1024);

    for n in [100, 1000, 10000, 50000] {
        for i in 0..100u64 {
            let prf = i.wrapping_mul(STEP);
            let result = gaussian_sample(&sampler, n, 1, 2, prf);
            assert!(result <= n, "result {} > n {}", result, n);
        }
    }
}

#[test]
fn test_precomputed_table_valid() {
    let tables = half_table();
    for n in 1..=PRECOMPUTE_MAX_N {
        let table = &tables[n];
        assert!(table[0] > 0.0, "CDF[{}][0] should be positive", n);

        for k in 1..=n {
            assert!(table[k] >= table[k - 1], "CDF[{}] not monotonic at k={}", n, k);
        }

        assert!((table[n] - 1.0).abs() < 1e-10, "CDF[{}][{}] should be 1.0", n, n);
    }
}

#[test]
fn test_matches_exact_for_small_n() {
    let tables = half_table();
    let sampler = PrecomputedBinomialSamplerTee::new(1024);
    let baseline = BinomialSamplerTee::new(1024);

    for n in [10, 50, 100, 200] {
        for i in 0..100u64 {
            let prf = i.wrapping_mul(STEP);
            let precomputed = half_sample(&sampler, &tables, n, prf);
            let exact = exact_sample(&baseline, n, 1, 2, prf);
            assert_eq!(precomputed, exact, "mismatch at n={}, prf={}", n, prf);
        }
    }
}

#[test]
fn test_distribution_mean() {
    let tables = half_table();
    let sampler = PrecomputedBinomialSamplerTee::new(1024);
    let n = 100u64;
    let samples = 10000u64;
    let mut sum = 0u64;

    for i in 0..samples {
        let prf = i.wrapping_mul(STEP);
        sum += half_sample(&sampler, &tables, n, prf);
    }

    let mean = sum as f64 / samples as f64;
    let expected = n as f64 * 0.5;
    assert!((mean - expected).abs() < 2.0, "mean {} too far from {}", mean, expected);
}

#[test]
fn binomial_precomputed_test_result_in_bounds() {
    let tables = half_table();
    let sampler = PrecomputedBinomialSamplerTee::new(1024);

    for n in [1, 10, 50, 100, 200, 256] {
        for i in 0..100u64 {
            let prf = i.wrapping_mul(STEP);
            let result = half_sample(&sampler, &tables, n, prf);
            assert!(result <= n, "result {} > n {}", result, n);
        }
    }
}

#[test]
fn edge_cases_need_no_scan() {
    assert_eq!(public_edge_case(40, 1, 0), Some(0));
    assert_eq!(public_edge_case(40, 0, 7), Some(0));
    assert_eq!(public_edge_case(40, 7, 7), Some(40));
    assert_eq!(public_edge_case(40, 9, 7), Some(40));
    assert_eq!(public_edge_case(40, 3, 7), None);

    let idle = HitScan::new(0, 0);
    let exact = BinomialSamplerTee::new(64);
    assert_eq!(exact.sample(40, 1, 0, false, &idle), 0);
    assert_eq!(exact.sample(40, 0, 7, true, &idle), 0);
    assert_eq!(exact.sample(40, 7, 7, false, &idle), 40);
    let leveled = LeveledBinomialSamplerTee::new(64, 4);
    assert_eq!(leveled.sample(1, 40, 9, 7, false, &idle), 40);
    assert_eq!(leveled.sample(1, 40, 0, 7, false, &idle), 0);
    let gaussian = GaussianBinomialSamplerTee::new(64);
    assert_eq!(gaussian.sample(40, 0, 0, 1, 1, 17, false, &idle), 0);
    assert_eq!(gaussian.sample(40, 8, 7, 1, 1, 17, false, &idle), 40);
    let table = PrecomputedBinomialSamplerTee::new(64);
    assert_eq!(table.sample(40, 0, 2, false, &idle), 0);
    assert_eq!(table.sample(40, 2, 2, false, &idle), 40);
}

fn finished(n: u64, bound: u64, hits: &[u64]) -> HitScan {
    let mut scan = HitScan::new(n, bound);
    for h in hits {
        scan.observe(*h);
    }
    assert!(scan.is_done());
    scan
}

#[test]
fn exact_sample_settles_the_first_hit() {
    let sampler = BinomialSamplerTee::new(5);
    assert_eq!(sampler.max_count(), 5);
    let scan = sampler.scan(4);
    assert_eq!(scan.draw_size(), 4);
    assert_eq!(scan.last_index(), 5);
    let scan = finished(4, 5, &[0, 0, 1, 1, 1, 1]);
    assert_eq!(sampler.sample(4, 1, 3, false, &scan), 2);
    assert_eq!(sampler.sample(4, 2, 3, true, &scan), 2);
    let scan = finished(4, 5, &[0, 1, 1, 1, 1, 1]);
    assert_eq!(sampler.sample(4, 2, 3, true, &scan), 3);
    // the count is clamped to the bound, and the complement mirrors within the count
    let scan = sampler.scan(9);
    assert_eq!(scan.draw_size(), 5);
    let scan = finished(5, 5, &[0, 0, 0, 1, 0, 0]);
    assert_eq!(sampler.sample(9, 1, 3, false, &scan), 3);
    assert_eq!(sampler.sample(9, 2, 3, true, &scan), 6);
    // no hit: the clamped count
    let scan = finished(5, 5, &[0, 0, 0, 0, 0, 0]);
    assert_eq!(sampler.sample(9, 1, 3, false, &scan), 5);
    // an empty draw
    let scan = finished(0, 5, &[1, 1, 1, 1, 1, 1]);
    assert_eq!(sampler.sample(0, 1, 3, false, &scan), 0);
    assert_eq!(sampler.sample(0, 2, 3, true, &scan), 0);
}

#[test]
fn level_bounds_halve_rounding_up() {
    let sampler = LeveledBinomialSamplerTee::new(5, 16);
    assert_eq!(sampler.level_bound(0), 5);
    assert_eq!(sampler.level_bound(1), 3);
    assert_eq!(sampler.level_bound(2), 2);
    assert_eq!(sampler.level_bound(3), 1);
    assert_eq!(sampler.level_bound(4), 0);
    assert_eq!(sampler.total_iterations(), 11);
    assert_eq!(sampler.max_count(2), 2);
    assert_eq!(sampler.max_count(3), 1);
    assert_eq!(sampler.max_count(4), 1);
    assert_eq!(sampler.max_count(40), 1);
    assert_eq!(sampler.scan(1, 7).draw_size(), 3);
    assert_eq!(sampler.scan(1, 7).last_index(), 3);
    assert_eq!(sampler.scan(1, 2).draw_size(), 2);
}

#[test]
fn level_count_follows_the_range() {
    // one level for a single bin or none
    assert_eq!(LeveledBinomialSamplerTee::new(9, 0).level_bound(0), 9);
    assert_eq!(LeveledBinomialSamplerTee::new(9, 0).level_bound(1), 0);
    assert_eq!(LeveledBinomialSamplerTee::new(9, 1).level_bound(1), 0);
    assert_eq!(LeveledBinomialSamplerTee::new(9, 2).level_bound(1), 0);
    assert_eq!(LeveledBinomialSamplerTee::new(9, 3).level_bound(1), 5);
    assert_eq!(LeveledBinomialSamplerTee::new(9, 3).level_bound(2), 0);
    // eight levels for 256 bins, nine for 257
    assert_eq!(LeveledBinomialSamplerTee::new(49152, 256).level_bound(7), 384);
    assert_eq!(LeveledBinomialSamplerTee::new(49152, 256).level_bound(8), 0);
    assert_eq!(LeveledBinomialSamplerTee::new(49152, 257).level_bound(8), 192);
    // never more than 32 levels, and no overflow at the top of the range
    let top = LeveledBinomialSamplerTee::new(u64::MAX, u64::MAX);
    assert_eq!(top.level_bound(0), u64::MAX);
    assert_eq!(top.level_bound(1), 1u64 << 63);
    assert_eq!(top.level_bound(31), 1u64 << 33);
    assert_eq!(top.level_bound(32), 0);
}

#[test]
fn leveled_sample_uses_the_bound_of_its_level() {
    let sampler = LeveledBinomialSamplerTee::new(8, 4);
    let scan = finished(4, 4, &[0, 0, 0, 1, 1]);
    assert_eq!(sampler.sample(1, 6, 1, 3, false, &scan), 3);
    assert_eq!(sampler.sample(1, 6, 2, 3, true, &scan), 3);
    assert_eq!(sampler.sample(5, 4, 2, 3, true, &scan), 1);
}

#[test]
fn gaussian_sample_selects_by_both_masks() {
    let sampler = GaussianBinomialSamplerTee::new(3);
    assert_eq!(sampler.fallback_max_count(), 3);
    let scan = finished(3, 3, &[0, 1, 1, 1]);
    assert_eq!(sampler.sample(100, 1, 2, 1, 1, 47, false, &scan), 47);
    assert_eq!(sampler.sample(100, 1, 2, 1, 1, 470, false, &scan), 100);
    assert_eq!(sampler.sample(100, 1, 2, 1, 0, 47, false, &scan), 1);
    assert_eq!(sampler.sample(100, 1, 2, 0, 1, 47, false, &scan), 1);
    assert_eq!(sampler.sample(100, 1, 2, 0, 0, 47, true, &scan), 2);
    assert_eq!(sampler.sample_exact(100, true, &scan), 2);
    assert_eq!(sampler.sample_exact(2, false, &finished(2, 3, &[0, 0, 0, 1])), 2);
}

#[test]
fn gaussian_sample_stays_in_range_at_the_extremes() {
    let sampler = GaussianBinomialSamplerTee::new(64);
    for n in [0u64, 1, 30, 64, 65, 1000, 1 << 40, u64::MAX] {
        for prf in [0u64, 1, u64::MAX / 2, u64::MAX - 1, u64::MAX] {
            for (num, denom) in [(1u64, 2u64), (1, 1000), (999, 1000)] {
                assert!(gaussian_sample(&sampler, n, num, denom, prf) <= n);
            }
        }
    }
}

#[test]
fn table_is_used_for_one_half_and_small_counts_only() {
    let sampler = PrecomputedBinomialSamplerTee::new(1024);
    assert_eq!(sampler.fallback_max_count(), 1024);
    assert!(sampler.uses_table(256, 1, 2));
    assert!(sampler.uses_table(0, 5, 10));
    assert!(!sampler.uses_table(257, 1, 2));
    assert!(!sampler.uses_table(10, 1, 3));
    assert!(!sampler.uses_table(10, u64::MAX, u64::MAX - 1));
    assert!(!sampler.uses_table(10, (1 << 63) + 1, 2));
    assert_eq!(sampler.scan(true, 200).last_index(), 256);
    assert_eq!(sampler.scan(true, 200).draw_size(), 200);
    assert_eq!(sampler.scan(true, 300).last_index(), 1024);
    assert_eq!(sampler.scan(false, 200).last_index(), 1024);
    assert_eq!(sampler.scan(false, 2000).draw_size(), 1024);
}

#[test]
fn precomputed_sample_covers_every_probability() {
    let tables = half_table();
    let sampler = PrecomputedBinomialSamplerTee::new(512);
    let baseline = BinomialSamplerTee::new(512);
    for count in [0u64, 1, 17, 256, 257, 400] {
        for (num, denom) in [(1u64, 2u64), (1, 4), (3, 4), (2, 4)] {
            for i in 0..10u64 {
                let prf = i.wrapping_mul(STEP);
                let got = precomputed_sample(&sampler, &tables, count, num, denom, prf);
                assert!(got <= count);
                assert_eq!(got, exact_sample(&baseline, count, num, denom, prf));
            }
        }
    }
    // beyond the fallback's bound the complement mirrors within the clamped count
    let scan = finished(512, 512, &vec![0u64; 513]);
    assert_eq!(sampler.sample(600, 3, 4, true, &scan), 0);
    assert_eq!(sampler.sample(600, 1, 4, false, &scan), 512);
    assert_eq!(sampler.sample_half(600, &scan), 512);
}

#[test]
fn samples_stay_in_range() {
    let tables = half_table();
    let exact = BinomialSamplerTee::new(300);
    let leveled = LeveledBinomialSamplerTee::new(300, 8);
    let gaussian = GaussianBinomialSamplerTee::new(300);
    let table = PrecomputedBinomialSamplerTee::new(300);
    for count in [0u64, 1, 2, 150, 300, 301, 5000] {
        for (num, denom) in [(0u64, 5u64), (1, 5), (4, 5), (5, 5), (6, 5), (1, 0), (1, 2)] {
            for prf in [0u64, 1, STEP, u64::MAX] {
                assert!(exact_sample(&exact, count, num, denom, prf) <= count);
                for level in 0..5 {
                    assert!(leveled_sample(&leveled, level, count, num, denom, prf) <= count);
                }
                assert!(gaussian_sample(&gaussian, count, num, denom, prf) <= count);
                assert!(precomputed_sample(&table, &tables, count, num, denom, prf) <= count);
            }
        }
    }
}

#[test]
fn leveled_and_baseline_agree_within_the_root_bound() {
    let leveled = LeveledBinomialSamplerTee::new(600, 64);
    let global = BinomialSamplerTee::new(4096);
    for count in [0u64, 1, 299, 300, 600] {
        for (num, denom) in [(1u64, 2u64), (1, 7), (6, 7)] {
            for i in 0..10u64 {
                let prf = i.wrapping_mul(STEP).wrapping_add(7);
                assert_eq!(
                    leveled_sample(&leveled, 0, count, num, denom, prf),
                    exact_sample(&global, count, num, denom, prf)
                );
            }
        }
    }
}
