use randkit::bernoulli::Bernoulli;
use randkit::mock::StepRng;
use randkit::rng::Rng;

fn rng(seed: u64) -> StepRng {
    StepRng::new(seed, 0x9e37_79b9_7f4a_7c15)
}

#[test]
fn test_trivial() {
    let mut r = rng(1);
    let always_false = Bernoulli::new(0.0f64.to_bits());
    let always_true = Bernoulli::new(1.0f64.to_bits());
    for _ in 0..5 {
        assert_eq!(always_false.sample(&mut r), false);
        assert_eq!(always_true.sample(&mut r), true);
    }
}

#[test]
fn threshold_is_probability_times_two_to_the_64() {
    // The distribution with probability p succeeds on a draw below floor(p * 2^64).
    let half = Bernoulli::new(0.5f64.to_bits());
    assert!(half.sample(&mut StepRng::new((1 << 63) - 1, 0)));
    assert!(!half.sample(&mut StepRng::new(1 << 63, 0)));
    let p = Bernoulli::new(0.3f64.to_bits());
    assert!(p.sample(&mut StepRng::new(0x4ccc_cccc_cccc_cbff, 0)));
    assert!(!p.sample(&mut StepRng::new(0x4ccc_cccc_cccc_cc00, 0)));
    let tiny = Bernoulli::new((2.0f64).powi(-64).to_bits());
    assert!(tiny.sample(&mut StepRng::new(0, 0)));
    assert!(!tiny.sample(&mut StepRng::new(1, 0)));
    let below = Bernoulli::new((2.0f64).powi(-65).to_bits());
    assert!(!below.sample(&mut StepRng::new(0, 0)));
}

#[test]
fn certain_success_draws_nothing() {
    let mut r = StepRng::new(5, 1);
    let always_true = Bernoulli::new(1.0f64.to_bits());
    assert!(always_true.sample(&mut r));
    let mut r2 = r.clone();
    assert_eq!(r2.next_u64(), 5);
    let never = Bernoulli::new((-0.0f64).to_bits());
    assert!(!never.sample(&mut r));
    assert_eq!(r.next_u64(), 6);
}

#[test]
fn test_average() {
    const P: f64 = 0.3;
    const NUM: u32 = 3;
    const DENOM: u32 = 10;
    let d1 = Bernoulli::new(P.to_bits());
    let d2 = Bernoulli::from_ratio(NUM, DENOM);
    const N: u32 = 100_000;

    let mut sum1: u32 = 0;
    let mut sum2: u32 = 0;
    let mut rng = rng(2);
    for _ in 0..N {
        if d1.sample(&mut rng) {
            sum1 += 1;
        }
        if d2.sample(&mut rng) {
            sum2 += 1;
        }
    }
    let avg1 = (sum1 as f64) / (N as f64);
    assert!((avg1 - P).abs() < 5e-3);

    let avg2 = (sum2 as f64) / (N as f64);
    assert!((avg2 - (NUM as f64) / (DENOM as f64)).abs() < 5e-3);
}

fn threshold(distribution: Bernoulli) -> u64 {
    // The least draw that fails: found by bisection over constant generators.
    let (mut low, mut high) = (0u64, u64::MAX);
    if distribution.sample(&mut StepRng::new(u64::MAX, 0)) {
        return u64::MAX;
    }
    while low < high {
        let middle = low + (high - low) / 2;
        if distribution.sample(&mut StepRng::new(middle, 0)) {
            low = middle + 1;
        } else {
            high = middle;
        }
    }
    low
}

#[test]
fn ratio_is_rounded_as_a_double_is() {
    for (n, d) in [(3u32, 10u32), (1, 3), (2, 3), (1, 7), (1, u32::MAX), (u32::MAX - 1, u32::MAX), (1, 2), (5, 8), (123_456_789, 987_654_321)] {
        let by_double = ((n as f64 / d as f64) * 18446744073709551616.0) as u64;
        assert_eq!(threshold(Bernoulli::from_ratio(n, d)), by_double);
        assert_eq!(threshold(Bernoulli::new((n as f64 / d as f64).to_bits())), by_double);
    }
    assert_eq!(threshold(Bernoulli::from_ratio(3, 10)), 0x4ccc_cccc_cccc_cc00);
    assert_eq!(threshold(Bernoulli::from_ratio(0, 10)), 0);
    assert_eq!(threshold(Bernoulli::from_ratio(0, 0)), u64::MAX);
    assert_eq!(threshold(Bernoulli::from_ratio(10, 10)), u64::MAX);
}
