use yin_rs::{difference_function, estimate_period, normalize, yin, Ratio64};

fn noisy_triangle() -> Vec<u16> {
    let mut out = Vec::with_capacity(256);
    let mut x: u64 = 99;
    for i in 0..256usize {
        x = (x * 1103515245 + 12345) % (1 << 31);
        let noise = ((x >> 8) % 65536) % 4000;
        let phase = i % 40;
        let height = if phase >= 20 { phase - 20 } else { 20 - phase };
        out.push((20000 + height as u64 * 300 + noise) as u16);
    }
    out
}

fn least_lag(c: &[Ratio64]) -> usize {
    let mut best = 0;
    for tau in 1..c.len() {
        if (best == 0 && c[tau].den != 0) || (best != 0 && c[tau].below(&c[best])) {
            best = tau;
        }
    }
    best
}

#[test]
fn noisy_window_has_the_expected_samples() {
    let window = noisy_triangle();
    assert_eq!(&window[..6], &[27188, 26289, 27417, 28555, 27238, 26293]);
}

#[test]
fn threshold_that_is_never_crossed_gives_the_least_value() {
    let window = noisy_triangle();
    let c = normalize(&difference_function(&window, 100));
    let least = least_lag(&c);
    assert_eq!(least, 80);
    assert!(!c[least].below(&Ratio64::new(1, 10)));
    assert_eq!(estimate_period(&window, 100, Ratio64::new(1, 10)), 80);
    assert_eq!(yin(&window, 256, 100), 80);
}

#[test]
fn lowering_an_uncrossed_threshold_changes_nothing() {
    let window = noisy_triangle();
    for (num, den) in [(1u64, 10u64), (1, 100), (1, 1000), (0, 1), (27, 100)] {
        assert_eq!(estimate_period(&window, 100, Ratio64::new(num, den)), 80);
    }
}

#[test]
fn crossed_threshold_stops_at_the_first_dip() {
    let window = noisy_triangle();
    let c = normalize(&difference_function(&window, 100));
    assert_eq!(estimate_period(&window, 100, Ratio64::new(1, 2)), 39);
    assert_eq!(estimate_period(&window, 100, Ratio64::new(3, 5)), 39);
    assert!(c[39].below(&Ratio64::new(1, 2)));
    assert!(!c[39].below(&c[80]));
    assert!(!c[40].below(&c[39]));
    for tau in 1..35 {
        assert!(!c[tau].below(&Ratio64::new(1, 2)));
    }
    assert!(c[35].below(&Ratio64::new(1, 2)));
}

#[test]
fn no_estimate_is_better_than_the_one_of_an_uncrossed_threshold() {
    let window = noisy_triangle();
    let c = normalize(&difference_function(&window, 100));
    let low = estimate_period(&window, 100, Ratio64::new(1, 1000));
    for (num, den) in [(1u64, 10u64), (1, 2), (3, 5), (9, 10), (2, 1)] {
        let found = estimate_period(&window, 100, Ratio64::new(num, den));
        assert!(found >= 1);
        assert!(!c[found].below(&c[low]));
    }
}

#[test]
fn estimate_period_takes_signed_samples() {
    let signed: Vec<i16> = noisy_triangle().iter().map(|&x| (x as i32 - 32768) as i16).collect();
    assert_eq!(estimate_period(&signed, 100, Ratio64::new(1, 10)), 80);
    assert_eq!(estimate_period(&signed, 100, Ratio64::new(1, 2)), 39);
}
