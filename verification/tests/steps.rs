use yin_rs::{
    difference_function, encode_window, normalize, offset_binary, search, Ratio64, Sample, BIAS,
    MAX_SQ_DIST,
};

fn ratio(num: u64, den: u64) -> Ratio64 {
    Ratio64::new(num, den)
}

#[test]
fn offset_binary_adds_half_the_range() {
    assert_eq!(BIAS, 32768);
    assert_eq!(offset_binary(-32768), 0);
    assert_eq!(offset_binary(-1), 32767);
    assert_eq!(offset_binary(0), 32768);
    assert_eq!(offset_binary(1), 32769);
    assert_eq!(offset_binary(32767), 65535);
    for s in [-32768i32, -12345, -1, 0, 1, 255, 256, 12345, 32767] {
        assert_eq!(offset_binary(s as i16) as i32, s + 32768);
    }
}

#[test]
fn encode_window_keeps_order_and_length() {
    assert_eq!(encode_window(&[]), Vec::<u16>::new());
    assert_eq!(encode_window(&[-32768, 0, 32767, -2]), vec![0, 32768, 65535, 32766]);
}

#[test]
fn squared_distance_of_unsigned_samples() {
    assert_eq!(0u16.sq_dist(&0), 0);
    assert_eq!(3u16.sq_dist(&10), 49);
    assert_eq!(10u16.sq_dist(&3), 49);
    assert_eq!(0u16.sq_dist(&65535), 4294836225);
    assert_eq!(65535u16.sq_dist(&0), MAX_SQ_DIST);
}

#[test]
fn squared_distance_of_signed_samples() {
    assert_eq!(0i16.sq_dist(&0), 0);
    assert_eq!((-3i16).sq_dist(&4), 49);
    assert_eq!(4i16.sq_dist(&-3), 49);
    assert_eq!((-32768i16).sq_dist(&32767), 4294836225);
    assert_eq!(32767i16.sq_dist(&-32768), MAX_SQ_DIST);
}

#[test]
fn squared_distance_ignores_the_encoding() {
    for (a, b) in [(-32768i16, 32767i16), (5, -5), (100, 101), (-1, 0)] {
        assert_eq!(a.sq_dist(&b), offset_binary(a).sq_dist(&offset_binary(b)));
    }
}

#[test]
fn difference_function_of_a_short_window() {
    assert_eq!(difference_function(&[1u16, 3, 6, 10], 4), vec![0, 29, 74, 81]);
    assert_eq!(difference_function(&[1u16, 3, 6, 10], 2), vec![0, 29]);
    assert_eq!(difference_function(&[1u16, 3, 6, 10], 1), vec![0]);
    assert_eq!(difference_function(&[1u16, 3, 6, 10], 0), Vec::<u64>::new());
    assert_eq!(difference_function(&[-4i16, -2, 1, 5], 4), vec![0, 29, 74, 81]);
    assert_eq!(difference_function::<u16>(&[], 0), Vec::<u64>::new());
}

#[test]
fn difference_function_of_a_full_amplitude_square_wave() {
    let square: Vec<u16> = (0..64).map(|i| if (i / 4) % 2 == 0 { 0 } else { 65535 }).collect();
    assert_eq!(
        difference_function(&square, 10),
        vec![
            0,
            64422543375,
            128845086750,
            193267630125,
            257690173500,
            193267630125,
            128845086750,
            64422543375,
            0,
            55832870925
        ]
    );
}

#[test]
fn difference_function_is_zero_at_an_exact_period() {
    let alternating: Vec<u16> = (0..16).map(|i| if i % 2 == 0 { 0 } else { 10 }).collect();
    assert_eq!(difference_function(&alternating, 8), vec![0, 1500, 0, 1300, 0, 1100, 0, 900]);
}

#[test]
fn normalize_divides_by_the_running_mean() {
    assert_eq!(
        normalize(&[0, 29, 74, 81]),
        vec![ratio(0, 0), ratio(29, 29), ratio(148, 103), ratio(243, 184)]
    );
    assert_eq!(normalize(&[]), Vec::<Ratio64>::new());
    assert_eq!(normalize(&[5]), vec![ratio(0, 0)]);
}

#[test]
fn normalize_ignores_the_entry_for_lag_zero() {
    assert_eq!(normalize(&[1, 29, 74, 81]), normalize(&[0, 29, 74, 81]));
}

#[test]
fn normalize_of_zero_differences_is_infinite() {
    assert_eq!(normalize(&[0, 0, 0, 0]), vec![ratio(0, 0); 4]);
    assert_eq!(
        normalize(&[0, 0, 0, 7, 0]),
        vec![ratio(0, 0), ratio(0, 0), ratio(0, 0), ratio(21, 7), ratio(0, 7)]
    );
}

#[test]
fn normalize_multiplies_by_the_lag() {
    let diff = vec![0u64, 1, 1, 1, 1, 1, 1, 1, 1, 1, 27];
    let c = normalize(&diff);
    assert_eq!(c[10], ratio(270, 36));
    assert_eq!(c[9], ratio(9, 9));
    assert_eq!(c[3], ratio(3, 3));
}

#[test]
fn normalize_at_the_edge_of_64_bits() {
    let c = normalize(&[0, u64::MAX]);
    assert_eq!(c[1], ratio(u64::MAX, u64::MAX));
    let c = normalize(&[0, 1, (u64::MAX - 1) / 2]);
    assert_eq!(c[2], ratio(u64::MAX - 1, (u64::MAX - 1) / 2 + 1));
}

#[test]
fn below_orders_finite_ratios() {
    assert!(ratio(1, 10).below(&ratio(2, 10)));
    assert!(!ratio(2, 10).below(&ratio(1, 10)));
    assert!(ratio(1, 3).below(&ratio(1, 2)));
    assert!(!ratio(1, 2).below(&ratio(2, 4)));
    assert!(!ratio(2, 4).below(&ratio(1, 2)));
    assert!(ratio(0, 5).below(&ratio(1, 1000)));
    assert!(!ratio(0, 5).below(&ratio(0, 7)));
}

#[test]
fn below_treats_zero_denominator_as_infinity() {
    assert!(ratio(7, 1).below(&Ratio64::infinity()));
    assert!(ratio(u64::MAX, 1).below(&ratio(0, 0)));
    assert!(!Ratio64::infinity().below(&ratio(7, 1)));
    assert!(!Ratio64::infinity().below(&Ratio64::infinity()));
    assert!(!ratio(5, 0).below(&ratio(9, 0)));
    assert!(!ratio(5, 0).below(&ratio(u64::MAX, 1)));
}

#[test]
fn below_is_exact_for_large_words() {
    let m = u64::MAX;
    assert!(ratio(m, m - 1).below(&ratio(m, m - 2)));
    assert!(!ratio(m, m - 2).below(&ratio(m, m - 1)));
    assert!(ratio(m - 1, m).below(&ratio(m, m)));
    assert!(!ratio(m, m).below(&ratio(m, m)));
    assert!(ratio(m - 2, m - 1).below(&ratio(m - 1, m)));
    assert!(!ratio(m - 1, m).below(&ratio(m - 2, m - 1)));
}

#[test]
fn search_takes_the_least_value_when_nothing_is_below_the_threshold() {
    let c = vec![ratio(0, 0), ratio(1, 1), ratio(148, 103), ratio(243, 184)];
    assert_eq!(search(&c, ratio(1, 10)), 1);
    let c = vec![ratio(0, 0), ratio(9, 10), ratio(3, 10), ratio(5, 10), ratio(2, 10), ratio(4, 10)];
    assert_eq!(search(&c, ratio(1, 10)), 4);
}

#[test]
fn search_keeps_the_earlier_lag_on_a_tie() {
    let c = vec![ratio(0, 0), ratio(5, 10), ratio(1, 2), ratio(50, 100), ratio(7, 10)];
    assert_eq!(search(&c, ratio(1, 10)), 1);
    let c = vec![ratio(0, 0), ratio(7, 10), ratio(1, 2), ratio(50, 100)];
    assert_eq!(search(&c, ratio(1, 10)), 2);
}

#[test]
fn search_walks_down_to_the_local_minimum_after_crossing() {
    let c = vec![
        ratio(0, 0),
        ratio(1, 1),
        ratio(9, 100),
        ratio(8, 100),
        ratio(7, 100),
        ratio(8, 100),
        ratio(1, 100),
    ];
    assert_eq!(search(&c, ratio(1, 10)), 4);
    assert_eq!(search(&c, ratio(85, 1000)), 4);
    assert_eq!(search(&c, ratio(75, 1000)), 4);
    assert_eq!(search(&c, ratio(7, 100)), 6);
    assert_eq!(search(&c, ratio(1, 100)), 6);
    assert_eq!(search(&c, ratio(2, 1)), 4);
}

#[test]
fn search_stops_the_walk_on_equal_values() {
    let c = vec![ratio(0, 0), ratio(1, 1), ratio(9, 100), ratio(18, 200), ratio(1, 100)];
    assert_eq!(search(&c, ratio(1, 10)), 2);
}

#[test]
fn search_walks_to_the_last_lag() {
    let c = vec![ratio(0, 0), ratio(1, 1), ratio(9, 100), ratio(8, 100), ratio(7, 100)];
    assert_eq!(search(&c, ratio(1, 10)), 4);
}

#[test]
fn search_threshold_is_strict() {
    let c = vec![ratio(0, 0), ratio(1, 1), ratio(1, 10), ratio(5, 100), ratio(2, 1)];
    assert_eq!(search(&c, ratio(1, 10)), 3);
    let c = vec![ratio(0, 0), ratio(1, 1), ratio(1, 10), ratio(2, 1)];
    assert_eq!(search(&c, ratio(1, 10)), 2);
    let c = vec![ratio(0, 0), ratio(1, 1), ratio(1, 10), ratio(1, 20), ratio(1, 30)];
    assert_eq!(search(&c, ratio(1, 10)), 4);
}

#[test]
fn search_without_finite_values_gives_zero() {
    assert_eq!(search(&[], ratio(1, 10)), 0);
    assert_eq!(search(&[ratio(0, 0)], ratio(1, 10)), 0);
    assert_eq!(search(&[ratio(0, 0); 6], ratio(1, 10)), 0);
    assert_eq!(search(&[ratio(3, 0), ratio(4, 0), ratio(5, 0)], ratio(1, 10)), 0);
}

#[test]
fn search_skips_leading_infinite_values() {
    let c = vec![ratio(0, 0), ratio(0, 0), ratio(0, 0), ratio(3, 1), ratio(4, 1)];
    assert_eq!(search(&c, ratio(1, 10)), 3);
    let c = vec![ratio(0, 0), ratio(0, 0), ratio(0, 0), ratio(0, 5), ratio(0, 5)];
    assert_eq!(search(&c, ratio(1, 10)), 3);
}

#[test]
fn search_never_reads_lag_zero() {
    let rest = [ratio(9, 10), ratio(3, 10), ratio(5, 10)];
    for first in [ratio(0, 0), ratio(0, 1), ratio(1, 1), ratio(1, 100)] {
        let mut c = vec![first];
        c.extend(rest);
        assert_eq!(search(&c, ratio(1, 10)), 2);
    }
}

#[test]
fn search_with_zero_threshold_takes_the_least_value() {
    let c = vec![ratio(0, 0), ratio(1, 1), ratio(0, 100), ratio(8, 100), ratio(0, 7)];
    assert_eq!(search(&c, ratio(0, 1)), 2);
}

#[test]
fn search_with_infinite_threshold_descends_from_the_first_finite_lag() {
    let c = vec![ratio(0, 0), ratio(0, 0), ratio(5, 1), ratio(4, 1), ratio(6, 1), ratio(1, 1)];
    assert_eq!(search(&c, Ratio64::infinity()), 3);
}
