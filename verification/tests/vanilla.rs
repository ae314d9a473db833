use score_window::{_task_2_vanilla, task_2_vanilla, ValuesForAlice};

#[test]
fn test_vanilla() {
    // max score
    assert_eq!(task_2_vanilla(10, 0).max_score, 2500);
    assert_eq!(task_2_vanilla(11, 0).max_score, 3000);

    // window size, even test length
    assert_eq!(task_2_vanilla(10, 3000).window_size, 0);
    assert_eq!(task_2_vanilla(10, 2500).window_size, 1);
    assert_eq!(task_2_vanilla(10, 2450).window_size, 1);
    assert_eq!(task_2_vanilla(10, 2400).window_size, 3);
    assert_eq!(task_2_vanilla(10, 1500).window_size, 7);
    assert_eq!(task_2_vanilla(10, 800).window_size, 9);
    assert_eq!(task_2_vanilla(10, 0).window_size, 10);

    // window size, odd test length
    assert_eq!(task_2_vanilla(11, 3500).window_size, 0);
    assert_eq!(task_2_vanilla(11, 3000).window_size, 2);
    assert_eq!(task_2_vanilla(11, 2700).window_size, 4);
    assert_eq!(task_2_vanilla(11, 100).window_size, 10);
    assert_eq!(task_2_vanilla(11, 0).window_size, 11);
}

#[test]
fn vanilla_window_alone_agrees_with_the_pair() {
    for length in (0..=300u16).chain([46341, 65534, 65535]) {
        for threshold in [-7, 0, 1, 24, 25, 100, 1500, 2410, 2500, 65000, 70000, i32::MAX] {
            assert_eq!(
                _task_2_vanilla(length, threshold),
                task_2_vanilla(length, threshold).window_size
            );
        }
    }
}

#[test]
fn vanilla_max_score_splits_the_duration_evenly() {
    assert_eq!(task_2_vanilla(0, 0).max_score, 0);
    assert_eq!(task_2_vanilla(1, 0).max_score, 0);
    assert_eq!(task_2_vanilla(2, 0).max_score, 100);
    assert_eq!(task_2_vanilla(3, 0).max_score, 200);
    assert_eq!(task_2_vanilla(7, 0).max_score, 1200);
    assert_eq!(task_2_vanilla(50, 0).max_score, 62500);
    assert_eq!(task_2_vanilla(51, 0).max_score, 65000);
}

#[test]
fn vanilla_max_score_beyond_16_and_32_bits() {
    assert_eq!(task_2_vanilla(52, 0).max_score, 67600);
    assert_eq!(task_2_vanilla(90, 0).max_score, 202500);
    assert_eq!(task_2_vanilla(100, 0).max_score, 250000);
    assert_eq!(task_2_vanilla(10000, 0).max_score, 2_500_000_000);
    assert_eq!(task_2_vanilla(46341, 0).max_score, 53_687_207_000);
    assert_eq!(task_2_vanilla(65534, 0).max_score, 107_367_628_900);
    assert_eq!(task_2_vanilla(65535, 0).max_score, 107_370_905_600);
}

#[test]
fn vanilla_answer_in_full() {
    assert_eq!(task_2_vanilla(10, 1500), ValuesForAlice { max_score: 2500, window_size: 7 });
    assert_eq!(task_2_vanilla(11, 3000), ValuesForAlice { max_score: 3000, window_size: 2 });
    assert_eq!(task_2_vanilla(100, 250000), ValuesForAlice { max_score: 250000, window_size: 1 });
    assert_eq!(
        task_2_vanilla(10000, i32::MAX),
        ValuesForAlice { max_score: 2_500_000_000, window_size: 3755 }
    );
}

#[test]
fn vanilla_max_score_is_the_best_of_all_hand_in_times() {
    for length in 0..=400u64 {
        let best = (0..=length).map(|x| 100 * x * (length - x)).max();
        assert_eq!(Some(task_2_vanilla(length as u16, 0).max_score), best);
    }
}

#[test]
fn vanilla_max_score_ignores_the_threshold() {
    assert_eq!(task_2_vanilla(10, 3000).max_score, 2500);
    assert_eq!(task_2_vanilla(11, -40).max_score, 3000);
    assert_eq!(task_2_vanilla(11, i32::MAX).max_score, 3000);
}

#[test]
fn vanilla_window_is_the_duration_without_a_threshold() {
    for length in [0u16, 1, 2, 10, 11, 51, 52, 1000, 46341, 65534, 65535] {
        for threshold in [0, -1, -25, -3000, i32::MIN] {
            assert_eq!(_task_2_vanilla(length, threshold), length as u32);
        }
    }
}

#[test]
fn vanilla_window_of_an_empty_test() {
    assert_eq!(_task_2_vanilla(0, 0), 0);
    assert_eq!(_task_2_vanilla(0, 10), 1);
    assert_eq!(_task_2_vanilla(0, 25), 0);
}

#[test]
fn vanilla_window_for_thresholds_under_25() {
    assert_eq!(_task_2_vanilla(10, 1), 11);
    assert_eq!(_task_2_vanilla(10, 10), 11);
    assert_eq!(_task_2_vanilla(10, 24), 11);
    assert_eq!(_task_2_vanilla(10, 25), 9);
    assert_eq!(_task_2_vanilla(51, 1), 52);
    assert_eq!(_task_2_vanilla(65534, 1), 65535);
}

#[test]
fn vanilla_window_rounds_the_threshold_down_to_a_multiple_of_25() {
    assert_eq!(_task_2_vanilla(10, 2400), 3);
    assert_eq!(_task_2_vanilla(10, 2410), 3);
    assert_eq!(_task_2_vanilla(10, 2424), 3);
    assert_eq!(_task_2_vanilla(10, 2425), 1);
    assert_eq!(_task_2_vanilla(51, 65000), 2);
    assert_eq!(_task_2_vanilla(51, 65001), 2);
    assert_eq!(_task_2_vanilla(51, 65024), 2);
    assert_eq!(_task_2_vanilla(51, 65025), 0);
}

#[test]
fn vanilla_window_at_the_edge_of_emptiness() {
    assert_eq!(_task_2_vanilla(50, 62500), 1);
    assert_eq!(_task_2_vanilla(50, 62524), 1);
    assert_eq!(_task_2_vanilla(50, 62525), 0);
    assert_eq!(_task_2_vanilla(7, 1200), 2);
    assert_eq!(_task_2_vanilla(7, 1224), 2);
    assert_eq!(_task_2_vanilla(7, 1225), 0);
    assert_eq!(_task_2_vanilla(12, 3500), 3);
    assert_eq!(_task_2_vanilla(12, 3600), 1);
    assert_eq!(_task_2_vanilla(7, 600), 6);
}

#[test]
fn vanilla_window_of_the_longest_tests() {
    assert_eq!(_task_2_vanilla(65535, 1), 65536);
    assert_eq!(_task_2_vanilla(65535, 24), 65536);
    assert_eq!(_task_2_vanilla(65535, 25), 65534);
    assert_eq!(_task_2_vanilla(65535, 250000), 65534);
    assert_eq!(_task_2_vanilla(65535, i32::MAX), 64876);
    assert_eq!(_task_2_vanilla(65534, 24), 65535);
    assert_eq!(_task_2_vanilla(65534, i32::MAX), 64875);
    assert_eq!(_task_2_vanilla(46341, i32::MAX), 45404);
    assert_eq!(_task_2_vanilla(1000, 250000), 995);
}

#[test]
fn vanilla_window_counts_the_hand_in_times_for_multiples_of_25() {
    for length in 0..=60u16 {
        for step in 1..=40i32 {
            let threshold = 25 * step * step;
            let count = (1..=length as i64)
                .filter(|&x| 100 * x * (length as i64 - x) >= threshold as i64)
                .count();
            assert_eq!(_task_2_vanilla(length, threshold) as usize, count);
        }
    }
}

#[test]
fn vanilla_double_delta_is_the_largest_that_meets_the_threshold() {
    for length in 0..=60i64 {
        for threshold in (25..=100_000i64).step_by(25) {
            let window = _task_2_vanilla(length as u16, threshold as i32) as i64;
            if window > 0 {
                let d = window - 1;
                assert!(100 * (length + d) * (length - d) >= 4 * threshold);
                assert!(100 * (length + d + 2) * (length - d - 2) < 4 * threshold);
            }
        }
    }
}

#[test]
fn vanilla_double_delta_cannot_grow_for_any_threshold() {
    for length in 0..=40i64 {
        for threshold in 1..=45_000i64 {
            let window = _task_2_vanilla(length as u16, threshold as i32) as i64;
            if window > 0 {
                let d = window - 1;
                assert_eq!(d % 2, length % 2);
                assert!(100 * (length + d + 2) * (length - d - 2) < 4 * threshold);
            }
        }
    }
}

#[test]
fn vanilla_double_delta_can_miss_a_threshold_between_multiples_of_25() {
    let window = _task_2_vanilla(10, 2410) as i64;
    let d = window - 1;
    assert_eq!(d, 2);
    assert!(100 * (10 + d) * (10 - d) < 4 * 2410);
}

#[test]
fn vanilla_is_a_function_of_its_arguments() {
    for length in [0u16, 1, 10, 11, 50, 51] {
        for threshold in [-3, 0, 7, 25, 1500, 2500, 64999] {
            assert_eq!(task_2_vanilla(length, threshold), task_2_vanilla(length, threshold));
        }
    }
}

#[test]
fn vanilla_window_never_grows_with_the_threshold() {
    for length in [0u16, 1, 2, 9, 10, 11, 50, 51, 300, 65535] {
        let mut previous = _task_2_vanilla(length, 25);
        for threshold in 26..=3000 {
            let window = _task_2_vanilla(length, threshold);
            assert!(window <= previous);
            previous = window;
        }
        for lower in [-100, -1, 0] {
            for higher in [25, 26, 100, 2500, 1_000_000] {
                assert!(_task_2_vanilla(length, higher) <= _task_2_vanilla(length, lower));
            }
            assert_eq!(_task_2_vanilla(length, lower), _task_2_vanilla(length, lower - 1));
        }
    }
}

#[test]
fn vanilla_window_grows_once_from_zero_to_a_threshold_under_25() {
    assert_eq!(_task_2_vanilla(10, 0), 10);
    assert_eq!(_task_2_vanilla(10, 10), 11);
}
