use score_window::sqrt::floor_sqrt;

#[test]
fn floor_sqrt_of_small_numbers() {
    let roots: Vec<u16> = (0..=17).map(floor_sqrt).collect();
    assert_eq!(roots, vec![0, 1, 1, 1, 2, 2, 2, 2, 2, 3, 3, 3, 3, 3, 3, 3, 4, 4]);
}

#[test]
fn floor_sqrt_around_squares() {
    for root in 1..=65535u32 {
        let square = root * root;
        assert_eq!(floor_sqrt(square - 1) as u32, root - 1);
        assert_eq!(floor_sqrt(square) as u32, root);
    }
}

#[test]
fn floor_sqrt_of_the_largest_numbers() {
    assert_eq!(floor_sqrt(u32::MAX), 65535);
    assert_eq!(floor_sqrt(4_294_836_225), 65535);
    assert_eq!(floor_sqrt(4_294_836_224), 65534);
}

#[test]
fn floor_sqrt_where_single_precision_runs_out() {
    assert_eq!(floor_sqrt(16_777_215), 4095);
    assert_eq!(floor_sqrt(16_777_216), 4096);
    assert_eq!(floor_sqrt(16_777_217), 4096);
    assert_eq!(floor_sqrt(4_208_936_880), 64876);
}
