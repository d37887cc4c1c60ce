use thunder_orchard::state::State;

#[test]
fn limits_start_at_eight_mebibytes_and_42800() {
    assert_eq!(State::body_size_limit(0), 8 * 1024 * 1024);
    assert_eq!(State::body_sigops_limit(0), 42800);
    assert_eq!(State::body_size_limit(4319), 8 * 1024 * 1024);
    assert_eq!(State::body_sigops_limit(4319), 42800);
}

#[test]
fn limits_grow_by_four_percent_a_month() {
    // 42800 * 1.04 = 44512; 8388608 * 1.04 = 8724152.32
    assert_eq!(State::body_sigops_limit(4320), 44512);
    assert_eq!(State::body_size_limit(4320), 8724152);
    // 42800 * 1.04^2 = 46292.48; 8388608 * 1.04^2 = 9073118.4128
    assert_eq!(State::body_sigops_limit(2 * 4320), 46292);
    assert_eq!(State::body_size_limit(2 * 4320 + 17), 9073118);
    // 1.04^12 = 1.6010322185676...
    assert_eq!(State::body_sigops_limit(12 * 4320), 68524);
    assert_eq!(State::body_size_limit(12 * 4320), 13430431);
}

#[test]
fn limits_agree_with_floating_point() {
    for month in 0..120u32 {
        let factor = 1.04f64.powi(month as i32);
        assert_eq!(
            State::body_sigops_limit(month * 4320),
            (42800f64 * factor).floor() as usize,
            "month {month}"
        );
        assert_eq!(
            State::body_size_limit(month * 4320 + 4319),
            (8388608f64 * factor).floor() as usize,
            "month {month}"
        );
    }
}

#[test]
fn limits_stop_growing_after_ten_years() {
    assert_eq!(State::body_sigops_limit(119 * 4320), 4554190);
    assert_eq!(State::body_size_limit(119 * 4320), 892600810);
    assert_eq!(State::body_sigops_limit(120 * 4320), 42800 * 111);
    assert_eq!(State::body_size_limit(120 * 4320), 8 * 1024 * 1024 * 111);
    assert_eq!(State::body_sigops_limit(u32::MAX), 4750800);
    assert_eq!(State::body_size_limit(u32::MAX), 931135488);
}
