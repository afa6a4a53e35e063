use bootnode::config::{cutoff_ledgers, ledgers_per_day, SampleRatio};

#[test]
fn five_day_default_cutoff() {
    // 5 days at 5s/ledger
    assert_eq!(cutoff_ledgers(5, 5), 86_400);
}

#[test]
fn zero_ledger_seconds_falls_back_to_one() {
    assert_eq!(cutoff_ledgers(1, 0), 86_400);
}

#[test]
fn custom_window() {
    assert_eq!(cutoff_ledgers(2, 10), 17_280);
}

#[test]
fn one_day_at_five_seconds() {
    assert_eq!(ledgers_per_day(5), 17_280);
}

#[test]
fn window_saturates() {
    assert_eq!(cutoff_ledgers(49_710, 1), 4_294_944_000);
    assert_eq!(cutoff_ledgers(49_711, 1), u32::MAX);
    assert_eq!(cutoff_ledgers(u32::MAX, 1), u32::MAX);
    assert_eq!(cutoff_ledgers(u32::MAX, 5), u32::MAX / 5);
    assert_eq!(cutoff_ledgers(0, 5), 0);
}

#[test]
fn window_agrees_with_saturating_steps() {
    for days in [0u32, 1, 2, 5, 365, 49_710, 49_711, 1_000_000, u32::MAX] {
        for seconds in [0u32, 1, 2, 3, 5, 7, 60, 86_400, u32::MAX] {
            let expected = days
                .saturating_mul(24)
                .saturating_mul(60)
                .saturating_mul(60)
                .saturating_div(seconds.max(1));
            assert_eq!(cutoff_ledgers(days, seconds), expected);
        }
    }
}

#[test]
fn window_grows_with_days_and_shrinks_with_slower_ledgers() {
    assert!(cutoff_ledgers(5, 5) <= cutoff_ledgers(6, 5));
    assert!(cutoff_ledgers(5, 6) <= cutoff_ledgers(5, 5));
}

#[test]
fn sample_ratio_is_within_unit() {
    for ratio in [
        0.0,
        -0.0,
        0.05,
        0.5,
        0.999_999,
        1.0,
        f64::MIN_POSITIVE,
        5e-324,
        1.000_000_000_000_000_2,
        -1.0,
        -5e-324,
        2.0,
        f64::MAX,
        f64::INFINITY,
        f64::NEG_INFINITY,
        f64::NAN,
        -f64::NAN,
    ] {
        let bits = ratio.to_bits();
        assert_eq!(SampleRatio { bits }.is_within_unit(), (0.0..=1.0).contains(&ratio));
    }
}
