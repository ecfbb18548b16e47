use alexo_io::calendar::{
    current_year, current_year_month0, is_leap, year_month0_at, years_between, years_since,
};

#[test]
fn epoch_is_january_1970() {
    assert_eq!(year_month0_at(0), (1970, 0));
    assert_eq!(year_month0_at(86_399), (1970, 0));
}

#[test]
fn month_boundaries_in_1970() {
    assert_eq!(year_month0_at(31 * 86_400 - 1), (1970, 0));
    assert_eq!(year_month0_at(31 * 86_400), (1970, 1));
    assert_eq!(year_month0_at(59 * 86_400), (1970, 2));
    assert_eq!(year_month0_at(364 * 86_400), (1970, 11));
    assert_eq!(year_month0_at(365 * 86_400), (1971, 0));
}

#[test]
fn leap_years() {
    assert!(is_leap(1972));
    assert!(is_leap(2000));
    assert!(is_leap(2024));
    assert!(!is_leap(1900));
    assert!(!is_leap(2023));
    assert!(!is_leap(2100));
}

#[test]
fn leap_day_2000() {
    // 2000-02-29T00:00:00Z and 2000-03-01T00:00:00Z
    assert_eq!(year_month0_at(951_782_400), (2000, 1));
    assert_eq!(year_month0_at(951_868_800 - 1), (2000, 1));
    assert_eq!(year_month0_at(951_868_800), (2000, 2));
}

#[test]
fn end_of_leap_year_1972() {
    // 1972-12-31T23:59:59Z and 1973-01-01T00:00:00Z
    assert_eq!(year_month0_at(94_694_399), (1972, 11));
    assert_eq!(year_month0_at(94_694_400), (1973, 0));
}

#[test]
fn recent_dates() {
    // 2023-11-14T22:13:20Z
    assert_eq!(year_month0_at(1_700_000_000), (2023, 10));
    // 2024-09-01T00:00:00Z
    assert_eq!(year_month0_at(1_725_148_800), (2024, 8));
    // 2024-08-31T23:59:59Z
    assert_eq!(year_month0_at(1_725_148_799), (2024, 7));
}

#[test]
fn calendar_never_goes_back() {
    let mut prev = year_month0_at(0);
    let mut secs: u64 = 0;
    while secs < 2_000_000_000 {
        secs += 1_234_567;
        let next = year_month0_at(secs);
        assert!(next >= prev);
        assert!(next.1 < 12);
        prev = next;
    }
}

#[test]
fn years_counted_at_the_anniversary_month() {
    assert_eq!(years_between(2024, 7, 2019, 8), 4);
    assert_eq!(years_between(2024, 8, 2019, 8), 5);
    assert_eq!(years_between(2024, 11, 2019, 8), 5);
    assert_eq!(years_between(2019, 8, 2019, 8), 0);
}

#[test]
fn future_start_saturates_at_zero() {
    assert_eq!(years_between(2018, 11, 2019, 8), 0);
    assert_eq!(years_between(2019, 7, 2019, 8), 0);
    assert_eq!(years_between(0, 0, u32::MAX, 11), 0);
}

#[test]
fn years_between_is_whole_anniversaries() {
    for year in 2015u32..2030 {
        for month0 in 0u32..12 {
            let n = years_between(year, month0, 2019, 8);
            if (year, month0) >= (2019, 8) {
                assert!((2019 + n, 8) <= (year, month0));
                assert!((2019 + n + 1, 8) > (year, month0));
            } else {
                assert_eq!(n, 0);
            }
        }
    }
}

#[test]
fn clock_reading_is_a_calendar_position() {
    let (year, month0) = current_year_month0();
    assert!(year >= 1970);
    assert!(month0 < 12);
    assert!(current_year() >= year);
}

#[test]
fn years_since_agrees_with_the_clock() {
    let before = current_year_month0();
    let n = years_since(2019, 8);
    let after = current_year_month0();
    let low = years_between(before.0, before.1, 2019, 8);
    let high = years_between(after.0, after.1, 2019, 8);
    assert!(low <= n && n <= high);
}
