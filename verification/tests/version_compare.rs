use webview2::version::compare_browser_versions;

#[test]
fn compare_eq() {
    let result = compare_browser_versions("1.0.0", "1.0.0");
    assert_eq!(0, result);
}

#[test]
fn compare_lt() {
    let result = compare_browser_versions("1.0.0", "1.0.1");
    assert_eq!(-1, result);
}

#[test]
fn compare_gt() {
    let result = compare_browser_versions("2.0.0", "1.0.1");
    assert_eq!(1, result);
}

#[test]
fn compare_missing_segments_count_as_zero() {
    assert_eq!(0, compare_browser_versions("1.0", "1.0.0"));
    assert_eq!(0, compare_browser_versions("1.0.0.0", "1.0"));
    assert_eq!(-1, compare_browser_versions("1", "1.0.1"));
}

#[test]
fn compare_is_numeric_not_lexicographic() {
    assert_eq!(-1, compare_browser_versions("0.9", "0.10"));
    assert_eq!(1, compare_browser_versions("10.0", "9.9"));
}

#[test]
fn compare_ignores_leading_zeros() {
    assert_eq!(0, compare_browser_versions("01.0", "1.0"));
    assert_eq!(1, compare_browser_versions("1.010", "1.9"));
}

#[test]
fn compare_handles_segments_beyond_machine_words() {
    assert_eq!(
        -1,
        compare_browser_versions(
            "1.99999999999999999999999999",
            "1.100000000000000000000000000",
        )
    );
    assert_eq!(
        0,
        compare_browser_versions(
            "1.123456789012345678901234567890",
            "1.123456789012345678901234567890",
        )
    );
}

#[test]
fn compare_empty_versions() {
    assert_eq!(0, compare_browser_versions("", ""));
    assert_eq!(0, compare_browser_versions("", "0"));
    assert_eq!(-1, compare_browser_versions("", "1"));
}
