use mcp_memoria::clock::{days_old_at, elapsed_days, parse_created_at, parse_days_old};

#[test]
fn test_elapsed_days_rounds_down_and_clamps() {
    assert_eq!(elapsed_days((0, 0), (86_400, 0)), 1);
    assert_eq!(elapsed_days((0, 0), (86_399, 999_999_999)), 0);
    assert_eq!(elapsed_days((0, 1), (86_400, 0)), 0);
    assert_eq!(elapsed_days((0, 0), (10 * 86_400 + 5, 0)), 10);
    assert_eq!(elapsed_days((86_400, 0), (0, 0)), 0);
    assert_eq!(elapsed_days((5, 0), (5, 0)), 0);
    assert_eq!(elapsed_days((i64::MIN, 0), (i64::MAX, 0)), 213_503_982_334_601);
}

#[test]
fn test_parse_created_at_both_forms() {
    assert_eq!(parse_created_at("1970-01-02 00:00:00"), Some((86_400, 0)));
    assert_eq!(parse_created_at("2020-01-01 00:00:00"), Some((1_577_836_800, 0)));
    assert_eq!(parse_created_at("2020-01-01T01:00:00+01:00"), Some((1_577_836_800, 0)));
    assert_eq!(parse_created_at("2020-01-01T00:00:00.5Z"), Some((1_577_836_800, 500_000_000)));
    assert_eq!(parse_created_at("yesterday"), None);
    assert_eq!(parse_created_at(""), None);
}

#[test]
fn test_days_old_at_a_given_moment() {
    let now = (1_577_836_800 + 1000 * 86_400 + 60, 0);
    assert_eq!(days_old_at("2020-01-01 00:00:00", now), 1000);
    assert_eq!(days_old_at("2020-01-01T00:00:00Z", now), 1000);
    assert_eq!(days_old_at("not a time", now), 0);
    assert_eq!(days_old_at("2999-01-01 00:00:00", now), 0);
}

#[test]
fn test_days_old_now() {
    let d = parse_days_old("2020-01-01 00:00:00");
    let expected = (chrono::Utc::now().timestamp() - 1_577_836_800) / 86_400;
    assert_eq!(d, expected);
    assert_eq!(parse_days_old("garbage"), 0);
    let now = chrono::Utc::now().to_rfc3339();
    assert_eq!(parse_days_old(&now), 0);
}
