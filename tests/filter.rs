use ocs::cli::{parse_iso_date_and_convert_to_git_time, DateError};
use ocs::filter::{
    commit_message_matches, commit_passes_filter, commit_timestamp_is_in_range, CommitTime,
};

fn check_timestamp_window() {
    assert!(commit_timestamp_is_in_range(CommitTime::new(0, 0), None, None));

    assert!(commit_timestamp_is_in_range(
        CommitTime::new(0, 0),
        Some(CommitTime::new(1, 0)),
        None
    ));
    assert!(!commit_timestamp_is_in_range(
        CommitTime::new(0, 0),
        Some(CommitTime::new(-1, 0)),
        None
    ));

    assert!(!commit_timestamp_is_in_range(
        CommitTime::new(0, 0),
        None,
        Some(CommitTime::new(1, 0))
    ));
    assert!(commit_timestamp_is_in_range(
        CommitTime::new(0, 0),
        None,
        Some(CommitTime::new(-1, 0))
    ));

    assert!(!commit_timestamp_is_in_range(
        CommitTime::new(0, 0),
        Some(CommitTime::new(1, 0)),
        Some(CommitTime::new(1, 0))
    ));
    assert!(!commit_timestamp_is_in_range(
        CommitTime::new(0, 0),
        Some(CommitTime::new(-1, 0)),
        Some(CommitTime::new(-1, 0))
    ));
    assert!(commit_timestamp_is_in_range(
        CommitTime::new(0, 0),
        Some(CommitTime::new(1, 0)),
        Some(CommitTime::new(-1, 0))
    ));
}

#[test]
fn ocs_summary_verify_commit_timestamp_is_in_range() {
    check_timestamp_window();
}

#[test]
fn ocs_revisions_verify_commit_timestamp_is_in_range() {
    check_timestamp_window();
}

#[test]
fn before_bound_is_strict() {
    let t = CommitTime::new(100, 0);
    assert!(!commit_timestamp_is_in_range(t, Some(CommitTime::new(100, 0)), None));
    assert!(!commit_timestamp_is_in_range(t, None, Some(CommitTime::new(100, 0))));
    assert!(commit_timestamp_is_in_range(t, Some(CommitTime::new(101, 0)), Some(CommitTime::new(99, 0))));
}

#[test]
fn times_order_by_seconds_then_offset() {
    assert!(CommitTime::new(5, 60).is_before(&CommitTime::new(6, 0)));
    assert!(CommitTime::new(5, 0).is_before(&CommitTime::new(5, 60)));
    assert!(!CommitTime::new(5, 60).is_before(&CommitTime::new(5, 60)));
    assert!(!CommitTime::new(7, -60).is_before(&CommitTime::new(6, 120)));
}

#[test]
fn message_pattern_is_a_case_sensitive_substring() {
    let grep = Some("fix".to_string());
    assert!(commit_message_matches(Some("bugfix for parser"), &grep));
    assert!(commit_message_matches(Some("fix"), &grep));
    assert!(!commit_message_matches(Some("Fix parser"), &grep));
    assert!(!commit_message_matches(Some("f i x"), &grep));
    assert!(!commit_message_matches(None, &grep));
    assert!(commit_message_matches(None, &None));
    assert!(commit_message_matches(Some("anything"), &None));
    assert!(commit_message_matches(Some("a.*b"), &Some("a.*b".to_string())));
    assert!(!commit_message_matches(Some("axxb"), &Some("a.*b".to_string())));
}

#[test]
fn before_bound_alone_ignores_the_message() {
    let before = Some(CommitTime::new(10, 0));
    for msg in [None, Some("release"), Some("")] {
        assert!(commit_passes_filter(&None, before, None, msg, CommitTime::new(9, 0)));
        assert!(!commit_passes_filter(&None, before, None, msg, CommitTime::new(11, 0)));
    }
}

#[test]
fn pattern_alone_ignores_the_time() {
    let grep = Some("release".to_string());
    for secs in [-5_i64, 0, 1_700_000_000] {
        let t = CommitTime::new(secs, 0);
        assert!(commit_passes_filter(&grep, None, None, Some("release 1.0"), t));
        assert!(!commit_passes_filter(&grep, None, None, Some("wip"), t));
        assert!(!commit_passes_filter(&grep, None, None, None, t));
    }
}

#[test]
fn filter_needs_every_rule() {
    let grep = Some("release".to_string());
    let before = Some(CommitTime::new(10, 0));
    let after = Some(CommitTime::new(0, 0));
    assert!(commit_passes_filter(&grep, before, after, Some("release"), CommitTime::new(5, 0)));
    assert!(!commit_passes_filter(&grep, before, after, Some("wip"), CommitTime::new(5, 0)));
    assert!(!commit_passes_filter(&grep, before, after, Some("release"), CommitTime::new(10, 0)));
    assert!(!commit_passes_filter(&grep, before, after, Some("release"), CommitTime::new(0, 0)));
}

#[test]
fn dates_are_utc_midnight() {
    assert_eq!(parse_iso_date_and_convert_to_git_time("1970-01-01"), Ok(CommitTime::new(0, 0)));
    assert_eq!(
        parse_iso_date_and_convert_to_git_time("2000-03-01"),
        Ok(CommitTime::new(951_868_800, 0))
    );
    assert_eq!(
        parse_iso_date_and_convert_to_git_time("2024-02-29"),
        Ok(CommitTime::new(1_709_164_800, 0))
    );
    assert_eq!(
        parse_iso_date_and_convert_to_git_time("1969-12-31"),
        Ok(CommitTime::new(-86_400, 0))
    );
    assert_eq!(
        parse_iso_date_and_convert_to_git_time("1900-03-01"),
        Ok(CommitTime::new(-2_203_891_200, 0))
    );
    assert_eq!(
        parse_iso_date_and_convert_to_git_time("9999-12-31"),
        Ok(CommitTime::new(253_402_214_400, 0))
    );
}

#[test]
fn dates_that_do_not_exist_are_refused() {
    assert_eq!(parse_iso_date_and_convert_to_git_time("2023-02-29"), Err(DateError::NoSuchDate));
    assert_eq!(parse_iso_date_and_convert_to_git_time("1900-02-29"), Err(DateError::NoSuchDate));
    assert_eq!(parse_iso_date_and_convert_to_git_time("2023-13-01"), Err(DateError::NoSuchDate));
    assert_eq!(parse_iso_date_and_convert_to_git_time("2023-00-10"), Err(DateError::NoSuchDate));
    assert_eq!(parse_iso_date_and_convert_to_git_time("2023-04-31"), Err(DateError::NoSuchDate));
    assert_eq!(parse_iso_date_and_convert_to_git_time("2023-04-00"), Err(DateError::NoSuchDate));
}

#[test]
fn malformed_dates_are_refused() {
    for s in ["", "20230101", "2023-1-01", "2023/01/01", "2023-01-011", "abcd-ef-gh", " 2023-01-01"] {
        assert_eq!(parse_iso_date_and_convert_to_git_time(s), Err(DateError::Malformed), "{}", s);
    }
}
