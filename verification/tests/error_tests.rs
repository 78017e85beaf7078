use gobi_lib::{GobiError, GobiResult, try_collect};

fn err(code: i32, msg: &str) -> GobiError {
    GobiError { code, msg: msg.to_owned() }
}

#[test]
fn merge_keeps_equal_codes() {
    let r = err(7, "a").merge(err(7, "b"));
    assert_eq!(r.code, 7);
    assert_eq!(r.msg, "a\nb");
}

#[test]
fn merge_collapses_differing_nonzero_codes_to_one() {
    let r = err(2, "a").merge(err(3, "b"));
    assert_eq!(r.code, 1);
    assert_ne!(r.code, 0);
    assert_eq!(r.msg, "a\nb");
    // A zero code beside a non-empty message is a real report, not the
    // identity, so the collapse rule applies to it too.
    let r = err(0, "a").merge(err(5, "x"));
    assert_eq!(r.code, 1);
    assert_eq!(r.msg, "a\nx");
}

#[test]
fn merge_is_associative_on_values() {
    let a = err(2, "a");
    let b = err(3, "b");
    let c = err(3, "c");
    let left = a.clone().merge(b.clone()).merge(c.clone());
    let right = a.merge(b.merge(c));
    assert_eq!(left.code, right.code);
    assert_eq!(left.msg, right.msg);
}

#[test]
fn merge_has_the_default_as_two_sided_identity() {
    let r = err(5, "boom").merge(GobiError::default());
    assert_eq!(r.code, 5);
    assert_eq!(r.msg, "boom");
    let r = GobiError::default().merge(err(5, "boom"));
    assert_eq!(r.code, 5);
    assert_eq!(r.msg, "boom");
    let r = GobiError::default().merge(GobiError::default());
    assert_eq!(r.code, 0);
    assert_eq!(r.msg, "");
}

#[test]
fn default_is_no_failure() {
    let d = GobiError::default();
    assert_eq!(d.code, 0);
    assert_eq!(d.msg, "");
}

#[test]
fn try_collect_lets_a_single_failure_keep_its_own_report() {
    let results: Vec<GobiResult<i64>> = vec![Ok(1), Err(err(7, "only failure")), Ok(2)];
    let e = try_collect(results).unwrap_err();
    assert_eq!(e.code, 7);
    assert_eq!(e.msg, "only failure");
}

#[test]
fn try_collect_keeps_all_successes_in_order() {
    let results: Vec<GobiResult<i64>> = vec![Ok(1), Ok(2), Ok(3)];
    let r = try_collect(results).unwrap();
    assert_eq!(r, vec![1, 2, 3]);
}

#[test]
fn try_collect_aggregates_failures_and_discards_successes() {
    let results: Vec<GobiResult<i64>> = vec![Ok(1), Err(err(1, "first")), Ok(2), Err(err(1, "second"))];
    let e = try_collect(results).unwrap_err();
    assert_eq!(e.code, 1);
    assert!(e.msg.contains("first"));
    assert!(e.msg.contains("second"));
    assert_eq!(e.msg, "first\nsecond");
}
