use rlay::engine::{cache_admits, capacity_errors, check_node, is_internal_id};
use rlay::LayoutError;
use std::collections::HashSet;

#[test]
fn element_capacity_limit_reports_error() {
    assert_eq!(
        capacity_errors(Some(1), 2, None, 0, false),
        vec![LayoutError::ElementsCapacityExceeded]
    );
    assert!(capacity_errors(Some(2), 2, None, 10, false).is_empty());
}

#[test]
fn additional_capacity_limits_report_errors_in_order() {
    assert_eq!(
        capacity_errors(Some(0), 1, Some(1), 3, true),
        vec![
            LayoutError::ElementsCapacityExceeded,
            LayoutError::CommandsCapacityExceeded,
            LayoutError::TextMeasurementCapacityExceeded,
        ]
    );
    assert_eq!(
        capacity_errors(None, 100, Some(1), 2, false),
        vec![LayoutError::CommandsCapacityExceeded]
    );
    assert!(capacity_errors(None, 100, None, 100, false).is_empty());
}

#[test]
fn measurement_cache_admits_below_its_limit() {
    assert!(cache_admits(None, 1_000_000));
    assert!(cache_admits(Some(2), 1));
    assert!(!cache_admits(Some(2), 2));
    assert!(!cache_admits(Some(0), 0));
}

#[test]
fn internal_ids_use_the_reserved_prefix() {
    assert!(is_internal_id("__rlay_scroll"));
    assert!(is_internal_id("__rlay_"));
    assert!(!is_internal_id("__rlay"));
    assert!(!is_internal_id("panel"));
    assert!(!is_internal_id("x__rlay_"));
}

#[test]
fn reserved_ids_drop_the_node_and_report_it() {
    let mut seen = HashSet::new();
    let verdict = check_node(Some("__rlay_bad"), Some(7), true, false, &mut seen);
    assert!(!verdict.keep);
    assert_eq!(verdict.errors, vec![LayoutError::ReservedElementId("__rlay_bad".to_owned())]);
    assert!(seen.is_empty());
}

#[test]
fn duplicate_ids_and_transition_misuse_are_reported() {
    let mut seen = HashSet::new();
    let first = check_node(Some("a"), Some(11), false, false, &mut seen);
    assert!(first.keep);
    assert!(first.errors.is_empty());
    assert!(!first.drop_transition);
    assert!(seen.contains(&11));

    let again = check_node(Some("a"), Some(11), false, false, &mut seen);
    assert!(again.keep);
    assert_eq!(again.errors, vec![LayoutError::DuplicateElementId(11)]);

    let anonymous = check_node(None, None, true, false, &mut seen);
    assert!(anonymous.keep);
    assert_eq!(anonymous.errors, vec![LayoutError::TransitionMissingId]);
    assert!(!anonymous.drop_transition);

    let text = check_node(Some("t"), Some(12), true, true, &mut seen);
    assert!(text.keep);
    assert_eq!(text.errors, vec![LayoutError::TextTransitionUnsupported]);
    assert!(text.drop_transition);

    let both = check_node(None, None, true, true, &mut seen);
    assert_eq!(
        both.errors,
        vec![LayoutError::TransitionMissingId, LayoutError::TextTransitionUnsupported]
    );
    assert_eq!(seen.len(), 2);
}
