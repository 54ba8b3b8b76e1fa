use googletest_json_serde::match_matrix::Requirements;
use googletest_json_serde::predicates::EqualTo;
use googletest_json_serde::unordered::JsonUnorderedElementsAreMatcher;

fn make_unordered_eq_matcher(
    expected: &[i64],
    requirements: Requirements,
) -> JsonUnorderedElementsAreMatcher<EqualTo> {
    let elements = expected.iter().map(|&e| EqualTo { expected: e }).collect();
    JsonUnorderedElementsAreMatcher::new(elements, requirements)
}

fn shown(values: &[i64]) -> Vec<String> {
    values.iter().map(|v| format!("Number({v})")).collect()
}

fn explain(matcher: &JsonUnorderedElementsAreMatcher<EqualTo>, actual: &[i64]) -> String {
    matcher.explain_match(&actual.to_vec(), &shown(actual))
}

#[test]
fn perfect_match_handles_hundreds_of_elements_in_reverse_order() {
    let actual: Vec<i64> = (0..512).map(i64::from).collect();
    let expected: Vec<i64> = actual.iter().rev().copied().collect();
    let matcher = make_unordered_eq_matcher(&expected, Requirements::PerfectMatch);
    assert!(matcher.matches(&actual));
}

#[test]
fn perfect_match_respects_duplicate_cardinality() {
    let actual: Vec<i64> = [vec![7; 128], vec![3; 128]].concat();
    let expected: Vec<i64> = [vec![7; 127], vec![3; 129]].concat();
    let matcher = make_unordered_eq_matcher(&expected, Requirements::PerfectMatch);
    assert!(!matcher.matches(&actual));
}

#[test]
fn superset_mode_matches_when_actual_contains_all_expected() {
    let actual: Vec<i64> = (0..300).map(i64::from).collect();
    let expected: Vec<i64> = (120..180).map(i64::from).collect();
    let matcher = make_unordered_eq_matcher(&expected, Requirements::Superset);
    assert!(matcher.matches(&actual));
}

#[test]
fn subset_mode_matches_when_actual_is_contained_in_expected() {
    let actual: Vec<i64> = (0..120).map(i64::from).collect();
    let expected: Vec<i64> = (0..250).map(i64::from).collect();
    let matcher = make_unordered_eq_matcher(&expected, Requirements::Subset);
    assert!(matcher.matches(&actual));
}

#[test]
fn explain_match_reports_unmatched_actual_and_expected_elements() {
    let matcher = make_unordered_eq_matcher(&[10, 20, 30, 77], Requirements::PerfectMatch);
    let text = explain(&matcher, &[10, 20, 30, 99]);
    assert!(text.contains("does not match any expected elements"));
    assert!(text.contains("no elements match the expected element"));
}

#[test]
fn explanation_branch_no_actual_but_multiple_expected_unmatchable() {
    let matcher = make_unordered_eq_matcher(&[1, 2, 3], Requirements::PerfectMatch);
    assert_eq!(
        explain(&matcher, &[1, 1, 1]),
        "which has no elements matching the expected elements #1, #2"
    );
}

#[test]
fn explanation_branch_many_actual_one_expected_unmatchable() {
    let matcher = make_unordered_eq_matcher(&[1, 1, 4], Requirements::PerfectMatch);
    assert_eq!(
        explain(&matcher, &[1, 2, 3]),
        "whose elements #1, #2 do not match any expected elements and no elements match the expected element #2"
    );
}

#[test]
fn explanation_branch_one_actual_many_expected_unmatchable() {
    let matcher = make_unordered_eq_matcher(&[1, 3, 4], Requirements::PerfectMatch);
    assert_eq!(
        explain(&matcher, &[1, 1, 2]),
        "whose element #2 does not match any expected elements and no elements match the expected elements #1, #2"
    );
}

#[test]
fn perfect_match_large_perf_guard() {
    let actual: Vec<i64> = (0..4000).map(i64::from).collect();
    let expected: Vec<i64> = actual.iter().rev().copied().collect();
    let matcher = make_unordered_eq_matcher(&expected, Requirements::PerfectMatch);
    assert!(matcher.matches(&actual));
}

#[test]
fn contains_each_semantics_large_perf_guard() {
    let actual: Vec<i64> = (0..4500).map(i64::from).collect();
    let expected: Vec<i64> = (900..1900).map(i64::from).collect();
    let matcher = make_unordered_eq_matcher(&expected, Requirements::Superset);
    assert!(matcher.matches(&actual));
}

#[test]
fn is_contained_in_semantics_large_perf_guard() {
    let actual: Vec<i64> = (0..1000).map(i64::from).collect();
    let expected: Vec<i64> = (0..5000).map(i64::from).collect();
    let matcher = make_unordered_eq_matcher(&expected, Requirements::Subset);
    assert!(matcher.matches(&actual));
}
