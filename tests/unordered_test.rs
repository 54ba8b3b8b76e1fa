use googletest_json_serde::match_matrix::{JsonMatcher, Requirements};
use googletest_json_serde::predicates::{AtLeast, EqualTo};
use googletest_json_serde::unordered::JsonUnorderedElementsAreMatcher;
use std::cell::Cell;

struct Counting<'a> {
    calls: &'a Cell<usize>,
    expected: i64,
}

impl JsonMatcher<i64> for Counting<'_> {
    fn matches(&self, v: &i64) -> bool {
        self.calls.set(self.calls.get() + 1);
        *v == self.expected
    }

    fn describe(&self) -> String {
        format!("is {}", self.expected)
    }
}

fn eq_all(values: &[i64]) -> Vec<EqualTo> {
    values.iter().map(|&e| EqualTo { expected: e }).collect()
}

fn at_least_all(values: &[i64]) -> Vec<AtLeast> {
    values.iter().map(|&b| AtLeast { bound: b }).collect()
}

fn shown(values: &[i64]) -> Vec<String> {
    values.iter().map(|v| format!("Number({v})")).collect()
}

fn eq_matcher(expected: &[i64], req: Requirements) -> JsonUnorderedElementsAreMatcher<EqualTo> {
    JsonUnorderedElementsAreMatcher::new(eq_all(expected), req)
}

fn explain_eq(expected: &[i64], actual: &[i64], req: Requirements) -> String {
    eq_matcher(expected, req).explain_match(&actual.to_vec(), &shown(actual))
}

#[test]
fn perfect_match_with_different_sizes_asks_no_predicate() {
    let calls = Cell::new(0);
    let elements: Vec<Counting> = [1, 2, 3]
        .iter()
        .map(|&e| Counting { calls: &calls, expected: e })
        .collect();
    let matcher = JsonUnorderedElementsAreMatcher::new(elements, Requirements::PerfectMatch);
    assert!(!matcher.matches(&vec![1, 2]));
    assert!(!matcher.matches(&vec![1, 2, 3, 4]));
    assert_eq!(calls.get(), 0);
    assert_eq!(matcher.explain_match(&vec![1, 2], &shown(&[1, 2])), "which has size 2 (expected 3)");
    assert_eq!(calls.get(), 0);
}

#[test]
fn equal_sizes_ask_every_pair_once() {
    let calls = Cell::new(0);
    let elements: Vec<Counting> = [1, 2, 3]
        .iter()
        .map(|&e| Counting { calls: &calls, expected: e })
        .collect();
    let matcher = JsonUnorderedElementsAreMatcher::new(elements, Requirements::PerfectMatch);
    assert!(matcher.matches(&vec![3, 1, 2]));
    assert_eq!(calls.get(), 9);
}

#[test]
fn perfect_match_outcome_ignores_order_of_actual() {
    let expected = [1, 1, 2, 5];
    let matcher = eq_matcher(&expected, Requirements::PerfectMatch);
    assert!(matcher.matches(&vec![1, 2, 5, 1]));
    assert!(matcher.matches(&vec![5, 1, 1, 2]));
    assert!(!matcher.matches(&vec![1, 2, 2, 5]));
    assert!(!matcher.matches(&vec![2, 5, 1, 2]));
}

#[test]
fn superset_stays_true_when_elements_are_added() {
    let matcher = eq_matcher(&[4, 6], Requirements::Superset);
    assert!(matcher.matches(&vec![6, 4]));
    assert!(matcher.matches(&vec![6, 4, 7]));
    assert!(matcher.matches(&vec![6, 4, 7, 4, 6]));
}

#[test]
fn subset_stays_true_when_predicates_are_added() {
    let actual = vec![4, 6];
    assert!(eq_matcher(&[6, 4], Requirements::Subset).matches(&actual));
    assert!(eq_matcher(&[6, 4, 9], Requirements::Subset).matches(&actual));
    assert!(eq_matcher(&[6, 4, 9, 4], Requirements::Subset).matches(&actual));
}

#[test]
fn explain_gives_the_same_text_twice() {
    let first = explain_eq(&[1, 2, 2], &[1, 1, 2], Requirements::PerfectMatch);
    let second = explain_eq(&[1, 2, 2], &[1, 1, 2], Requirements::PerfectMatch);
    assert_eq!(first, second);
}

#[test]
fn perfect_match_with_one_stray_on_each_side() {
    let matcher = eq_matcher(&[10, 20, 30, 77], Requirements::PerfectMatch);
    let actual = vec![10, 20, 30, 99];
    assert!(!matcher.matches(&actual));
    let text = matcher.explain_match(&actual, &shown(&actual));
    assert!(text.contains("does not match any expected elements"));
    assert!(text.contains("no elements match the expected element"));
    assert_eq!(
        text,
        "whose element #3 does not match any expected elements and no elements match the expected element #3"
    );
}

#[test]
fn superset_with_lower_bounds() {
    // The bound 4 accepts none of 1, 2, 3, so three bounds cannot all be met.
    let matcher = JsonUnorderedElementsAreMatcher::new(at_least_all(&[2, 3, 4]), Requirements::Superset);
    let actual = vec![1, 2, 3];
    assert!(!matcher.matches(&actual));
    assert_eq!(
        matcher.explain_match(&actual, &shown(&actual)),
        "which has no element matching the expected element #2"
    );
    let wider = vec![1, 2, 3, 4];
    assert!(matcher.matches(&wider));
}

#[test]
fn subset_with_lower_bounds() {
    let matcher = JsonUnorderedElementsAreMatcher::new(at_least_all(&[2, 3, 4]), Requirements::Subset);
    assert!(matcher.matches(&vec![2, 3]));
}

#[test]
fn superset_too_small_reports_size_without_asking() {
    let calls = Cell::new(0);
    let elements: Vec<Counting> = [1, 2, 3]
        .iter()
        .map(|&e| Counting { calls: &calls, expected: e })
        .collect();
    let matcher = JsonUnorderedElementsAreMatcher::new(elements, Requirements::Superset);
    assert!(!matcher.matches(&vec![1, 2]));
    assert_eq!(
        matcher.explain_match(&vec![1, 2], &shown(&[1, 2])),
        "which has size 2 (expected at least 3)"
    );
    assert_eq!(calls.get(), 0);
}

#[test]
fn subset_too_large_reports_size() {
    assert_eq!(
        explain_eq(&[1, 2], &[1, 2, 3], Requirements::Subset),
        "which has size 3 (expected at most 2)"
    );
}

#[test]
fn best_match_report_lists_pairs_then_leftovers() {
    assert_eq!(
        explain_eq(&[1, 2, 2], &[1, 1, 2], Requirements::PerfectMatch),
        "which does not have a perfect match with the expected elements. The best match found was:\n  \
Actual element Number(1) at index 0 matched expected element `is equal to 1` at index 0.\n  \
Actual element Number(2) at index 2 matched expected element `is equal to 2` at index 1.\n  \
Actual element Number(1) at index 1 did not match any remaining expected element.\n  \
Expected element `is equal to 2` at index 2 did not match any remaining actual element."
    );
}

#[test]
fn best_match_report_names_superset_and_subset() {
    let text = explain_eq(&[1, 2], &[1, 1, 3], Requirements::Superset);
    assert_eq!(text, "which has no element matching the expected element #1");
    let matcher = JsonUnorderedElementsAreMatcher::new(at_least_all(&[5, 5, 0]), Requirements::Subset);
    let actual = vec![7, 8];
    assert!(matcher.matches(&actual));
    let matcher = JsonUnorderedElementsAreMatcher::new(at_least_all(&[5, 9, 9]), Requirements::Subset);
    let actual = vec![7, 8];
    assert!(!matcher.matches(&actual));
    assert_eq!(
        matcher.explain_match(&actual, &shown(&actual)),
        "which does not have a subset match with the expected elements. The best match found was:\n  \
Actual element Number(7) at index 0 matched expected element `is greater than or equal to 5` at index 0.\n  \
Actual element Number(8) at index 1 did not match any remaining expected element.\n  \
Expected element `is greater than or equal to 9` at index 1 did not match any remaining actual element.\n  \
Expected element `is greater than or equal to 9` at index 2 did not match any remaining actual element."
    );
}

#[test]
fn superset_conflict_reports_best_match() {
    let matcher = JsonUnorderedElementsAreMatcher::new(at_least_all(&[7, 7]), Requirements::Superset);
    let actual = vec![8, 1, 0];
    assert!(!matcher.matches(&actual));
    assert_eq!(
        matcher.explain_match(&actual, &shown(&actual)),
        "which does not have a superset match with the expected elements. The best match found was:\n  \
Actual element Number(8) at index 0 matched expected element `is greater than or equal to 7` at index 0.\n  \
Actual element Number(1) at index 1 did not match any remaining expected element.\n  \
Actual element Number(0) at index 2 did not match any remaining expected element.\n  \
Expected element `is greater than or equal to 7` at index 1 did not match any remaining actual element."
    );
}

#[test]
fn full_pairing_reads_all_match() {
    assert_eq!(
        explain_eq(&[3, 1, 2], &[1, 2, 3], Requirements::PerfectMatch),
        "whose elements all match"
    );
    assert_eq!(explain_eq(&[], &[], Requirements::PerfectMatch), "whose elements all match");
    assert!(eq_matcher(&[], Requirements::PerfectMatch).matches(&vec![]));
    assert!(eq_matcher(&[], Requirements::Superset).matches(&vec![1]));
    assert!(eq_matcher(&[1], Requirements::Subset).matches(&vec![]));
}

#[test]
fn augmenting_path_reassigns_earlier_pairs() {
    // Element 0 fits both bounds; only re-pairing it lets element 1 in.
    let matcher = JsonUnorderedElementsAreMatcher::new(at_least_all(&[1, 5]), Requirements::PerfectMatch);
    assert!(matcher.matches(&vec![5, 1]));
    let matcher = JsonUnorderedElementsAreMatcher::new(at_least_all(&[5, 1]), Requirements::PerfectMatch);
    assert!(matcher.matches(&vec![1, 5]));
}

#[test]
fn unmatchable_lists_use_plural_forms() {
    assert_eq!(
        explain_eq(&[1, 2, 3], &[1, 1, 3], Requirements::PerfectMatch),
        "which has no element matching the expected element #1"
    );
    assert_eq!(
        explain_eq(&[7, 7, 7], &[7, 8, 9], Requirements::PerfectMatch),
        "whose elements #1, #2 do not match any expected elements"
    );
    assert_eq!(
        explain_eq(&[5, 6], &[1, 2], Requirements::PerfectMatch),
        "whose elements #0, #1 do not match any expected elements and no elements match the expected elements #0, #1"
    );
    assert_eq!(
        explain_eq(&[1, 2, 3], &[4], Requirements::Subset),
        "whose element #0 does not match any expected elements"
    );
}

#[test]
fn predicates_describe_themselves() {
    assert_eq!(EqualTo { expected: -5 }.describe(), "is equal to -5");
    assert_eq!(EqualTo { expected: 120 }.describe(), "is equal to 120");
    assert_eq!(AtLeast { bound: 0 }.describe(), "is greater than or equal to 0");
    assert!(AtLeast { bound: 3 }.matches(&3));
    assert!(!AtLeast { bound: 3 }.matches(&2));
}

#[test]
fn size_message_numbers_are_decimal() {
    assert_eq!(
        Requirements::PerfectMatch.explain_size_mismatch(10, 105),
        Some("which has size 10 (expected 105)".to_string())
    );
    assert_eq!(Requirements::Superset.explain_size_mismatch(5, 5), None);
    assert_eq!(Requirements::Subset.explain_size_mismatch(0, 0), None);
}
