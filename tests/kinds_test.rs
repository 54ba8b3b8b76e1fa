use googletest_json_serde::shapes::{
    is_empty_array, is_empty_object, is_false, is_integer, is_not_null, is_true, JsonShape,
};
use googletest_json_serde::composite::{
    json_scalar, IntoJsonMatcher, JsonAsMatcher, JsonEachMatcher, JsonElementsAre, JsonLenMatcher,
    JsonOptionalMatcher, JsonPrimitiveMatcher, JsonValueMatcher, Literal, NoDescription,
    PredicateDescription,
};
use googletest_json_serde::kinds::{
    any_array, any_boolean, any_non_null_value, any_number, any_object, any_string, any_value,
    describe_json_type, is_null, JsonKind,
};
use googletest_json_serde::match_matrix::{JsonMatcher, Requirements};
use googletest_json_serde::predicates::{AtLeast, EqualTo};
use googletest_json_serde::unordered::JsonUnorderedElementsAreMatcher;

struct LenIs(usize);

impl JsonMatcher<usize> for LenIs {
    fn matches(&self, v: &usize) -> bool {
        *v == self.0
    }

    fn describe(&self) -> String {
        format!("is {}", self.0)
    }
}

#[test]
fn kind_matchers_accept_their_kind() {
    assert!(any_value().matches(&JsonKind::Number));
    assert!(!any_value().matches(&JsonKind::Null));
    assert!(!any_non_null_value().matches(&JsonKind::Null));
    assert!(is_null().matches(&JsonKind::Null));
    assert!(!is_null().matches(&JsonKind::Bool));
    assert!(any_string().matches(&JsonKind::String));
    assert!(!any_string().matches(&JsonKind::Number));
    assert!(any_number().matches(&JsonKind::Number));
    assert!(any_boolean().matches(&JsonKind::Bool));
    assert!(any_array().matches(&JsonKind::Array));
    assert!(!any_array().matches(&JsonKind::Object));
    assert!(any_object().matches(&JsonKind::Object));
    assert_eq!(any_string().describe(), "any String JSON value");
    assert_eq!(any_value().describe(), "any JSON value");
    assert_eq!(describe_json_type(JsonKind::Bool), "which is a JSON boolean");
}

#[test]
fn kind_matchers_pair_in_any_order() {
    let matcher = JsonUnorderedElementsAreMatcher::new(
        vec![any_string(), any_number(), is_null()],
        Requirements::PerfectMatch,
    );
    assert!(matcher.matches(&vec![JsonKind::Null, JsonKind::String, JsonKind::Number]));
    assert!(!matcher.matches(&vec![JsonKind::Null, JsonKind::String, JsonKind::String]));
}

#[test]
fn each_and_elements_are_check_every_element() {
    let each = JsonEachMatcher::new(AtLeast { bound: 2 });
    assert!(each.matches(&vec![2, 5, 9]));
    assert!(!each.matches(&vec![2, 1, 9]));
    assert!(each.matches(&Vec::<i64>::new()));
    let ordered = JsonElementsAre::new(vec![EqualTo { expected: 1 }, EqualTo { expected: 2 }]);
    assert!(ordered.matches(&vec![1, 2]));
    assert!(!ordered.matches(&vec![2, 1]));
    assert!(!ordered.matches(&vec![1, 2, 3]));
}

#[test]
fn len_and_optional_wrap_an_inner_matcher() {
    let len = JsonLenMatcher::new(LenIs(2));
    assert!(len.matches(&vec![7, 8]));
    assert!(!len.matches(&vec![7]));
    let optional = JsonOptionalMatcher::new(EqualTo { expected: 4 });
    assert!(optional.allows_missing());
    assert!(optional.matches(&None));
    assert!(optional.matches(&Some(4)));
    assert!(!optional.matches(&Some(5)));
}

#[test]
fn typed_matchers_need_a_value_of_their_type() {
    let value: JsonValueMatcher<EqualTo, i64> = JsonValueMatcher::new(EqualTo { expected: 3 });
    assert!(value.matches(&Some(3)));
    assert!(!value.matches(&None));
    assert_eq!(value.describe(), "is equal to 3");
    let primitive: JsonPrimitiveMatcher<AtLeast, i64> = JsonPrimitiveMatcher::new(AtLeast { bound: 3 });
    assert!(primitive.matches(&Some(4)));
    assert!(!primitive.matches(&Some(2)));
    let scalar = json_scalar::<EqualTo, i64>(EqualTo { expected: 1 });
    assert!(scalar.matches(&Some(1)));
    assert!(!scalar.matches(&None));
    let as_int: JsonAsMatcher<EqualTo, i64> = JsonAsMatcher::new(EqualTo { expected: 0 });
    assert!(as_int.matches(&Some(0)));
    assert!(!as_int.matches(&Some(1)));
}

#[test]
fn literals_become_equality_matchers() {
    let m = IntoJsonMatcher::<Literal>::into_json_matcher(5i64);
    assert_eq!(m, EqualTo { expected: 5 });
    assert_eq!(NoDescription.to_description(), "");
    assert_eq!("text".to_string().to_description(), "text");
}

#[test]
fn shape_matchers_read_kind_and_detail() {
    let shape = |kind, len, truth, integer| JsonShape { kind, len, truth, integer };
    let empty_array = shape(JsonKind::Array, 0, false, false);
    let full_array = shape(JsonKind::Array, 2, false, false);
    assert!(is_empty_array().matches(&empty_array));
    assert!(!is_empty_array().matches(&full_array));
    assert_eq!(is_empty_array().explain(&full_array), "which is a non-empty JSON array");
    assert_eq!(is_empty_array().explain(&shape(JsonKind::Null, 0, false, false)), "which is a JSON null");
    assert!(is_empty_object().matches(&shape(JsonKind::Object, 0, false, false)));
    assert_eq!(
        is_empty_object().explain(&shape(JsonKind::Object, 1, false, false)),
        "which is a non-empty JSON object"
    );
    let t = shape(JsonKind::Bool, 0, true, false);
    let f = shape(JsonKind::Bool, 0, false, false);
    assert!(is_true().matches(&t));
    assert!(!is_true().matches(&f));
    assert_eq!(is_true().explain(&f), "which is JSON false");
    assert!(is_false().matches(&f));
    assert_eq!(is_false().explain(&t), "which is JSON true");
    assert!(is_integer().matches(&shape(JsonKind::Number, 0, false, true)));
    assert_eq!(
        is_integer().explain(&shape(JsonKind::Number, 0, false, false)),
        "which is a non-integer JSON number"
    );
    assert!(!is_not_null().matches(&shape(JsonKind::Null, 0, false, false)));
    assert_eq!(is_true().describe(true), "JSON true");
    assert_eq!(is_true().describe(false), "which is not JSON true");
}

#[test]
fn each_reports_first_rejected_element() {
    let each = JsonEachMatcher::new(any_string());
    assert_eq!(each.first_mismatch(&vec![JsonKind::String, JsonKind::Number, JsonKind::Null]), Some(1));
    assert_eq!(each.first_mismatch(&vec![JsonKind::String]), None);
    assert_eq!(each.first_mismatch(&Vec::new()), None);
}
