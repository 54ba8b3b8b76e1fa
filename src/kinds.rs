//! Predicates on the kind of a JSON value alone.
use crate::match_matrix::JsonMatcher;
use crate::text::text_of;
use vstd::prelude::*;

verus! {

/// The kind of a JSON value.
#[derive(Clone, Copy, Debug, PartialEq, Eq, Structural)]
pub enum JsonKind {
    Null,
    Bool,
    Number,
    String,
    Array,
    Object,
}

/// Which kinds a kind predicate accepts.
#[derive(Clone, Copy, Debug, PartialEq, Eq, Structural)]
pub enum KindCheck {
    NotNull,
    Null,
    String,
    Number,
    Boolean,
    Array,
    Object,
}

/// Whether `check` accepts a value of kind `k`.
pub open spec fn kind_accepted(check: KindCheck, k: JsonKind) -> bool {
    match check {
        KindCheck::NotNull => k != JsonKind::Null,
        KindCheck::Null => k == JsonKind::Null,
        KindCheck::String => k == JsonKind::String,
        KindCheck::Number => k == JsonKind::Number,
        KindCheck::Boolean => k == JsonKind::Bool,
        KindCheck::Array => k == JsonKind::Array,
        KindCheck::Object => k == JsonKind::Object,
    }
}

/// Accepts the values whose kind `kind_check` accepts.
pub struct JsonAnyValueMatcher {
    pub kind_check: KindCheck,
    pub description: &'static str,
}

impl JsonAnyValueMatcher {
    pub fn new(kind_check: KindCheck, description: &'static str) -> (r: Self)
        ensures
            r.kind_check == kind_check,
            r.description == description,
    {
        JsonAnyValueMatcher { kind_check, description }
    }
}

impl JsonMatcher<JsonKind> for JsonAnyValueMatcher {
    open spec fn accepts(&self, v: JsonKind) -> bool {
        kind_accepted(self.kind_check, v)
    }

    open spec fn description(&self) -> Seq<char> {
        self.description@
    }

    fn matches(&self, v: &JsonKind) -> (r: bool) {
        match self.kind_check {
            KindCheck::NotNull => *v != JsonKind::Null,
            KindCheck::Null => *v == JsonKind::Null,
            KindCheck::String => *v == JsonKind::String,
            KindCheck::Number => *v == JsonKind::Number,
            KindCheck::Boolean => *v == JsonKind::Bool,
            KindCheck::Array => *v == JsonKind::Array,
            KindCheck::Object => *v == JsonKind::Object,
        }
    }

    fn describe(&self) -> (r: String) {
        text_of(self.description)
    }
}

/// Any value but null.
pub fn any_value() -> (r: JsonAnyValueMatcher)
    ensures
        r.kind_check == KindCheck::NotNull,
        r.description@ == "any JSON value"@,
{
    JsonAnyValueMatcher::new(KindCheck::NotNull, "any JSON value")
}

/// Any value but null.
pub fn any_non_null_value() -> (r: JsonAnyValueMatcher)
    ensures
        r.kind_check == KindCheck::NotNull,
        r.description@ == "any non-null JSON value"@,
{
    JsonAnyValueMatcher::new(KindCheck::NotNull, "any non-null JSON value")
}

/// Null only.
pub fn is_null() -> (r: JsonAnyValueMatcher)
    ensures
        r.kind_check == KindCheck::Null,
        r.description@ == "any Null JSON value"@,
{
    JsonAnyValueMatcher::new(KindCheck::Null, "any Null JSON value")
}

/// Any string.
pub fn any_string() -> (r: JsonAnyValueMatcher)
    ensures
        r.kind_check == KindCheck::String,
        r.description@ == "any String JSON value"@,
{
    JsonAnyValueMatcher::new(KindCheck::String, "any String JSON value")
}

/// Any number.
pub fn any_number() -> (r: JsonAnyValueMatcher)
    ensures
        r.kind_check == KindCheck::Number,
        r.description@ == "any Number JSON value"@,
{
    JsonAnyValueMatcher::new(KindCheck::Number, "any Number JSON value")
}

/// Any boolean.
pub fn any_boolean() -> (r: JsonAnyValueMatcher)
    ensures
        r.kind_check == KindCheck::Boolean,
        r.description@ == "any Boolean JSON value"@,
{
    JsonAnyValueMatcher::new(KindCheck::Boolean, "any Boolean JSON value")
}

/// Any array.
pub fn any_array() -> (r: JsonAnyValueMatcher)
    ensures
        r.kind_check == KindCheck::Array,
        r.description@ == "any Array JSON value"@,
{
    JsonAnyValueMatcher::new(KindCheck::Array, "any Array JSON value")
}

/// Any object.
pub fn any_object() -> (r: JsonAnyValueMatcher)
    ensures
        r.kind_check == KindCheck::Object,
        r.description@ == "any Object JSON value"@,
{
    JsonAnyValueMatcher::new(KindCheck::Object, "any Object JSON value")
}

/// Names the kind of a value, as an explanation does.
pub fn describe_json_type(k: JsonKind) -> (r: &'static str)
    ensures
        r@ == match k {
            JsonKind::Null => "which is a JSON null"@,
            JsonKind::String => "which is a JSON string"@,
            JsonKind::Number => "which is a JSON number"@,
            JsonKind::Bool => "which is a JSON boolean"@,
            JsonKind::Array => "which is a JSON array"@,
            JsonKind::Object => "which is a JSON object"@,
        },
{
    match k {
        JsonKind::Null => "which is a JSON null",
        JsonKind::String => "which is a JSON string",
        JsonKind::Number => "which is a JSON number",
        JsonKind::Bool => "which is a JSON boolean",
        JsonKind::Array => "which is a JSON array",
        JsonKind::Object => "which is a JSON object",
    }
}

} // verus!
