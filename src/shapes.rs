//! Predicates on the shape of a JSON value: its kind, and for some kinds
//! whether it is empty, true, or an integer.
use crate::kinds::{describe_json_type, JsonKind};
use vstd::prelude::*;

verus! {

/// What the shape predicates read of a JSON value.
#[derive(Clone, Copy, Debug, PartialEq, Eq, Structural)]
pub struct JsonShape {
    pub kind: JsonKind,
    /// Number of items of an array or entries of an object; else 0.
    pub len: usize,
    /// The value of a boolean; else false.
    pub truth: bool,
    /// Whether a number is held as an integer.
    pub integer: bool,
}

/// Which shapes a shape predicate accepts.
#[derive(Clone, Copy, Debug, PartialEq, Eq, Structural)]
pub enum ShapeCheck {
    Null,
    NotNull,
    String,
    Number,
    Integer,
    Boolean,
    True,
    False,
    Array,
    EmptyArray,
    Object,
    EmptyObject,
}

/// Whether `c` accepts a value of shape `s`.
pub open spec fn shape_accepted(c: ShapeCheck, s: JsonShape) -> bool {
    match c {
        ShapeCheck::Null => s.kind == JsonKind::Null,
        ShapeCheck::NotNull => s.kind != JsonKind::Null,
        ShapeCheck::String => s.kind == JsonKind::String,
        ShapeCheck::Number => s.kind == JsonKind::Number,
        ShapeCheck::Integer => s.kind == JsonKind::Number && s.integer,
        ShapeCheck::Boolean => s.kind == JsonKind::Bool,
        ShapeCheck::True => s.kind == JsonKind::Bool && s.truth,
        ShapeCheck::False => s.kind == JsonKind::Bool && !s.truth,
        ShapeCheck::Array => s.kind == JsonKind::Array,
        ShapeCheck::EmptyArray => s.kind == JsonKind::Array && s.len == 0,
        ShapeCheck::Object => s.kind == JsonKind::Object,
        ShapeCheck::EmptyObject => s.kind == JsonKind::Object && s.len == 0,
    }
}

/// How the value is explained: a closer word for a value of the right kind,
/// else its kind.
pub open spec fn shape_explanation(c: ShapeCheck, s: JsonShape) -> Seq<char> {
    if c == ShapeCheck::Integer && s.kind == JsonKind::Number {
        "which is a non-integer JSON number"@
    } else if c == ShapeCheck::True && s.kind == JsonKind::Bool && !s.truth {
        "which is JSON false"@
    } else if c == ShapeCheck::False && s.kind == JsonKind::Bool && s.truth {
        "which is JSON true"@
    } else if c == ShapeCheck::EmptyArray && s.kind == JsonKind::Array {
        "which is a non-empty JSON array"@
    } else if c == ShapeCheck::EmptyObject && s.kind == JsonKind::Object {
        "which is a non-empty JSON object"@
    } else {
        kind_text(s.kind)
    }
}

/// How a kind is named in an explanation.
pub open spec fn kind_text(k: JsonKind) -> Seq<char> {
    match k {
        JsonKind::Null => "which is a JSON null"@,
        JsonKind::String => "which is a JSON string"@,
        JsonKind::Number => "which is a JSON number"@,
        JsonKind::Bool => "which is a JSON boolean"@,
        JsonKind::Array => "which is a JSON array"@,
        JsonKind::Object => "which is a JSON object"@,
    }
}

/// A shape predicate with what it says when it holds and when it does not.
pub struct ShapeMatcher {
    pub check: ShapeCheck,
    pub positive: &'static str,
    pub negative: &'static str,
}

impl ShapeMatcher {
    pub fn new(check: ShapeCheck, positive: &'static str, negative: &'static str) -> (r: Self)
        ensures
            r.check == check,
            r.positive == positive,
            r.negative == negative,
    {
        ShapeMatcher { check, positive, negative }
    }

    pub fn matches(&self, s: &JsonShape) -> (r: bool)
        ensures
            r == shape_accepted(self.check, *s),
    {
        match self.check {
            ShapeCheck::Null => s.kind == JsonKind::Null,
            ShapeCheck::NotNull => s.kind != JsonKind::Null,
            ShapeCheck::String => s.kind == JsonKind::String,
            ShapeCheck::Number => s.kind == JsonKind::Number,
            ShapeCheck::Integer => s.kind == JsonKind::Number && s.integer,
            ShapeCheck::Boolean => s.kind == JsonKind::Bool,
            ShapeCheck::True => s.kind == JsonKind::Bool && s.truth,
            ShapeCheck::False => s.kind == JsonKind::Bool && !s.truth,
            ShapeCheck::Array => s.kind == JsonKind::Array,
            ShapeCheck::EmptyArray => s.kind == JsonKind::Array && s.len == 0,
            ShapeCheck::Object => s.kind == JsonKind::Object,
            ShapeCheck::EmptyObject => s.kind == JsonKind::Object && s.len == 0,
        }
    }

    /// The description for a match (`true`) or a mismatch (`false`).
    pub fn describe(&self, matched: bool) -> (r: &'static str)
        ensures
            r == if matched {
                self.positive
            } else {
                self.negative
            },
    {
        if matched {
            self.positive
        } else {
            self.negative
        }
    }

    pub fn explain(&self, s: &JsonShape) -> (r: &'static str)
        ensures
            r@ == shape_explanation(self.check, *s),
    {
        if self.check == ShapeCheck::Integer && s.kind == JsonKind::Number {
            "which is a non-integer JSON number"
        } else if self.check == ShapeCheck::True && s.kind == JsonKind::Bool && !s.truth {
            "which is JSON false"
        } else if self.check == ShapeCheck::False && s.kind == JsonKind::Bool && s.truth {
            "which is JSON true"
        } else if self.check == ShapeCheck::EmptyArray && s.kind == JsonKind::Array {
            "which is a non-empty JSON array"
        } else if self.check == ShapeCheck::EmptyObject && s.kind == JsonKind::Object {
            "which is a non-empty JSON object"
        } else {
            describe_json_type(s.kind)
        }
    }
}

/// JSON null.
pub fn is_null() -> (r: ShapeMatcher)
    ensures
        r.check == ShapeCheck::Null,
        r.positive@ == "JSON null"@,
        r.negative@ == "which is not JSON null"@,
{
    ShapeMatcher::new(ShapeCheck::Null, "JSON null", "which is not JSON null")
}

/// Anything but JSON null.
pub fn is_not_null() -> (r: ShapeMatcher)
    ensures
        r.check == ShapeCheck::NotNull,
        r.positive@ == "not JSON null"@,
        r.negative@ == "which is JSON null"@,
{
    ShapeMatcher::new(ShapeCheck::NotNull, "not JSON null", "which is JSON null")
}

/// Any JSON value but null.
pub fn any_value() -> (r: ShapeMatcher)
    ensures
        r.check == ShapeCheck::NotNull,
        r.positive@ == "any JSON value"@,
        r.negative@ == "is not any JSON value"@,
{
    ShapeMatcher::new(ShapeCheck::NotNull, "any JSON value", "is not any JSON value")
}

/// A JSON string.
pub fn is_string() -> (r: ShapeMatcher)
    ensures
        r.check == ShapeCheck::String,
        r.positive@ == "a JSON string"@,
        r.negative@ == "which is not a JSON string"@,
{
    ShapeMatcher::new(ShapeCheck::String, "a JSON string", "which is not a JSON string")
}

/// A JSON number.
pub fn is_number() -> (r: ShapeMatcher)
    ensures
        r.check == ShapeCheck::Number,
        r.positive@ == "a JSON number"@,
        r.negative@ == "which is not a JSON number"@,
{
    ShapeMatcher::new(ShapeCheck::Number, "a JSON number", "which is not a JSON number")
}

/// A JSON number held as an integer.
pub fn is_integer() -> (r: ShapeMatcher)
    ensures
        r.check == ShapeCheck::Integer,
        r.positive@ == "an integer JSON number"@,
        r.negative@ == "which is not an integer JSON number"@,
{
    ShapeMatcher::new(
        ShapeCheck::Integer,
        "an integer JSON number",
        "which is not an integer JSON number",
    )
}

/// A JSON boolean.
pub fn is_boolean() -> (r: ShapeMatcher)
    ensures
        r.check == ShapeCheck::Boolean,
        r.positive@ == "a JSON boolean"@,
        r.negative@ == "which is not a JSON boolean"@,
{
    ShapeMatcher::new(ShapeCheck::Boolean, "a JSON boolean", "which is not a JSON boolean")
}

/// JSON true.
pub fn is_true() -> (r: ShapeMatcher)
    ensures
        r.check == ShapeCheck::True,
        r.positive@ == "JSON true"@,
        r.negative@ == "which is not JSON true"@,
{
    ShapeMatcher::new(ShapeCheck::True, "JSON true", "which is not JSON true")
}

/// JSON false.
pub fn is_false() -> (r: ShapeMatcher)
    ensures
        r.check == ShapeCheck::False,
        r.positive@ == "JSON false"@,
        r.negative@ == "which is not JSON false"@,
{
    ShapeMatcher::new(ShapeCheck::False, "JSON false", "which is not JSON false")
}

/// A JSON array.
pub fn is_array() -> (r: ShapeMatcher)
    ensures
        r.check == ShapeCheck::Array,
        r.positive@ == "a JSON array"@,
        r.negative@ == "which is not a JSON array"@,
{
    ShapeMatcher::new(ShapeCheck::Array, "a JSON array", "which is not a JSON array")
}

/// An empty JSON array.
pub fn is_empty_array() -> (r: ShapeMatcher)
    ensures
        r.check == ShapeCheck::EmptyArray,
        r.positive@ == "an empty JSON array"@,
        r.negative@ == "which is not an empty JSON array"@,
{
    ShapeMatcher::new(
        ShapeCheck::EmptyArray,
        "an empty JSON array",
        "which is not an empty JSON array",
    )
}

/// A JSON object.
pub fn is_object() -> (r: ShapeMatcher)
    ensures
        r.check == ShapeCheck::Object,
        r.positive@ == "a JSON object"@,
        r.negative@ == "which is not a JSON object"@,
{
    ShapeMatcher::new(ShapeCheck::Object, "a JSON object", "which is not a JSON object")
}

/// An empty JSON object.
pub fn is_empty_object() -> (r: ShapeMatcher)
    ensures
        r.check == ShapeCheck::EmptyObject,
        r.positive@ == "an empty JSON object"@,
        r.negative@ == "which is not an empty JSON object"@,
{
    ShapeMatcher::new(
        ShapeCheck::EmptyObject,
        "an empty JSON object",
        "which is not an empty JSON object",
    )
}

} // verus!
