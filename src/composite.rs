//! Matchers built from other matchers: on every element, element by element,
//! on the length, on a value that may be null, and on a value of one type.
use crate::match_matrix::JsonMatcher;
use crate::predicates::EqualTo;
use std::marker::PhantomData;
use vstd::prelude::*;

verus! {

/// Matches an array whose every element `inner` accepts.
pub struct JsonEachMatcher<M> {
    pub inner: M,
}

impl<M> JsonEachMatcher<M> {
    pub fn new(inner: M) -> (r: Self)
        ensures
            r.inner == inner,
    {
        JsonEachMatcher { inner }
    }

    pub fn matches<V>(&self, actual: &Vec<V>) -> (r: bool) where M: JsonMatcher<V>
        ensures
            r == forall|i: int| 0 <= i < actual@.len() ==> self.inner.accepts(#[trigger] actual@[i]),
    {
        let mut i: usize = 0;
        while i < actual.len()
            invariant
                0 <= i <= actual@.len(),
                forall|k: int| 0 <= k < i ==> self.inner.accepts(#[trigger] actual@[k]),
            decreases actual@.len() - i,
        {
            if !self.inner.matches(&actual[i]) {
                return false;
            }
            i += 1;
        }
        true
    }

    /// The position of the first element that `inner` rejects, if any.
    pub fn first_mismatch<V>(&self, actual: &Vec<V>) -> (r: Option<usize>) where M: JsonMatcher<V>
        ensures
            match r {
                Some(i) => i < actual@.len() && !self.inner.accepts(actual@[i as int]) && forall|k: int|
                    0 <= k < i ==> self.inner.accepts(#[trigger] actual@[k]),
                None => forall|k: int| 0 <= k < actual@.len() ==> self.inner.accepts(#[trigger] actual@[k]),
            },
    {
        let mut i: usize = 0;
        while i < actual.len()
            invariant
                0 <= i <= actual@.len(),
                forall|k: int| 0 <= k < i ==> self.inner.accepts(#[trigger] actual@[k]),
            decreases actual@.len() - i,
        {
            if !self.inner.matches(&actual[i]) {
                return Some(i);
            }
            i += 1;
        }
        None
    }
}

/// Matches an array whose elements the `elements` accept, in order.
pub struct JsonElementsAre<M> {
    pub elements: Vec<M>,
}

impl<M> JsonElementsAre<M> {
    pub fn new(elements: Vec<M>) -> (r: Self)
        ensures
            r.elements == elements,
    {
        JsonElementsAre { elements }
    }

    pub fn matches<V>(&self, actual: &Vec<V>) -> (r: bool) where M: JsonMatcher<V>
        ensures
            r == (actual@.len() == self.elements@.len() && forall|i: int|
                0 <= i < actual@.len() ==> self.elements@[i].accepts(#[trigger] actual@[i])),
    {
        if actual.len() != self.elements.len() {
            return false;
        }
        let mut i: usize = 0;
        while i < actual.len()
            invariant
                actual@.len() == self.elements@.len(),
                0 <= i <= actual@.len(),
                forall|k: int| 0 <= k < i ==> self.elements@[k].accepts(#[trigger] actual@[k]),
            decreases actual@.len() - i,
        {
            if !self.elements[i].matches(&actual[i]) {
                return false;
            }
            i += 1;
        }
        true
    }
}

/// Matches an array whose length `inner` accepts.
pub struct JsonLenMatcher<M> {
    pub inner: M,
}

impl<M> JsonLenMatcher<M> {
    pub fn new(inner: M) -> (r: Self)
        ensures
            r.inner == inner,
    {
        JsonLenMatcher { inner }
    }

    pub fn matches<V>(&self, actual: &Vec<V>) -> (r: bool) where M: JsonMatcher<usize>
        ensures
            r == self.inner.accepts(actual@.len() as usize),
    {
        let len = actual.len();
        self.inner.matches(&len)
    }
}

/// Matches null (`None`), or a value that `inner` accepts.
pub struct JsonOptionalMatcher<M> {
    pub inner: M,
}

impl<M> JsonOptionalMatcher<M> {
    pub fn new(inner: M) -> (r: Self)
        ensures
            r.inner == inner,
    {
        JsonOptionalMatcher { inner }
    }

    /// A field under this matcher may be missing.
    pub fn allows_missing(&self) -> (r: bool)
        ensures
            r,
    {
        true
    }

    pub fn matches<V>(&self, actual: &Option<V>) -> (r: bool) where M: JsonMatcher<V>
        ensures
            r == match actual {
                None => true,
                Some(v) => self.inner.accepts(*v),
            },
    {
        match actual {
            None => true,
            Some(v) => self.inner.matches(v),
        }
    }
}

/// Whether a value of type `T`, if the JSON value holds one, is accepted by
/// `inner`; a value of another type is not.
pub open spec fn typed_accepts<T, M: JsonMatcher<T>>(inner: M, actual: Option<T>) -> bool {
    match actual {
        None => false,
        Some(t) => inner.accepts(t),
    }
}

fn typed_matches<T, M: JsonMatcher<T>>(inner: &M, actual: &Option<T>) -> (r: bool)
    ensures
        r == typed_accepts(*inner, *actual),
{
    match actual {
        None => false,
        Some(t) => inner.matches(t),
    }
}

/// Applies a matcher of `T` to a JSON value that holds a `T`.
pub struct JsonValueMatcher<M, T> {
    pub inner: M,
    pub phantom: PhantomData<T>,
}

impl<M, T> JsonValueMatcher<M, T> {
    pub fn new(inner: M) -> (r: Self)
        ensures
            r.inner == inner,
    {
        JsonValueMatcher { inner, phantom: PhantomData }
    }
}

impl<M: JsonMatcher<T>, T> JsonMatcher<Option<T>> for JsonValueMatcher<M, T> {
    open spec fn accepts(&self, v: Option<T>) -> bool {
        typed_accepts(self.inner, v)
    }

    open spec fn description(&self) -> Seq<char> {
        self.inner.description()
    }

    fn matches(&self, v: &Option<T>) -> (r: bool) {
        typed_matches(&self.inner, v)
    }

    fn describe(&self) -> (r: String) {
        self.inner.describe()
    }
}

/// Applies a matcher of `T` to a JSON value that holds a `T`.
pub struct JsonPrimitiveMatcher<M, T> {
    pub inner: M,
    pub phantom: PhantomData<T>,
}

impl<M, T> JsonPrimitiveMatcher<M, T> {
    pub fn new(inner: M) -> (r: Self)
        ensures
            r.inner == inner,
    {
        JsonPrimitiveMatcher { inner, phantom: PhantomData }
    }
}

impl<M: JsonMatcher<T>, T> JsonMatcher<Option<T>> for JsonPrimitiveMatcher<M, T> {
    open spec fn accepts(&self, v: Option<T>) -> bool {
        typed_accepts(self.inner, v)
    }

    open spec fn description(&self) -> Seq<char> {
        self.inner.description()
    }

    fn matches(&self, v: &Option<T>) -> (r: bool) {
        typed_matches(&self.inner, v)
    }

    fn describe(&self) -> (r: String) {
        self.inner.describe()
    }
}

/// Applies a matcher of `T` to a JSON scalar that holds a `T`.
pub struct JsonScalarMatcher<M, T> {
    pub inner: M,
    pub phantom: PhantomData<T>,
}

impl<M, T> JsonScalarMatcher<M, T> {
    pub fn new(inner: M) -> (r: Self)
        ensures
            r.inner == inner,
    {
        JsonScalarMatcher { inner, phantom: PhantomData }
    }

    pub fn matches(&self, actual: &Option<T>) -> (r: bool) where M: JsonMatcher<T>
        ensures
            r == typed_accepts(self.inner, *actual),
    {
        typed_matches(&self.inner, actual)
    }
}

/// A scalar matcher around `matcher`.
pub fn json_scalar<M, T>(matcher: M) -> (r: JsonScalarMatcher<M, T>)
    ensures
        r.inner == matcher,
{
    JsonScalarMatcher::new(matcher)
}

/// Applies a matcher of `T` to a JSON value read as a `T`.
pub struct JsonAsMatcher<M, T> {
    pub inner: M,
    pub phantom: PhantomData<T>,
}

impl<M, T> JsonAsMatcher<M, T> {
    pub fn new(inner: M) -> (r: Self)
        ensures
            r.inner == inner,
    {
        JsonAsMatcher { inner, phantom: PhantomData }
    }

    pub fn matches(&self, actual: &Option<T>) -> (r: bool) where M: JsonMatcher<T>
        ensures
            r == typed_accepts(self.inner, *actual),
    {
        typed_matches(&self.inner, actual)
    }
}

/// Something that can say what a predicate expects.
pub trait PredicateDescription {
    /// The text it gives.
    spec fn text(&self) -> Seq<char>;

    fn to_description(self) -> (r: String)
        ensures
            r@ == self.text(),
    ;
}

/// Stands for a missing description.
#[derive(Clone, Copy, Debug)]
pub struct NoDescription;

impl PredicateDescription for NoDescription {
    open spec fn text(&self) -> Seq<char> {
        seq![]
    }

    fn to_description(self) -> (r: String) {
        String::new()
    }
}

impl PredicateDescription for String {
    open spec fn text(&self) -> Seq<char> {
        self@
    }

    fn to_description(self) -> (r: String) {
        self
    }
}

/// Marks conversions of plain literals into equality matchers.
pub struct Literal;

/// Turns a value into the matcher it stands for.
pub trait IntoJsonMatcher<T>: Sized {
    type Matcher;

    spec fn converted(self) -> Self::Matcher;

    fn into_json_matcher(self) -> (r: Self::Matcher)
        ensures
            r == self.converted(),
    ;
}

impl IntoJsonMatcher<Literal> for i64 {
    type Matcher = EqualTo;

    open spec fn converted(self) -> EqualTo {
        EqualTo { expected: self }
    }

    fn into_json_matcher(self) -> (r: EqualTo) {
        EqualTo { expected: self }
    }
}

} // verus!
