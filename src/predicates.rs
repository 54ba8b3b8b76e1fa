//! Two plain predicates on integers.
use crate::match_matrix::JsonMatcher;
use crate::text::{i64_text, signed_decimal, text_of};
use vstd::prelude::*;

verus! {

/// Accepts exactly the value `expected`.
#[derive(Clone, Copy, Debug, PartialEq, Eq, Structural)]
pub struct EqualTo {
    pub expected: i64,
}

/// Accepts every value not below `bound`.
#[derive(Clone, Copy, Debug, PartialEq, Eq, Structural)]
pub struct AtLeast {
    pub bound: i64,
}

impl JsonMatcher<i64> for EqualTo {
    open spec fn accepts(&self, v: i64) -> bool {
        v == self.expected
    }

    open spec fn description(&self) -> Seq<char> {
        "is equal to "@ + signed_decimal(self.expected as int)
    }

    fn matches(&self, v: &i64) -> (r: bool) {
        *v == self.expected
    }

    fn describe(&self) -> (r: String) {
        let mut s = text_of("is equal to ");
        s.append(i64_text(self.expected).as_str());
        s
    }
}

impl JsonMatcher<i64> for AtLeast {
    open spec fn accepts(&self, v: i64) -> bool {
        v >= self.bound
    }

    open spec fn description(&self) -> Seq<char> {
        "is greater than or equal to "@ + signed_decimal(self.bound as int)
    }

    fn matches(&self, v: &i64) -> (r: bool) {
        *v >= self.bound
    }

    fn describe(&self) -> (r: String) {
        let mut s = text_of("is greater than or equal to ");
        s.append(i64_text(self.bound).as_str());
        s
    }
}

} // verus!
