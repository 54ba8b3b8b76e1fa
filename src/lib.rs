//! Matchers for JSON values, built around a verified engine that pairs
//! array elements with expected predicates regardless of order.
pub mod matching;
pub mod text;
pub mod match_matrix;
pub mod explain;
pub mod unordered;
pub mod predicates;
pub mod laws;
pub mod path;
pub mod kinds;
pub mod composite;
pub mod numbers;
pub mod shapes;
