//! The query-string format: percent-escaped text, flat lists and named
//! values.

pub mod serializer;
pub mod value;
