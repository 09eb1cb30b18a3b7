//! Search over a read-only corpus of novels: request validation, paging,
//! snippet extraction, a substring fallback search and the assembly of
//! indexed hits into one uniform paged result.
pub mod indexed;
pub mod model;
pub mod query;
pub mod search;
pub mod store;
pub mod text;
