//! Listing and voting request shapes, as the presentation layer hands them
//! to the engine.

use vstd::prelude::*;

verus! {

/// Query parameters of a listing request: an optional page size and an
/// optional encoded cursor.
pub struct ListPostQuery {
    pub limit: Option<i64>,
    pub cursor: Option<String>,
}

/// The body of a vote request; `value` must be `+1` or `-1`.
pub struct VoteRequest {
    pub value: i16,
}

} // verus!
