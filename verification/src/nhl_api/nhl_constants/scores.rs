//! Score endpoints.
use vstd::prelude::*;

use super::NHL_API_BASE_URL;
use crate::text::push_str;

verus! {

/// The scores of one date.
pub fn scores_by_date(date: &str) -> (r: String)
    ensures
        r@ == NHL_API_BASE_URL@ + "/v1/score/"@ + date@,
{
    let mut s = String::from_str(NHL_API_BASE_URL);
    push_str(&mut s, "/v1/score/");
    push_str(&mut s, date);
    s
}

} // verus!
