//! NHL Edge analytics endpoints.
use vstd::prelude::*;

use super::NHL_API_BASE_URL;
use crate::text::{dec_int, push_i64, push_str};

verus! {

/// Edge detail of a skater (skating speed, shot speed, …).
pub fn skater_detail(player_id: i64) -> (r: String)
    ensures
        r@ == NHL_API_BASE_URL@ + "/v1/edge/skater-detail/"@ + dec_int(player_id as int) + "/now"@,
{
    let mut s = String::from_str(NHL_API_BASE_URL);
    push_str(&mut s, "/v1/edge/skater-detail/");
    push_i64(&mut s, player_id);
    push_str(&mut s, "/now");
    s
}

} // verus!
