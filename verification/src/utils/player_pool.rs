//! Draft pool helpers.
use vstd::prelude::*;

use crate::nhl_api::nhl_constants::players::player_image;
use crate::text::dec_int;

verus! {

/// The headshot URL stored with a pool player.
pub fn headshot_url(player_id: i64) -> (r: String)
    ensures
        r@ == "https://assets.nhle.com/mugs/nhl/latest/"@ + dec_int(player_id as int) + ".png"@,
{
    player_image(player_id)
}

} // verus!
