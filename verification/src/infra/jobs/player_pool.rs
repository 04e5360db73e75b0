//! The draft pool: every player of the leaderboard categories (regular
//! season) or of the playoff rosters, each once.
use vstd::prelude::*;

use crate::infra::db::nhl_mirror::{
    add_new_players, add_new_players_exec, lemma_add_new_players_distinct, LeaderEntry,
};
use crate::nhl_api::nhl_constants::players::player_image;
use crate::text::{concat3, dec_int};

verus! {

/// The headshot URL stored with a pool player.
pub fn headshot_url(player_id: i64) -> (r: String)
    ensures
        r@ == "https://assets.nhle.com/mugs/nhl/latest/"@ + dec_int(player_id as int) + ".png"@,
{
    player_image(player_id)
}

/// The players of the lists, each once at his first entry, taking the
/// lists in order.
pub open spec fn pool_entries(lists: Seq<Vec<LeaderEntry>>) -> Seq<LeaderEntry>
    decreases lists.len(),
{
    if lists.len() == 0 {
        Seq::empty()
    } else {
        add_new_players(pool_entries(lists.drop_last()), lists.last()@)
    }
}

/// A player of the draft pool.
#[derive(Debug)]
pub struct PoolPlayer {
    pub player_id: i64,
    /// First and last name, separated by a space.
    pub name: String,
    pub position: String,
    pub team_abbrev: String,
    pub headshot_url: String,
}

/// The draft pool of some player lists (the leaderboard categories, or
/// the playoff teams' rosters): each player once, from his first entry,
/// in order of first appearance, with his name as first and last name
/// joined by a space and his headshot address.
pub fn pool_players(lists: &Vec<Vec<LeaderEntry>>) -> (r: Vec<PoolPlayer>)
    ensures
        r@.len() == pool_entries(lists@).len(),
        forall|i: int|
            0 <= i < r@.len() ==> {
                let e = pool_entries(lists@)[i];
                &&& (#[trigger] r@[i]).player_id == e.player_id
                &&& r@[i].name@ == e.first_name@ + " "@ + e.last_name@
                &&& r@[i].position == e.position
                &&& r@[i].team_abbrev == e.team
                &&& r@[i].headshot_url@ == "https://assets.nhle.com/mugs/nhl/latest/"@ + dec_int(
                    e.player_id as int,
                ) + ".png"@
            },
{
    let mut entries: Vec<LeaderEntry> = Vec::new();
    let mut k: usize = 0;
    assert(lists@.take(0) =~= Seq::<Vec<LeaderEntry>>::empty());
    while k < lists.len()
        invariant
            k <= lists@.len(),
            entries@ == pool_entries(lists@.take(k as int)),
        decreases lists@.len() - k,
    {
        proof {
            let t = lists@.take(k + 1);
            assert(t.drop_last() =~= lists@.take(k as int));
            assert(t.last() == lists@[k as int]);
        }
        add_new_players_exec(&mut entries, &lists[k]);
        k = k + 1;
    }
    assert(lists@.take(lists@.len() as int) =~= lists@);
    let ghost all = entries@;
    let mut out: Vec<PoolPlayer> = Vec::new();
    let mut i: usize = 0;
    while i < entries.len()
        invariant
            all == entries@,
            all == pool_entries(lists@),
            i <= all.len(),
            out@.len() == i,
            forall|j: int|
                0 <= j < i ==> {
                    let e = all[j];
                    &&& (#[trigger] out@[j]).player_id == e.player_id
                    &&& out@[j].name@ == e.first_name@ + " "@ + e.last_name@
                    &&& out@[j].position == e.position
                    &&& out@[j].team_abbrev == e.team
                    &&& out@[j].headshot_url@ == "https://assets.nhle.com/mugs/nhl/latest/"@
                        + dec_int(e.player_id as int) + ".png"@
                },
        decreases all.len() - i,
    {
        let e = &entries[i];
        let p = PoolPlayer {
            player_id: e.player_id,
            name: concat3(e.first_name.as_str(), " ", e.last_name.as_str()),
            position: e.position.clone(),
            team_abbrev: e.team.clone(),
            headshot_url: headshot_url(e.player_id),
        };
        out.push(p);
        i = i + 1;
    }
    out
}

/// The draft pool lists each player once.
pub proof fn lemma_pool_entries_distinct(lists: Seq<Vec<LeaderEntry>>)
    ensures
        forall|i: int, j: int|
            0 <= i < j < pool_entries(lists).len() ==> #[trigger] pool_entries(lists)[i].player_id
                != #[trigger] pool_entries(lists)[j].player_id,
    decreases lists.len(),
{
    if lists.len() > 0 {
        lemma_pool_entries_distinct(lists.drop_last());
        lemma_add_new_players_distinct(pool_entries(lists.drop_last()), lists.last()@);
    }
}

} // verus!
