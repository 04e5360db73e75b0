//! Rows of the draft tables, the random draft order, and the VALUES list
//! of the bulk roster insert.
use vstd::prelude::*;

use rand::seq::SliceRandom;

use crate::text::{dec_nat, push_str, push_u64};

verus! {

/// A draft session.
#[derive(Debug)]
pub struct DraftSessionRow {
    pub id: String,
    pub league_id: String,
    pub status: String,
    pub current_round: i32,
    pub current_pick_index: i32,
    pub total_rounds: i32,
    pub snake_draft: bool,
    pub started_at: Option<String>,
    pub completed_at: Option<String>,
    pub sleeper_status: Option<String>,
    pub sleeper_pick_index: i32,
}

/// A player of a draft's pool.
#[derive(Debug)]
pub struct PlayerPoolRow {
    pub id: String,
    pub draft_session_id: String,
    pub nhl_id: i64,
    pub name: String,
    pub position: String,
    pub nhl_team: String,
    pub headshot_url: String,
}

/// A pick made in a draft.
#[derive(Debug)]
pub struct DraftPickRow {
    pub id: String,
    pub draft_session_id: String,
    pub league_member_id: String,
    pub player_pool_id: Option<String>,
    pub nhl_id: i64,
    pub player_name: String,
    pub nhl_team: String,
    pub position: String,
    pub round: i32,
    pub pick_number: i32,
    pub picked_at: String,
}

/// A pool player to insert.
#[derive(Debug)]
pub struct PlayerPoolInsert {
    pub draft_session_id: String,
    pub nhl_id: i64,
    pub name: String,
    pub position: String,
    pub nhl_team: String,
    pub headshot_url: String,
}

/// A pick to insert.
#[derive(Debug)]
pub struct DraftPickInsert {
    pub draft_session_id: String,
    pub league_member_id: String,
    pub player_pool_id: String,
    pub nhl_id: i64,
    pub player_name: String,
    pub nhl_team: String,
    pub position: String,
    pub round: i32,
    pub pick_number: i32,
}

/// A drafted player to insert into a fantasy roster.
#[derive(Debug)]
pub struct FantasyPlayerInsert {
    pub team_id: i64,
    pub nhl_id: i64,
    pub name: String,
    pub position: String,
    pub nhl_team: String,
}

/// `rand::seq::SliceRandom::shuffle` with the thread-local generator
/// (`rand::thread_rng`). The order that comes out rests on chance; what
/// holds of every outcome is that the shuffle only swaps elements, so the
/// vector keeps exactly its elements.
#[verifier::external_body]
fn shuffle_indices(v: &mut Vec<usize>)
    ensures
        final(v)@.to_multiset() == old(v)@.to_multiset(),
{
    v.shuffle(&mut rand::thread_rng());
}

/// A random draft order for `member_count` members: the slots
/// `0..member_count`, each exactly once, in an order drawn at random.
/// Member `k` (in the order the league lists them) drafts in slot `r[k]`.
pub fn shuffled_draft_order(member_count: usize) -> (r: Vec<usize>)
    ensures
        r@.len() == member_count,
        r@.no_duplicates(),
        forall|k: int| 0 <= k < r@.len() ==> #[trigger] r@[k] < member_count,
        forall|slot: usize| slot < member_count ==> r@.contains(slot),
{
    broadcast use vstd::seq_lib::group_to_multiset_ensures;

    let mut order: Vec<usize> = Vec::new();
    let mut i: usize = 0;
    while i < member_count
        invariant
            i <= member_count,
            order@.len() == i,
            forall|k: int| 0 <= k < i ==> #[trigger] order@[k] == k,
        decreases member_count - i,
    {
        order.push(i);
        i = i + 1;
    }
    let ghost before = order@;
    assert(before.no_duplicates());
    proof {
        before.lemma_multiset_has_no_duplicates();
    }
    shuffle_indices(&mut order);
    proof {
        order@.lemma_multiset_has_no_duplicates_conv();
    }
    assert(order@.len() == before.len()) by {
        assert(order@.to_multiset().len() == before.to_multiset().len());
    }
    assert forall|k: int| 0 <= k < order@.len() implies #[trigger] order@[k] < member_count by {
        assert(order@.contains(order@[k]));
        assert(before.to_multiset().count(order@[k]) > 0);
        assert(before.contains(order@[k]));
    }
    assert forall|slot: usize| slot < member_count implies order@.contains(slot) by {
        assert(before[slot as int] == slot);
        assert(before.contains(slot));
        assert(order@.to_multiset().count(slot) > 0);
    }
    order
}

/// The placeholder tuple of the player at position `k` of a bulk insert:
/// five consecutive parameters starting at `5k + 1`.
pub open spec fn value_tuple(k: nat) -> Seq<char> {
    let p = 5 * k + 1;
    "($"@ + dec_nat(p) + ", $"@ + dec_nat(p + 1) + ", $"@ + dec_nat(p + 2) + ", $"@ + dec_nat(p + 3)
        + ", $"@ + dec_nat(p + 4) + ")"@
}

/// The VALUES list of `count` players, tuples separated by `", "`.
pub open spec fn values_list(count: nat) -> Seq<char>
    decreases count,
{
    if count == 0 {
        Seq::empty()
    } else if count == 1 {
        value_tuple(0)
    } else {
        values_list((count - 1) as nat) + ", "@ + value_tuple((count - 1) as nat)
    }
}

/// The VALUES list of the bulk insert of `count` drafted players into
/// the rosters: `($1, $2, $3, $4, $5), ($6, …)`, one tuple of five
/// parameters (team, NHL id, name, position, NHL team) per player.
pub fn bulk_values_placeholders(count: usize) -> (r: String)
    requires
        5 * count + 1 <= u32::MAX,
    ensures
        r@ == values_list(count as nat),
{
    let mut s = String::new();
    let mut k: usize = 0;
    let mut p: u64 = 1;
    while k < count
        invariant
            k <= count,
            5 * count + 1 <= u32::MAX,
            p == 5 * k + 1,
            s@ == values_list(k as nat),
        decreases count - k,
    {
        if k > 0 {
            push_str(&mut s, ", ");
        }
        let ghost before = s@;
        push_str(&mut s, "($");
        push_u64(&mut s, p);
        push_str(&mut s, ", $");
        push_u64(&mut s, p + 1);
        push_str(&mut s, ", $");
        push_u64(&mut s, p + 2);
        push_str(&mut s, ", $");
        push_u64(&mut s, p + 3);
        push_str(&mut s, ", $");
        push_u64(&mut s, p + 4);
        push_str(&mut s, ")");
        proof {
            assert(s@ =~= before + value_tuple(k as nat));
            if k > 0 {
                assert(values_list((k + 1) as nat) == values_list(k as nat) + ", "@ + value_tuple(
                    k as nat,
                ));
            } else {
                assert(before =~= Seq::<char>::empty());
            }
        }
        k = k + 1;
        p = p + 5;
    }
    s
}

} // verus!
