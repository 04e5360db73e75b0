//! Fantasy rosters as the game-day queries read them: the rows of the
//! rostered players of some NHL teams, grouped by fantasy team, and the
//! SQL placeholders of the team list; the teams' daily-points
//! sparklines; their daily first and top-three finishes; and the
//! league's teams with their players or their per-NHL-team counts.
use vstd::prelude::*;

use crate::domain::models::db::{FantasyTeamBets, NhlBetCount, TeamDailyRankingStats, TeamNhlCount};
use crate::sorting::{
    lemma_stable_sorted_contains, lemma_stable_sorted_multiset, lemma_stable_sorted_sorted,
    stable_sort, stable_sorted, strict_order, Precedes,
};
use crate::domain::models::fantasy::{FantasyTeamInGame, PlayerInGame};
use crate::text::{dec_nat, push_char, push_u64, str_eq};

verus! {

/// One rostered player with his fantasy team, as the roster query returns
/// it.
#[derive(Debug)]
pub struct FantasyRosterRow {
    pub fantasy_team_id: i64,
    pub fantasy_team_name: String,
    pub player_id: i64,
    pub nhl_id: i64,
    pub player_name: String,
    pub nhl_team: String,
    pub position: String,
}

/// The fantasy teams of the rows, each once, in order of first appearance.
pub open spec fn roster_team_ids(rows: Seq<FantasyRosterRow>) -> Seq<i64>
    decreases rows.len(),
{
    if rows.len() == 0 {
        Seq::empty()
    } else {
        let p = roster_team_ids(rows.drop_last());
        if p.contains(rows.last().fantasy_team_id) {
            p
        } else {
            p.push(rows.last().fantasy_team_id)
        }
    }
}

/// The rows of fantasy team `id`, in order.
pub open spec fn rows_of_team(rows: Seq<FantasyRosterRow>, id: i64) -> Seq<FantasyRosterRow>
    decreases rows.len(),
{
    if rows.len() == 0 {
        Seq::empty()
    } else {
        let p = rows_of_team(rows.drop_last(), id);
        if rows.last().fantasy_team_id == id {
            p.push(rows.last())
        } else {
            p
        }
    }
}

/// The game-day player a row stands for.
pub open spec fn player_of(r: FantasyRosterRow) -> PlayerInGame {
    PlayerInGame {
        player_id: r.player_id,
        nhl_id: r.nhl_id,
        player_name: r.player_name,
        nhl_team: r.nhl_team,
        position: r.position,
    }
}

fn contains_id(ids: &Vec<i64>, id: i64) -> (r: bool)
    ensures
        r == ids@.contains(id),
{
    let mut i: usize = 0;
    while i < ids.len()
        invariant
            i <= ids@.len(),
            forall|j: int| 0 <= j < i ==> ids@[j] != id,
        decreases ids@.len() - i,
    {
        if ids[i] == id {
            assert(ids@[i as int] == id);
            return true;
        }
        i = i + 1;
    }
    false
}

fn team_ids_exec(rows: &Vec<FantasyRosterRow>) -> (r: Vec<i64>)
    ensures
        r@ == roster_team_ids(rows@),
{
    let mut ids: Vec<i64> = Vec::new();
    let mut k: usize = 0;
    assert(rows@.take(0) =~= Seq::<FantasyRosterRow>::empty());
    while k < rows.len()
        invariant
            k <= rows@.len(),
            ids@ == roster_team_ids(rows@.take(k as int)),
        decreases rows@.len() - k,
    {
        proof {
            let t = rows@.take(k + 1);
            assert(t.drop_last() =~= rows@.take(k as int));
            assert(t.last() == rows@[k as int]);
        }
        let id = rows[k].fantasy_team_id;
        if !contains_id(&ids, id) {
            ids.push(id);
        }
        k = k + 1;
    }
    assert(rows@.take(rows@.len() as int) =~= rows@);
    ids
}

fn players_of_team(rows: &Vec<FantasyRosterRow>, id: i64) -> (r: Vec<PlayerInGame>)
    ensures
        r@ == rows_of_team(rows@, id).map_values(|x: FantasyRosterRow| player_of(x)),
{
    let mut out: Vec<PlayerInGame> = Vec::new();
    let mut k: usize = 0;
    assert(rows@.take(0) =~= Seq::<FantasyRosterRow>::empty());
    while k < rows.len()
        invariant
            k <= rows@.len(),
            out@ =~= rows_of_team(rows@.take(k as int), id).map_values(
                |x: FantasyRosterRow| player_of(x),
            ),
        decreases rows@.len() - k,
    {
        proof {
            let t = rows@.take(k + 1);
            assert(t.drop_last() =~= rows@.take(k as int));
            assert(t.last() == rows@[k as int]);
        }
        let r = &rows[k];
        if r.fantasy_team_id == id {
            let p = PlayerInGame {
                player_id: r.player_id,
                nhl_id: r.nhl_id,
                player_name: r.player_name.clone(),
                nhl_team: r.nhl_team.clone(),
                position: r.position.clone(),
            };
            out.push(p);
        }
        k = k + 1;
    }
    assert(rows@.take(rows@.len() as int) =~= rows@);
    out
}

proof fn lemma_team_has_rows(rows: Seq<FantasyRosterRow>, id: i64)
    requires
        roster_team_ids(rows).contains(id),
    ensures
        rows_of_team(rows, id).len() > 0,
        rows_of_team(rows, id)[0].fantasy_team_id == id,
    decreases rows.len(),
{
    let p = roster_team_ids(rows.drop_last());
    if p.contains(id) {
        lemma_team_has_rows(rows.drop_last(), id);
        assert(rows_of_team(rows, id)[0] == rows_of_team(rows.drop_last(), id)[0]);
    } else {
        assert(rows.last().fantasy_team_id == id);
        if rows_of_team(rows.drop_last(), id).len() > 0 {
            lemma_rows_of_team_ids(rows.drop_last(), id);
        }
    }
}

proof fn lemma_rows_of_team_ids(rows: Seq<FantasyRosterRow>, id: i64)
    requires
        rows_of_team(rows, id).len() > 0,
    ensures
        roster_team_ids(rows).contains(id),
    decreases rows.len(),
{
    if rows.last().fantasy_team_id == id {
        let p = roster_team_ids(rows.drop_last());
        if !p.contains(id) {
            assert(p.push(id)[p.len() as int] == id);
        }
    } else {
        lemma_rows_of_team_ids(rows.drop_last(), id);
        let p = roster_team_ids(rows.drop_last());
        let j = choose|j: int| 0 <= j < p.len() && p[j] == id;
        if !p.contains(rows.last().fantasy_team_id) {
            assert(p.push(rows.last().fantasy_team_id)[j] == id);
        }
    }
}

/// The rostered players grouped by fantasy team: one team per fantasy
/// team of the rows, in order of first appearance, named after its first
/// row, with its players in row order.
pub fn group_by_fantasy_team(rows: &Vec<FantasyRosterRow>) -> (r: Vec<FantasyTeamInGame>)
    ensures
        r@.len() == roster_team_ids(rows@).len(),
        forall|i: int|
            0 <= i < r@.len() ==> {
                let id = roster_team_ids(rows@)[i];
                &&& (#[trigger] r@[i]).team_id == id
                &&& r@[i].team_name == rows_of_team(rows@, id)[0].fantasy_team_name
                &&& r@[i].players@ == rows_of_team(rows@, id).map_values(
                    |x: FantasyRosterRow| player_of(x),
                )
            },
{
    let ids = team_ids_exec(rows);
    let mut out: Vec<FantasyTeamInGame> = Vec::new();
    let mut i: usize = 0;
    while i < ids.len()
        invariant
            ids@ == roster_team_ids(rows@),
            i <= ids@.len(),
            out@.len() == i,
            forall|j: int|
                0 <= j < i ==> {
                    let id = ids@[j];
                    &&& (#[trigger] out@[j]).team_id == id
                    &&& out@[j].team_name == rows_of_team(rows@, id)[0].fantasy_team_name
                    &&& out@[j].players@ == rows_of_team(rows@, id).map_values(
                        |x: FantasyRosterRow| player_of(x),
                    )
                },
        decreases ids@.len() - i,
    {
        let id = ids[i];
        proof {
            assert(roster_team_ids(rows@).contains(id)) by {
                assert(ids@[i as int] == id);
            }
            lemma_team_has_rows(rows@, id);
        }
        let players = players_of_team(rows, id);
        let mut k: usize = 0;
        while k < rows.len() && rows[k].fantasy_team_id != id
            invariant
                k <= rows@.len(),
                forall|q: int| 0 <= q < k ==> rows@[q].fantasy_team_id != id,
            decreases rows@.len() - k,
        {
            k = k + 1;
        }
        proof {
            lemma_first_row_of_team(rows@, id, k as int);
        }
        let name = rows[k].fantasy_team_name.clone();
        out.push(FantasyTeamInGame { team_id: id, team_name: name, players });
        i = i + 1;
    }
    out
}

proof fn lemma_first_row_of_team(rows: Seq<FantasyRosterRow>, id: i64, k: int)
    requires
        0 <= k <= rows.len(),
        forall|q: int| 0 <= q < k ==> rows[q].fantasy_team_id != id,
        k == rows.len() || rows[k].fantasy_team_id == id,
        rows_of_team(rows, id).len() > 0,
    ensures
        k < rows.len(),
        rows_of_team(rows, id)[0] == rows[k],
    decreases rows.len(),
{
    if k == rows.len() {
        lemma_no_rows_of_team(rows, id);
    } else if k == rows.len() - 1 {
        lemma_no_rows_of_team(rows.drop_last(), id);
    } else {
        assert forall|q: int| 0 <= q < k implies rows.drop_last()[q].fantasy_team_id != id by {
            assert(rows.drop_last()[q] == rows[q]);
        }
        assert(rows.drop_last()[k] == rows[k]);
        lemma_first_row_of_team_nonempty(rows.drop_last(), id, k);
        lemma_first_row_of_team(rows.drop_last(), id, k);
    }
}

proof fn lemma_no_rows_of_team(rows: Seq<FantasyRosterRow>, id: i64)
    requires
        forall|q: int| 0 <= q < rows.len() ==> rows[q].fantasy_team_id != id,
    ensures
        rows_of_team(rows, id).len() == 0,
    decreases rows.len(),
{
    if rows.len() > 0 {
        assert forall|q: int| 0 <= q < rows.drop_last().len() implies rows.drop_last()[q].fantasy_team_id
            != id by {
            assert(rows.drop_last()[q] == rows[q]);
        }
        lemma_no_rows_of_team(rows.drop_last(), id);
    }
}

proof fn lemma_first_row_of_team_nonempty(rows: Seq<FantasyRosterRow>, id: i64, k: int)
    requires
        0 <= k < rows.len(),
        rows[k].fantasy_team_id == id,
    ensures
        rows_of_team(rows, id).len() > 0,
    decreases rows.len(),
{
    if k < rows.len() - 1 {
        assert(rows.drop_last()[k] == rows[k]);
        lemma_first_row_of_team_nonempty(rows.drop_last(), id, k);
    }
}

/// The SQL placeholders `$first,$first+1,…` of `count` bound values.
pub open spec fn placeholders(first: nat, count: nat) -> Seq<char>
    decreases count,
{
    if count == 0 {
        Seq::empty()
    } else if count == 1 {
        seq!['$'] + dec_nat(first)
    } else {
        placeholders(first, (count - 1) as nat) + seq![','] + seq!['$'] + dec_nat(
            (first + count - 1) as nat,
        )
    }
}

/// The placeholders of the team list in the roster query: the league is
/// bound as `$1`, the `count` teams as `$2,$3,…`.
pub fn team_placeholders(count: usize) -> (r: String)
    requires
        count < usize::MAX,
    ensures
        r@ == placeholders(2, count as nat),
{
    let mut s = String::new();
    let mut i: usize = 0;
    while i < count
        invariant
            i <= count,
            count < usize::MAX,
            s@ == placeholders(2, i as nat),
        decreases count - i,
    {
        if i > 0 {
            push_char(&mut s, ',');
        }
        push_char(&mut s, '$');
        push_u64(&mut s, (i + 2) as u64);
        proof {
            if i > 0 {
                assert(s@ == placeholders(2, i as nat) + seq![','] + seq!['$'] + dec_nat((i + 2) as nat));
            } else {
                assert(s@ =~= seq!['$'] + dec_nat(2));
            }
        }
        i = i + 1;
    }
    s
}

// ---------------------------------------------------------------------------
// Sparklines
// ---------------------------------------------------------------------------

/// One day of a fantasy team's points: `(team_id, date, points)`.
pub type DayPoints = (i64, String, i32);

/// The teams of the day rows, each once, in order of first appearance.
pub open spec fn spark_team_ids(rows: Seq<DayPoints>) -> Seq<i64>
    decreases rows.len(),
{
    if rows.len() == 0 {
        Seq::empty()
    } else {
        let p = spark_team_ids(rows.drop_last());
        if p.contains(rows.last().0) {
            p
        } else {
            p.push(rows.last().0)
        }
    }
}

/// The points of the first row for `team` on `date`, if any.
pub open spec fn first_points(rows: Seq<DayPoints>, team: i64, date: Seq<char>) -> Option<i32>
    decreases rows.len(),
{
    if rows.len() == 0 {
        None
    } else {
        match first_points(rows.drop_last(), team, date) {
            Some(p) => Some(p),
            None => if rows.last().0 == team && rows.last().1@ == date {
                Some(rows.last().2)
            } else {
                None
            },
        }
    }
}

/// A value or 0.
pub open spec fn or_zero_points(v: Option<i32>) -> i32 {
    match v {
        Some(p) => p,
        None => 0,
    }
}

fn spark_ids_exec(rows: &Vec<DayPoints>) -> (r: Vec<i64>)
    ensures
        r@ == spark_team_ids(rows@),
{
    let mut ids: Vec<i64> = Vec::new();
    let mut k: usize = 0;
    assert(rows@.take(0) =~= Seq::<DayPoints>::empty());
    while k < rows.len()
        invariant
            k <= rows@.len(),
            ids@ == spark_team_ids(rows@.take(k as int)),
        decreases rows@.len() - k,
    {
        proof {
            let t = rows@.take(k + 1);
            assert(t.drop_last() =~= rows@.take(k as int));
            assert(t.last() == rows@[k as int]);
        }
        let id = rows[k].0;
        if !contains_id(&ids, id) {
            ids.push(id);
        }
        k = k + 1;
    }
    assert(rows@.take(rows@.len() as int) =~= rows@);
    ids
}

fn first_points_exec(rows: &Vec<DayPoints>, team: i64, date: &str) -> (r: Option<i32>)
    ensures
        r == first_points(rows@, team, date@),
{
    let mut k: usize = 0;
    assert(rows@.take(0) =~= Seq::<DayPoints>::empty());
    while k < rows.len()
        invariant
            k <= rows@.len(),
            first_points(rows@.take(k as int), team, date@) is None,
        decreases rows@.len() - k,
    {
        proof {
            let t = rows@.take(k + 1);
            assert(t.drop_last() =~= rows@.take(k as int));
            assert(t.last() == rows@[k as int]);
        }
        if rows[k].0 == team && str_eq(rows[k].1.as_str(), date) {
            proof {
                lemma_first_points_prefix(rows@, k + 1, team, date@);
            }
            return Some(rows[k].2);
        }
        k = k + 1;
    }
    assert(rows@.take(rows@.len() as int) =~= rows@);
    None
}

proof fn lemma_first_points_prefix(rows: Seq<DayPoints>, k: int, team: i64, date: Seq<char>)
    requires
        0 <= k <= rows.len(),
        first_points(rows.take(k), team, date) is Some,
    ensures
        first_points(rows, team, date) == first_points(rows.take(k), team, date),
    decreases rows.len() - k,
{
    if k < rows.len() {
        let t = rows.take(k + 1);
        assert(t.drop_last() =~= rows.take(k));
        lemma_first_points_prefix(rows, k + 1, team, date);
    } else {
        assert(rows.take(k) =~= rows);
    }
}

/// Each team's sparkline over the expected dates, oldest first: the
/// points of the team's first row on each date, 0 for a date without a
/// row (so every team gets exactly one bar per expected date). Teams come
/// in order of first appearance in the rows.
pub fn pad_sparklines(rows: &Vec<DayPoints>, expected_dates: &Vec<String>) -> (r: Vec<(i64, Vec<i32>)>)
    ensures
        r@.len() == spark_team_ids(rows@).len(),
        forall|i: int|
            0 <= i < r@.len() ==> {
                let id = spark_team_ids(rows@)[i];
                &&& (#[trigger] r@[i]).0 == id
                &&& r@[i].1@.len() == expected_dates@.len()
                &&& forall|j: int|
                    0 <= j < expected_dates@.len() ==> #[trigger] r@[i].1@[j] == or_zero_points(
                        first_points(rows@, id, expected_dates@[j]@),
                    )
            },
{
    let ids = spark_ids_exec(rows);
    let mut out: Vec<(i64, Vec<i32>)> = Vec::new();
    let mut i: usize = 0;
    while i < ids.len()
        invariant
            ids@ == spark_team_ids(rows@),
            i <= ids@.len(),
            out@.len() == i,
            forall|q: int|
                0 <= q < i ==> {
                    let id = ids@[q];
                    &&& (#[trigger] out@[q]).0 == id
                    &&& out@[q].1@.len() == expected_dates@.len()
                    &&& forall|j: int|
                        0 <= j < expected_dates@.len() ==> #[trigger] out@[q].1@[j]
                            == or_zero_points(first_points(rows@, id, expected_dates@[j]@))
                },
        decreases ids@.len() - i,
    {
        let id = ids[i];
        let mut bars: Vec<i32> = Vec::new();
        let mut j: usize = 0;
        while j < expected_dates.len()
            invariant
                j <= expected_dates@.len(),
                bars@.len() == j,
                forall|q: int|
                    0 <= q < j ==> #[trigger] bars@[q] == or_zero_points(
                        first_points(rows@, id, expected_dates@[q]@),
                    ),
            decreases expected_dates@.len() - j,
        {
            let p = match first_points_exec(rows, id, expected_dates[j].as_str()) {
                Some(p) => p,
                None => 0,
            };
            bars.push(p);
            j = j + 1;
        }
        out.push((id, bars));
        i = i + 1;
    }
    out
}

// ---------------------------------------------------------------------------
// Daily finishes
// ---------------------------------------------------------------------------

/// A team's finish on a day: `(date, team_id, rank)`, the rank being one
/// more than the number of teams with more points that day.
pub type DayRank = (String, i64, i64);

/// The distinct ids, in order of first appearance.
pub open spec fn distinct_ids(ids: Seq<i64>) -> Seq<i64>
    decreases ids.len(),
{
    if ids.len() == 0 {
        Seq::empty()
    } else {
        let p = distinct_ids(ids.drop_last());
        if p.contains(ids.last()) {
            p
        } else {
            p.push(ids.last())
        }
    }
}

/// The dates on which `team` finished with a rank satisfying the filter:
/// first (`wins == true`), or second or third (`wins == false`, any rank
/// up to 3 other than 1), in row order.
pub open spec fn finish_dates(rows: Seq<DayRank>, team: i64, wins: bool) -> Seq<Seq<char>>
    decreases rows.len(),
{
    if rows.len() == 0 {
        Seq::empty()
    } else {
        let p = finish_dates(rows.drop_last(), team, wins);
        let (d, t, rank) = rows.last();
        if t == team && (if wins {
            rank == 1
        } else {
            rank != 1 && rank <= 3
        }) {
            p.push(d@)
        } else {
            p
        }
    }
}

fn distinct_ids_exec(ids: &Vec<i64>) -> (r: Vec<i64>)
    ensures
        r@ == distinct_ids(ids@),
{
    let mut out: Vec<i64> = Vec::new();
    let mut k: usize = 0;
    assert(ids@.take(0) =~= Seq::<i64>::empty());
    while k < ids.len()
        invariant
            k <= ids@.len(),
            out@ == distinct_ids(ids@.take(k as int)),
        decreases ids@.len() - k,
    {
        proof {
            let t = ids@.take(k + 1);
            assert(t.drop_last() =~= ids@.take(k as int));
            assert(t.last() == ids@[k as int]);
        }
        if !contains_id(&out, ids[k]) {
            out.push(ids[k]);
        }
        k = k + 1;
    }
    assert(ids@.take(ids@.len() as int) =~= ids@);
    out
}

proof fn lemma_finish_dates_len(rows: Seq<DayRank>, team: i64, wins: bool)
    ensures
        finish_dates(rows, team, wins).len() <= rows.len(),
    decreases rows.len(),
{
    if rows.len() > 0 {
        lemma_finish_dates_len(rows.drop_last(), team, wins);
    }
}

fn finish_dates_exec(rows: &Vec<DayRank>, team: i64, wins: bool) -> (r: Vec<String>)
    ensures
        r@.map_values(|s: String| s@) == finish_dates(rows@, team, wins),
{
    let mut out: Vec<String> = Vec::new();
    let mut k: usize = 0;
    assert(rows@.take(0) =~= Seq::<DayRank>::empty());
    while k < rows.len()
        invariant
            k <= rows@.len(),
            out@.map_values(|s: String| s@) == finish_dates(rows@.take(k as int), team, wins),
        decreases rows@.len() - k,
    {
        proof {
            let t = rows@.take(k + 1);
            assert(t.drop_last() =~= rows@.take(k as int));
            assert(t.last() == rows@[k as int]);
        }
        let rank = rows[k].2;
        let hit = if wins {
            rank == 1
        } else {
            rank != 1 && rank <= 3
        };
        if rows[k].1 == team && hit {
            let ghost before = out@;
            out.push(rows[k].0.clone());
            assert(out@.map_values(|s: String| s@) =~= before.map_values(|s: String| s@).push(
                rows@[k as int].0@,
            ));
        }
        k = k + 1;
    }
    assert(rows@.take(rows@.len() as int) =~= rows@);
    out
}

/// Each team's first-place and top-three tallies: one entry per distinct
/// team id (in order), its wins being its days ranked first, its
/// top-three finishes its days ranked second or third (any rank up to 3
/// other than 1), with their dates in row order. Rows of other teams are
/// ignored.
pub fn daily_finish_stats(team_ids: &Vec<i64>, ranks: &Vec<DayRank>) -> (r: Vec<TeamDailyRankingStats>)
    requires
        ranks@.len() <= i32::MAX,
    ensures
        r@.len() == distinct_ids(team_ids@).len(),
        forall|i: int|
            0 <= i < r@.len() ==> {
                let id = distinct_ids(team_ids@)[i];
                &&& (#[trigger] r@[i]).team_id == id
                &&& r@[i].win_dates@.map_values(|s: String| s@) == finish_dates(ranks@, id, true)
                &&& r@[i].wins == finish_dates(ranks@, id, true).len()
                &&& r@[i].top_three_dates@.map_values(|s: String| s@) == finish_dates(
                    ranks@,
                    id,
                    false,
                )
                &&& r@[i].top_three == finish_dates(ranks@, id, false).len()
            },
{
    let ids = distinct_ids_exec(team_ids);
    let mut out: Vec<TeamDailyRankingStats> = Vec::new();
    let mut i: usize = 0;
    while i < ids.len()
        invariant
            ids@ == distinct_ids(team_ids@),
            ranks@.len() <= i32::MAX,
            i <= ids@.len(),
            out@.len() == i,
            forall|q: int|
                0 <= q < i ==> {
                    let id = ids@[q];
                    &&& (#[trigger] out@[q]).team_id == id
                    &&& out@[q].win_dates@.map_values(|s: String| s@) == finish_dates(ranks@, id, true)
                    &&& out@[q].wins == finish_dates(ranks@, id, true).len()
                    &&& out@[q].top_three_dates@.map_values(|s: String| s@) == finish_dates(
                        ranks@,
                        id,
                        false,
                    )
                    &&& out@[q].top_three == finish_dates(ranks@, id, false).len()
                },
        decreases ids@.len() - i,
    {
        let id = ids[i];
        let win_dates = finish_dates_exec(ranks, id, true);
        let top_three_dates = finish_dates_exec(ranks, id, false);
        proof {
            lemma_finish_dates_len(ranks@, id, true);
            lemma_finish_dates_len(ranks@, id, false);
            assert(win_dates@.len() == win_dates@.map_values(|s: String| s@).len());
            assert(top_three_dates@.len() == top_three_dates@.map_values(|s: String| s@).len());
        }
        let stats = TeamDailyRankingStats {
            team_id: id,
            wins: win_dates.len() as i32,
            top_three: top_three_dates.len() as i32,
            win_dates,
            top_three_dates,
        };
        out.push(stats);
        i = i + 1;
    }
    out
}

// ---------------------------------------------------------------------------
// League teams, ordered by id
// ---------------------------------------------------------------------------

/// Smaller ids go first.
impl Precedes for i64 {
    open spec fn precedes(&self, other: &Self) -> bool {
        *self < *other
    }

    fn precedes_exec(&self, other: &Self) -> (r: bool) {
        *self < *other
    }
}

/// The distinct ids in increasing order.
pub open spec fn sorted_ids(ids: Seq<i64>) -> Seq<i64> {
    stable_sorted(distinct_ids(ids))
}

proof fn lemma_distinct_ids_contains(ids: Seq<i64>, x: i64)
    ensures
        distinct_ids(ids).contains(x) == ids.contains(x),
    decreases ids.len(),
{
    if ids.len() > 0 {
        let p = distinct_ids(ids.drop_last());
        lemma_distinct_ids_contains(ids.drop_last(), x);
        if ids.drop_last().contains(x) {
            let j = choose|j: int| 0 <= j < ids.drop_last().len() && ids.drop_last()[j] == x;
            assert(ids[j] == x);
        }
        if ids.contains(x) && x != ids.last() {
            let j = choose|j: int| 0 <= j < ids.len() && ids[j] == x;
            assert(ids.drop_last()[j] == x);
        }
        if !p.contains(ids.last()) {
            let q = p.push(ids.last());
            assert(q[p.len() as int] == ids.last());
            if q.contains(x) && x != ids.last() {
                let j = choose|j: int| 0 <= j < q.len() && q[j] == x;
                assert(p[j] == x);
            }
            if p.contains(x) {
                let j = choose|j: int| 0 <= j < p.len() && p[j] == x;
                assert(q[j] == x);
            }
        }
        if x == ids.last() {
            assert(ids[ids.len() - 1] == x);
        }
    }
}

proof fn lemma_distinct_ids_distinct(ids: Seq<i64>)
    ensures
        distinct_ids(ids).no_duplicates(),
    decreases ids.len(),
{
    if ids.len() > 0 {
        let p = distinct_ids(ids.drop_last());
        lemma_distinct_ids_distinct(ids.drop_last());
        if !p.contains(ids.last()) {
            let q = p.push(ids.last());
            assert forall|i: int, j: int| 0 <= i < q.len() && 0 <= j < q.len() && i != j implies q[i]
                != q[j] by {
                if i < p.len() && j < p.len() {
                    assert(q[i] == p[i] && q[j] == p[j]);
                } else if i < p.len() {
                    assert(q[i] == p[i]);
                } else {
                    assert(q[j] == p[j]);
                }
            }
        }
    }
}

/// The league's teams come out in strictly increasing id order, each id
/// of the rows exactly once.
pub proof fn lemma_sorted_ids(ids: Seq<i64>)
    ensures
        forall|i: int, j: int| 0 <= i < j < sorted_ids(ids).len() ==> #[trigger] sorted_ids(ids)[i] < #[trigger] sorted_ids(ids)[j],
        forall|x: i64| #[trigger] sorted_ids(ids).contains(x) == ids.contains(x),
{
    broadcast use vstd::seq_lib::group_to_multiset_ensures;

    let d = distinct_ids(ids);
    let s = sorted_ids(ids);
    assert(strict_order::<i64>());
    lemma_stable_sorted_sorted(d);
    lemma_stable_sorted_multiset(d);
    lemma_distinct_ids_distinct(ids);
    d.lemma_multiset_has_no_duplicates();
    s.lemma_multiset_has_no_duplicates_conv();
    assert forall|i: int, j: int| 0 <= i < j < s.len() implies #[trigger] s[i] < #[trigger] s[j] by {
        assert(!s[j].precedes(&s[i]));
    }
    assert forall|x: i64| #[trigger] s.contains(x) == ids.contains(x) by {
        lemma_stable_sorted_contains(d, x);
        lemma_distinct_ids_contains(ids, x);
    }
}

fn sorted_ids_exec(ids: &Vec<i64>) -> (r: Vec<i64>)
    ensures
        r@ == sorted_ids(ids@),
{
    let d = distinct_ids_exec(ids);
    stable_sort(d)
}

/// One row of the league roster query: a team, and one of its players
/// when it has any (the join is outer, so a team without players comes
/// with no player columns).
#[derive(Debug)]
pub struct TeamPlayerRow {
    pub team_id: i64,
    pub team_name: String,
    pub player_id: Option<i64>,
    pub nhl_id: Option<i64>,
    pub player_name: Option<String>,
    pub nhl_team: Option<String>,
    pub position: Option<String>,
}

/// The ids of the rows' teams.
pub open spec fn row_team_ids(rows: Seq<TeamPlayerRow>) -> Seq<i64> {
    rows.map_values(|r: TeamPlayerRow| r.team_id)
}

/// The players of team `id`: its rows that carry every player column, in
/// row order.
pub open spec fn team_players(rows: Seq<TeamPlayerRow>, id: i64) -> Seq<PlayerInGame>
    decreases rows.len(),
{
    if rows.len() == 0 {
        Seq::empty()
    } else {
        let p = team_players(rows.drop_last(), id);
        let r = rows.last();
        if r.team_id == id && r.player_id is Some && r.nhl_id is Some && r.player_name is Some
            && r.nhl_team is Some && r.position is Some {
            p.push(
                PlayerInGame {
                    player_id: r.player_id->0,
                    nhl_id: r.nhl_id->0,
                    player_name: r.player_name->0,
                    nhl_team: r.nhl_team->0,
                    position: r.position->0,
                },
            )
        } else {
            p
        }
    }
}

/// The name of team `id`: that of its first row.
pub open spec fn team_name_of(rows: Seq<TeamPlayerRow>, id: i64) -> String
    decreases rows.len(),
{
    if rows.len() == 0 {
        arbitrary()
    } else if rows_contain_team(rows.drop_last(), id) {
        team_name_of(rows.drop_last(), id)
    } else {
        rows.last().team_name
    }
}

/// Some row is of team `id`.
pub open spec fn rows_contain_team(rows: Seq<TeamPlayerRow>, id: i64) -> bool {
    exists|i: int| 0 <= i < rows.len() && #[trigger] rows[i].team_id == id
}

fn team_ids_of_rows(rows: &Vec<TeamPlayerRow>) -> (r: Vec<i64>)
    ensures
        r@ == row_team_ids(rows@),
{
    let mut out: Vec<i64> = Vec::new();
    let mut k: usize = 0;
    while k < rows.len()
        invariant
            k <= rows@.len(),
            out@ =~= rows@.take(k as int).map_values(|r: TeamPlayerRow| r.team_id),
        decreases rows@.len() - k,
    {
        out.push(rows[k].team_id);
        k = k + 1;
    }
    assert(rows@.take(rows@.len() as int) =~= rows@);
    out
}

fn team_players_exec(rows: &Vec<TeamPlayerRow>, id: i64) -> (r: Vec<PlayerInGame>)
    ensures
        r@ == team_players(rows@, id),
{
    let mut out: Vec<PlayerInGame> = Vec::new();
    let mut k: usize = 0;
    assert(rows@.take(0) =~= Seq::<TeamPlayerRow>::empty());
    while k < rows.len()
        invariant
            k <= rows@.len(),
            out@ == team_players(rows@.take(k as int), id),
        decreases rows@.len() - k,
    {
        proof {
            let t = rows@.take(k + 1);
            assert(t.drop_last() =~= rows@.take(k as int));
            assert(t.last() == rows@[k as int]);
        }
        let r = &rows[k];
        if r.team_id == id {
            match (&r.player_id, &r.nhl_id, &r.player_name, &r.nhl_team, &r.position) {
                (Some(player_id), Some(nhl_id), Some(player_name), Some(nhl_team), Some(position)) => {
                    out.push(
                        PlayerInGame {
                            player_id: *player_id,
                            nhl_id: *nhl_id,
                            player_name: player_name.clone(),
                            nhl_team: nhl_team.clone(),
                            position: position.clone(),
                        },
                    );
                },
                _ => {},
            }
        }
        k = k + 1;
    }
    assert(rows@.take(rows@.len() as int) =~= rows@);
    out
}

fn team_name_exec(rows: &Vec<TeamPlayerRow>, id: i64) -> (r: String)
    requires
        rows_contain_team(rows@, id),
    ensures
        r == team_name_of(rows@, id),
{
    let mut k: usize = 0;
    while k < rows.len() && rows[k].team_id != id
        invariant
            k <= rows@.len(),
            forall|q: int| 0 <= q < k ==> rows@[q].team_id != id,
        decreases rows@.len() - k,
    {
        k = k + 1;
    }
    proof {
        lemma_team_name_first(rows@, id, k as int);
    }
    rows[k].team_name.clone()
}

proof fn lemma_team_name_first(rows: Seq<TeamPlayerRow>, id: i64, k: int)
    requires
        0 <= k <= rows.len(),
        forall|q: int| 0 <= q < k ==> rows[q].team_id != id,
        k == rows.len() || rows[k].team_id == id,
        rows_contain_team(rows, id),
    ensures
        k < rows.len(),
        team_name_of(rows, id) == rows[k].team_name,
    decreases rows.len(),
{
    if k == rows.len() {
        let j = choose|j: int| 0 <= j < rows.len() && rows[j].team_id == id;
        assert(rows[j].team_id != id);
    } else if k == rows.len() - 1 {
        assert(!rows_contain_team(rows.drop_last(), id)) by {
            if rows_contain_team(rows.drop_last(), id) {
                let j = choose|j: int| 0 <= j < rows.drop_last().len() && rows.drop_last()[j].team_id == id;
                assert(rows[j].team_id != id);
            }
        }
    } else {
        let p = rows.drop_last();
        assert(p[k] == rows[k]);
        assert(rows_contain_team(p, id));
        assert forall|q: int| 0 <= q < k implies p[q].team_id != id by {
            assert(p[q] == rows[q]);
        }
        lemma_team_name_first(p, id, k);
    }
}

/// The league's teams with their players, by increasing team id: each
/// team of the rows once, named after its first row, with the players of
/// its rows that carry every player column, in row order.
pub fn teams_with_players(rows: &Vec<TeamPlayerRow>) -> (r: Vec<FantasyTeamInGame>)
    ensures
        r@.len() == sorted_ids(row_team_ids(rows@)).len(),
        forall|i: int|
            0 <= i < r@.len() ==> {
                let id = sorted_ids(row_team_ids(rows@))[i];
                &&& (#[trigger] r@[i]).team_id == id
                &&& r@[i].team_name == team_name_of(rows@, id)
                &&& r@[i].players@ == team_players(rows@, id)
            },
{
    let all = team_ids_of_rows(rows);
    let ids = sorted_ids_exec(&all);
    let mut out: Vec<FantasyTeamInGame> = Vec::new();
    let mut i: usize = 0;
    while i < ids.len()
        invariant
            ids@ == sorted_ids(row_team_ids(rows@)),
            i <= ids@.len(),
            out@.len() == i,
            forall|q: int|
                0 <= q < i ==> {
                    let id = ids@[q];
                    &&& (#[trigger] out@[q]).team_id == id
                    &&& out@[q].team_name == team_name_of(rows@, id)
                    &&& out@[q].players@ == team_players(rows@, id)
                },
        decreases ids@.len() - i,
    {
        let id = ids[i];
        proof {
            lemma_sorted_ids(row_team_ids(rows@));
            assert(ids@.contains(id)) by {
                assert(ids@[i as int] == id);
            }
            let j = choose|j: int| 0 <= j < row_team_ids(rows@).len() && row_team_ids(rows@)[j] == id;
            assert(rows@[j].team_id == id);
        }
        let name = team_name_exec(rows, id);
        let players = team_players_exec(rows, id);
        out.push(FantasyTeamInGame { team_id: id, team_name: name, players });
        i = i + 1;
    }
    out
}


// ---------------------------------------------------------------------------
// Per-NHL-team counts of a league's teams
// ---------------------------------------------------------------------------

/// The ids of the count rows' teams.
pub open spec fn count_team_ids(rows: Seq<TeamNhlCount>) -> Seq<i64> {
    rows.map_values(|r: TeamNhlCount| r.team_id)
}

/// The names that rows of team `id` carry, each once, in order of first
/// appearance.
pub open spec fn count_names(rows: Seq<TeamNhlCount>, id: i64) -> Seq<Seq<char>>
    decreases rows.len(),
{
    if rows.len() == 0 {
        Seq::empty()
    } else {
        let p = count_names(rows.drop_last(), id);
        let r = rows.last();
        if r.team_id == id && !p.contains(r.team_name@) {
            p.push(r.team_name@)
        } else {
            p
        }
    }
}

/// The counts of the rows of team `id` named `name`, in row order.
pub open spec fn bets_of(rows: Seq<TeamNhlCount>, id: i64, name: Seq<char>) -> Seq<NhlBetCount>
    decreases rows.len(),
{
    if rows.len() == 0 {
        Seq::empty()
    } else {
        let p = bets_of(rows.drop_last(), id, name);
        let r = rows.last();
        if r.team_id == id && r.team_name@ == name {
            p.push(NhlBetCount { nhl_team: r.nhl_team, num_players: r.num_players })
        } else {
            p
        }
    }
}

/// The (team, name) groups of the rows, team after team in the order of
/// `ids`, the names of one team in order of first appearance.
pub open spec fn bet_groups(rows: Seq<TeamNhlCount>, ids: Seq<i64>) -> Seq<(i64, Seq<char>)>
    decreases ids.len(),
{
    if ids.len() == 0 {
        Seq::empty()
    } else {
        let id = ids.last();
        bet_groups(rows, ids.drop_last()) + count_names(rows, id).map_values(
            |n: Seq<char>| (id, n),
        )
    }
}

fn count_team_ids_exec(rows: &Vec<TeamNhlCount>) -> (r: Vec<i64>)
    ensures
        r@ == count_team_ids(rows@),
{
    let mut out: Vec<i64> = Vec::new();
    let mut k: usize = 0;
    while k < rows.len()
        invariant
            k <= rows@.len(),
            out@ =~= rows@.take(k as int).map_values(|r: TeamNhlCount| r.team_id),
        decreases rows@.len() - k,
    {
        out.push(rows[k].team_id);
        k = k + 1;
    }
    assert(rows@.take(rows@.len() as int) =~= rows@);
    out
}

fn contains_text(v: &Vec<String>, t: &str) -> (r: bool)
    ensures
        r == views_of(v@).contains(t@),
{
    let mut i: usize = 0;
    while i < v.len()
        invariant
            i <= v@.len(),
            forall|j: int| 0 <= j < i ==> (#[trigger] v@[j])@ != t@,
        decreases v@.len() - i,
    {
        if str_eq(v[i].as_str(), t) {
            assert(views_of(v@)[i as int] == t@);
            return true;
        }
        i = i + 1;
    }
    assert forall|j: int| 0 <= j < views_of(v@).len() implies #[trigger] views_of(v@)[j] != t@ by {
        assert(views_of(v@)[j] == v@[j]@);
    }
    false
}

/// The views of a list of strings.
pub open spec fn views_of(v: Seq<String>) -> Seq<Seq<char>> {
    v.map_values(|s: String| s@)
}

fn count_names_exec(rows: &Vec<TeamNhlCount>, id: i64) -> (r: Vec<String>)
    ensures
        views_of(r@) == count_names(rows@, id),
{
    let mut out: Vec<String> = Vec::new();
    let mut k: usize = 0;
    assert(rows@.take(0) =~= Seq::<TeamNhlCount>::empty());
    assert(views_of(out@) =~= Seq::<Seq<char>>::empty());
    while k < rows.len()
        invariant
            k <= rows@.len(),
            views_of(out@) == count_names(rows@.take(k as int), id),
        decreases rows@.len() - k,
    {
        proof {
            let t = rows@.take(k + 1);
            assert(t.drop_last() =~= rows@.take(k as int));
            assert(t.last() == rows@[k as int]);
        }
        let r = &rows[k];
        if r.team_id == id && !contains_text(&out, r.team_name.as_str()) {
            let ghost before = out@;
            out.push(r.team_name.clone());
            assert(views_of(out@) =~= views_of(before).push(r.team_name@));
        }
        k = k + 1;
    }
    assert(rows@.take(rows@.len() as int) =~= rows@);
    out
}

fn bets_exec(rows: &Vec<TeamNhlCount>, id: i64, name: &str) -> (r: Vec<NhlBetCount>)
    ensures
        r@ == bets_of(rows@, id, name@),
{
    let mut out: Vec<NhlBetCount> = Vec::new();
    let mut k: usize = 0;
    assert(rows@.take(0) =~= Seq::<TeamNhlCount>::empty());
    while k < rows.len()
        invariant
            k <= rows@.len(),
            out@ == bets_of(rows@.take(k as int), id, name@),
        decreases rows@.len() - k,
    {
        proof {
            let t = rows@.take(k + 1);
            assert(t.drop_last() =~= rows@.take(k as int));
            assert(t.last() == rows@[k as int]);
        }
        let r = &rows[k];
        if r.team_id == id && str_eq(r.team_name.as_str(), name) {
            out.push(NhlBetCount { nhl_team: r.nhl_team.clone(), num_players: r.num_players });
        }
        k = k + 1;
    }
    assert(rows@.take(rows@.len() as int) =~= rows@);
    out
}

/// Each fantasy team's counts of rostered players per NHL team, from the
/// count rows: one entry per (team id, team name) of the rows, by
/// increasing team id (one team's names in order of first appearance),
/// holding the counts of its rows in row order.
pub fn group_bets(rows: &Vec<TeamNhlCount>) -> (r: Vec<FantasyTeamBets>)
    ensures
        r@.len() == bet_groups(rows@, sorted_ids(count_team_ids(rows@))).len(),
        forall|i: int|
            0 <= i < r@.len() ==> {
                let g = bet_groups(rows@, sorted_ids(count_team_ids(rows@)))[i];
                &&& (#[trigger] r@[i]).team_id == g.0
                &&& r@[i].team_name@ == g.1
                &&& r@[i].bets@ == bets_of(rows@, g.0, g.1)
            },
{
    let all = count_team_ids_exec(rows);
    let ids = sorted_ids_exec(&all);
    let ghost sids = ids@;
    let mut out: Vec<FantasyTeamBets> = Vec::new();
    let mut i: usize = 0;
    while i < ids.len()
        invariant
            sids == ids@,
            ids@ == sorted_ids(count_team_ids(rows@)),
            i <= ids@.len(),
            out@.len() == bet_groups(rows@, ids@.take(i as int)).len(),
            forall|q: int|
                0 <= q < out@.len() ==> {
                    let g = bet_groups(rows@, ids@.take(i as int))[q];
                    &&& (#[trigger] out@[q]).team_id == g.0
                    &&& out@[q].team_name@ == g.1
                    &&& out@[q].bets@ == bets_of(rows@, g.0, g.1)
                },
        decreases ids@.len() - i,
    {
        let id = ids[i];
        let names = count_names_exec(rows, id);
        let ghost start = out@;
        let ghost prev = bet_groups(rows@, ids@.take(i as int));
        let ghost added = count_names(rows@, id).map_values(|n: Seq<char>| (id, n));
        proof {
            let t = ids@.take(i + 1);
            assert(t.drop_last() =~= ids@.take(i as int));
            assert(t.last() == id);
            assert(bet_groups(rows@, t) == prev + added);
        }
        let mut j: usize = 0;
        while j < names.len()
            invariant
                views_of(names@) == count_names(rows@, id),
                added == count_names(rows@, id).map_values(|n: Seq<char>| (id, n)),
                start.len() == prev.len(),
                j <= names@.len(),
                out@.len() == start.len() + j,
                forall|q: int| 0 <= q < start.len() ==> #[trigger] out@[q] == start[q],
                forall|q: int|
                    0 <= q < prev.len() ==> {
                        let g = prev[q];
                        &&& (#[trigger] start[q]).team_id == g.0
                        &&& start[q].team_name@ == g.1
                        &&& start[q].bets@ == bets_of(rows@, g.0, g.1)
                    },
                forall|q: int|
                    0 <= q < j ==> {
                        let g = added[q];
                        &&& (#[trigger] out@[start.len() + q]).team_id == g.0
                        &&& out@[start.len() + q].team_name@ == g.1
                        &&& out@[start.len() + q].bets@ == bets_of(rows@, g.0, g.1)
                    },
            decreases names@.len() - j,
        {
            assert(views_of(names@)[j as int] == names@[j as int]@);
            let bets = bets_exec(rows, id, names[j].as_str());
            out.push(FantasyTeamBets { team_id: id, team_name: names[j].clone(), bets });
            j = j + 1;
        }
        proof {
            let t = ids@.take(i + 1);
            let g = prev + added;
            assert(bet_groups(rows@, t) == g);
            assert forall|q: int| 0 <= q < out@.len() implies {
                let h = g[q];
                &&& (#[trigger] out@[q]).team_id == h.0
                &&& out@[q].team_name@ == h.1
                &&& out@[q].bets@ == bets_of(rows@, h.0, h.1)
            } by {
                if q < start.len() {
                    assert(out@[q] == start[q]);
                    assert(g[q] == prev[q]);
                } else {
                    let q2 = q - start.len();
                    assert(g[q] == added[q2]);
                    assert(out@[start.len() + q2] == out@[q]);
                }
            }
        }
        i = i + 1;
    }
    assert(ids@.take(ids@.len() as int) =~= ids@);
    out
}

proof fn lemma_bet_groups_bounded(rows: Seq<TeamNhlCount>, ids: Seq<i64>, m: i64)
    requires
        forall|k: int| 0 <= k < ids.len() ==> #[trigger] ids[k] <= m,
    ensures
        forall|q: int| 0 <= q < bet_groups(rows, ids).len() ==> (#[trigger] bet_groups(rows, ids)[q]).0 <= m,
    decreases ids.len(),
{
    if ids.len() > 0 {
        let p = ids.drop_last();
        assert forall|k: int| 0 <= k < p.len() implies #[trigger] p[k] <= m by {
            assert(p[k] == ids[k]);
        }
        lemma_bet_groups_bounded(rows, p, m);
        let id = ids.last();
        let g = bet_groups(rows, ids);
        let a = bet_groups(rows, p);
        assert forall|q: int| 0 <= q < g.len() implies (#[trigger] g[q]).0 <= m by {
            if q < a.len() {
                assert(g[q] == a[q]);
            }
        }
    }
}

proof fn lemma_bet_groups_sorted(rows: Seq<TeamNhlCount>, ids: Seq<i64>)
    requires
        forall|i: int, j: int| 0 <= i < j < ids.len() ==> #[trigger] ids[i] < #[trigger] ids[j],
    ensures
        forall|i: int, j: int|
            0 <= i < j < bet_groups(rows, ids).len() ==> (#[trigger] bet_groups(rows, ids)[i]).0
                <= (#[trigger] bet_groups(rows, ids)[j]).0,
    decreases ids.len(),
{
    if ids.len() > 0 {
        let p = ids.drop_last();
        let id = ids.last();
        assert forall|i: int, j: int| 0 <= i < j < p.len() implies #[trigger] p[i] < #[trigger] p[j] by {
            assert(p[i] == ids[i] && p[j] == ids[j]);
        }
        lemma_bet_groups_sorted(rows, p);
        assert forall|k: int| 0 <= k < p.len() implies #[trigger] p[k] <= id by {
            assert(p[k] == ids[k]);
            assert(ids[k] < ids[ids.len() - 1]);
        }
        lemma_bet_groups_bounded(rows, p, id);
        let a = bet_groups(rows, p);
        let g = bet_groups(rows, ids);
        assert forall|i: int, j: int| 0 <= i < j < g.len() implies (#[trigger] g[i]).0 <= (
        #[trigger] g[j]).0 by {
            if j < a.len() {
                assert(g[i] == a[i] && g[j] == a[j]);
            } else if i < a.len() {
                assert(g[i] == a[i]);
                assert(g[j].0 == id);
            } else {
                assert(g[i].0 == id && g[j].0 == id);
            }
        }
    }
}

/// The grouped counts come by team id: no entry's team id is above that
/// of an entry after it.
pub proof fn lemma_group_bets_by_team(rows: Seq<TeamNhlCount>)
    ensures
        forall|i: int, j: int|
            0 <= i < j < bet_groups(rows, sorted_ids(count_team_ids(rows))).len() ==> (
            #[trigger] bet_groups(rows, sorted_ids(count_team_ids(rows)))[i]).0 <= (
            #[trigger] bet_groups(rows, sorted_ids(count_team_ids(rows)))[j]).0,
{
    lemma_sorted_ids(count_team_ids(rows));
    lemma_bet_groups_sorted(rows, sorted_ids(count_team_ids(rows)));
}

} // verus!
