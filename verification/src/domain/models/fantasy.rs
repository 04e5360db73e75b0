//! Fantasy-side shapes: per-player and per-team daily performances and
//! the rankings built from them.
use vstd::prelude::*;

use crate::sorting::{
    lemma_stable_sorted_contains, lemma_stable_sorted_multiset,
    lemma_stable_sorted_sorted, stable_sort, stable_sorted, strict_order, Precedes,
};

verus! {

/// Per-player counting-stat accumulator.
#[derive(Debug, Default)]
pub struct PlayerStats {
    pub goals: i32,
    pub assists: i32,
    pub total_points: i32,
}

/// Per-team row of the overall rankings table.
#[derive(Debug, Default)]
pub struct TeamRanking {
    pub rank: usize,
    pub team_id: i64,
    pub team_name: String,
    pub goals: i32,
    pub assists: i32,
    pub total_points: i32,
}

impl Clone for TeamRanking {
    fn clone(&self) -> (r: Self)
        ensures
            r == *self,
    {
        TeamRanking {
            rank: self.rank,
            team_id: self.team_id,
            team_name: self.team_name.clone(),
            goals: self.goals,
            assists: self.assists,
            total_points: self.total_points,
        }
    }
}

/// Higher season points go first.
impl Precedes for TeamRanking {
    open spec fn precedes(&self, other: &Self) -> bool {
        self.total_points > other.total_points
    }

    fn precedes_exec(&self, other: &Self) -> (r: bool) {
        self.total_points > other.total_points
    }
}

/// One rostered player's output in one day's games.
#[derive(Debug)]
pub struct PlayerGamePerformance {
    pub player_id: i64,
    pub nhl_id: i64,
    pub player_name: String,
    pub nhl_team: String,
    pub goals: i32,
    pub assists: i32,
    pub points: i32,
}

impl Clone for PlayerGamePerformance {
    fn clone(&self) -> (r: Self)
        ensures
            r == *self,
    {
        PlayerGamePerformance {
            player_id: self.player_id,
            nhl_id: self.nhl_id,
            player_name: self.player_name.clone(),
            nhl_team: self.nhl_team.clone(),
            goals: self.goals,
            assists: self.assists,
            points: self.points,
        }
    }
}

/// Higher points go first.
impl Precedes for PlayerGamePerformance {
    open spec fn precedes(&self, other: &Self) -> bool {
        self.points > other.points
    }

    fn precedes_exec(&self, other: &Self) -> (r: bool) {
        self.points > other.points
    }
}

/// One fantasy team's day: the scoring players and the team totals.
#[derive(Debug)]
pub struct TeamDailyPerformance {
    pub team_id: i64,
    pub team_name: String,
    pub player_performances: Vec<PlayerGamePerformance>,
    pub total_points: i32,
    pub total_goals: i32,
    pub total_assists: i32,
}

/// Higher team points go first.
impl Precedes for TeamDailyPerformance {
    open spec fn precedes(&self, other: &Self) -> bool {
        self.total_points > other.total_points
    }

    fn precedes_exec(&self, other: &Self) -> (r: bool) {
        self.total_points > other.total_points
    }
}

/// Daily fantasy team ranking.
#[derive(Debug)]
pub struct DailyRanking {
    pub rank: usize,
    pub team_id: i64,
    pub team_name: String,
    pub daily_points: i32,
    pub daily_goals: i32,
    pub daily_assists: i32,
    pub player_highlights: Vec<PlayerHighlight>,
}

/// Player highlight of a daily ranking.
#[derive(Debug)]
pub struct PlayerHighlight {
    pub player_name: String,
    pub points: i32,
    pub nhl_team: String,
    pub nhl_id: i64,
}

/// Fantasy team with its players appearing in one game.
#[derive(Debug)]
pub struct FantasyTeamInGame {
    pub team_id: i64,
    pub team_name: String,
    pub players: Vec<PlayerInGame>,
}

/// A rostered player tracked in a game.
#[derive(Debug)]
pub struct PlayerInGame {
    pub player_id: i64,
    pub nhl_id: i64,
    pub player_name: String,
    pub nhl_team: String,
    pub position: String,
}

impl Clone for PlayerInGame {
    fn clone(&self) -> (r: Self)
        ensures
            r == *self,
    {
        PlayerInGame {
            player_id: self.player_id,
            nhl_id: self.nhl_id,
            player_name: self.player_name.clone(),
            nhl_team: self.nhl_team.clone(),
            position: self.position.clone(),
        }
    }
}

/// The highlight that shows one player's performance.
pub open spec fn highlight_of(p: PlayerGamePerformance) -> PlayerHighlight {
    PlayerHighlight {
        player_name: p.player_name,
        points: p.points,
        nhl_team: p.nhl_team,
        nhl_id: p.nhl_id,
    }
}

/// The (at most) three best scorers of a team, best first, ties in input
/// order.
pub open spec fn top_highlights(players: Seq<PlayerGamePerformance>) -> Seq<PlayerHighlight> {
    let s = stable_sorted(players);
    let k = if s.len() < 3 {
        s.len()
    } else {
        3
    };
    s.take(k as int).map_values(|p: PlayerGamePerformance| highlight_of(p))
}

/// `ranking` is the daily ranking row of `perf` at 0-based position `i`.
pub open spec fn is_daily_row(ranking: DailyRanking, perf: TeamDailyPerformance, i: int) -> bool {
    &&& ranking.rank == i + 1
    &&& ranking.team_id == perf.team_id
    &&& ranking.team_name == perf.team_name
    &&& ranking.daily_points == perf.total_points
    &&& ranking.daily_goals == perf.total_goals
    &&& ranking.daily_assists == perf.total_assists
    &&& ranking.player_highlights@ == top_highlights(perf.player_performances@)
}

/// The daily rankings of the given team performances: sorted by daily
/// points, best first (ties keep input order), ranked 1, 2, 3, …
pub open spec fn daily_rankings_of(
    rankings: Seq<DailyRanking>,
    perfs: Seq<TeamDailyPerformance>,
) -> bool {
    let sorted = stable_sorted(perfs);
    &&& rankings.len() == perfs.len()
    &&& forall|i: int| 0 <= i < rankings.len() ==> is_daily_row(#[trigger] rankings[i], sorted[i], i)
}

/// The highlights of a team's players: three best scorers, best first.
pub fn top_three_highlights(players: Vec<PlayerGamePerformance>) -> (r: Vec<PlayerHighlight>)
    ensures
        r@ == top_highlights(players@),
{
    let sorted = stable_sort(players);
    let n = sorted.len();
    let k: usize = if n < 3 {
        n
    } else {
        3
    };
    let mut out: Vec<PlayerHighlight> = Vec::new();
    let mut i: usize = 0;
    while i < k
        invariant
            k <= n,
            n == sorted@.len(),
            sorted@ == stable_sorted(players@),
            k == (if n < 3 {
                n
            } else {
                3
            }),
            i <= k,
            out@ =~= sorted@.take(i as int).map_values(|p: PlayerGamePerformance| highlight_of(p)),
        decreases k - i,
    {
        let p = &sorted[i];
        let h = PlayerHighlight {
            player_name: p.player_name.clone(),
            points: p.points,
            nhl_team: p.nhl_team.clone(),
            nhl_id: p.nhl_id,
        };
        out.push(h);
        proof {
            assert(sorted@.take(i + 1) =~= sorted@.take(i as int).push(sorted@[i as int]));
        }
        i = i + 1;
    }
    proof {
        crate::sorting::lemma_stable_sorted_multiset(players@);
    }
    out
}

/// Ranks team performances: each sorted by daily points, best first, with
/// its three best scorers as highlights.
pub fn rank_performances(team_performances: Vec<TeamDailyPerformance>) -> (r: Vec<DailyRanking>)
    ensures
        daily_rankings_of(r@, team_performances@),
{
    let ghost orig = team_performances@;
    let sorted = stable_sort(team_performances);
    proof {
        crate::sorting::lemma_stable_sorted_multiset(orig);
    }
    let ghost sorted_view = sorted@;
    let n = sorted.len();
    let mut rest = sorted;
    let mut out: Vec<DailyRanking> = Vec::new();
    let mut i: usize = 0;
    while i < n
        invariant
            n == sorted_view.len(),
            n == orig.len(),
            sorted_view == stable_sorted(orig),
            i <= n,
            rest@ =~= sorted_view.skip(i as int),
            out@.len() == i,
            forall|j: int| 0 <= j < i ==> is_daily_row(#[trigger] out@[j], sorted_view[j], j),
        decreases n - i,
    {
        let perf = rest.remove(0);
        assert(perf == sorted_view[i as int]);
        let highlights = top_three_highlights(perf.player_performances);
        let row = DailyRanking {
            rank: i + 1,
            team_id: perf.team_id,
            team_name: perf.team_name,
            daily_points: perf.total_points,
            daily_goals: perf.total_goals,
            daily_assists: perf.total_assists,
            player_highlights: highlights,
        };
        out.push(row);
        i = i + 1;
    }
    out
}

proof fn lemma_daily_points_order(r: Seq<DailyRanking>, perfs: Seq<TeamDailyPerformance>)
    requires
        daily_rankings_of(r, perfs),
    ensures
        forall|i: int, j: int|
            0 <= i < j < r.len() ==> #[trigger] r[i].daily_points >= #[trigger] r[j].daily_points,
{
    let sorted = stable_sorted(perfs);
    lemma_stable_sorted_multiset(perfs);
    assert(strict_order::<TeamDailyPerformance>());
    lemma_stable_sorted_sorted(perfs);
    assert forall|i: int, j: int| 0 <= i < j < r.len() implies #[trigger] r[i].daily_points
        >= #[trigger] r[j].daily_points by {
        assert(is_daily_row(r[i], sorted[i], i));
        assert(is_daily_row(r[j], sorted[j], j));
        assert(!sorted[j].precedes(&sorted[i]));
    }
}

proof fn lemma_daily_rows_complete(r: Seq<DailyRanking>, perfs: Seq<TeamDailyPerformance>)
    requires
        daily_rankings_of(r, perfs),
    ensures
        forall|k: int|
            0 <= k < perfs.len() ==> exists|i: int|
                0 <= i < r.len() && is_daily_row(#[trigger] r[i], #[trigger] perfs[k], i),
        forall|i: int|
            0 <= i < r.len() ==> exists|k: int|
                0 <= k < perfs.len() && is_daily_row(#[trigger] r[i], #[trigger] perfs[k], i),
{
    let sorted = stable_sorted(perfs);
    lemma_stable_sorted_multiset(perfs);
    assert forall|k: int| 0 <= k < perfs.len() implies exists|i: int|
        0 <= i < r.len() && is_daily_row(#[trigger] r[i], #[trigger] perfs[k], i) by {
        lemma_stable_sorted_contains(perfs, perfs[k]);
        assert(perfs.contains(perfs[k]));
        let i = choose|i: int| 0 <= i < sorted.len() && sorted[i] == perfs[k];
        assert(is_daily_row(r[i], sorted[i], i));
    }
    assert forall|i: int| 0 <= i < r.len() implies exists|k: int|
        0 <= k < perfs.len() && is_daily_row(#[trigger] r[i], #[trigger] perfs[k], i) by {
        lemma_stable_sorted_contains(perfs, sorted[i]);
        assert(sorted.contains(sorted[i]));
        let k = choose|k: int| 0 <= k < perfs.len() && perfs[k] == sorted[i];
        assert(is_daily_row(r[i], perfs[k], i));
    }
}

proof fn lemma_top_highlights_ordered(ps: Seq<PlayerGamePerformance>)
    ensures
        top_highlights(ps).len() <= 3,
        forall|a: int, b: int|
            0 <= a < b < top_highlights(ps).len() ==> #[trigger] top_highlights(ps)[a].points
                >= #[trigger] top_highlights(ps)[b].points,
{
    assert(strict_order::<PlayerGamePerformance>());
    lemma_stable_sorted_sorted(ps);
    lemma_stable_sorted_multiset(ps);
    let sp = stable_sorted(ps);
    assert forall|a: int, b: int| 0 <= a < b < top_highlights(ps).len() implies #[trigger] top_highlights(
        ps,
    )[a].points >= #[trigger] top_highlights(ps)[b].points by {
        assert(top_highlights(ps)[a] == highlight_of(sp[a]));
        assert(top_highlights(ps)[b] == highlight_of(sp[b]));
        assert(!sp[b].precedes(&sp[a]));
    }
}

/// Daily rankings list every team day once, best first: ranks run 1, 2,
/// 3, … in order, daily points never rise down the list, every team day
/// has its row and every row comes from a team day, and each row shows at
/// most three highlights, best first.
pub proof fn lemma_daily_rankings_ordered(r: Seq<DailyRanking>, perfs: Seq<TeamDailyPerformance>)
    requires
        daily_rankings_of(r, perfs),
    ensures
        r.len() == perfs.len(),
        forall|i: int| 0 <= i < r.len() ==> #[trigger] r[i].rank == i + 1,
        forall|i: int, j: int|
            0 <= i < j < r.len() ==> #[trigger] r[i].daily_points >= #[trigger] r[j].daily_points,
        forall|k: int|
            0 <= k < perfs.len() ==> exists|i: int|
                0 <= i < r.len() && is_daily_row(#[trigger] r[i], #[trigger] perfs[k], i),
        forall|i: int|
            0 <= i < r.len() ==> exists|k: int|
                0 <= k < perfs.len() && is_daily_row(#[trigger] r[i], #[trigger] perfs[k], i),
        forall|i: int| 0 <= i < r.len() ==> #[trigger] r[i].player_highlights@.len() <= 3,
        forall|i: int, a: int, b: int|
            0 <= i < r.len() && 0 <= a < b < r[i].player_highlights@.len()
                ==> #[trigger] r[i].player_highlights@[a].points
                >= #[trigger] r[i].player_highlights@[b].points,
{
    let sorted = stable_sorted(perfs);
    lemma_stable_sorted_multiset(perfs);
    lemma_daily_points_order(r, perfs);
    lemma_daily_rows_complete(r, perfs);
    assert forall|i: int| 0 <= i < r.len() implies #[trigger] r[i].rank == i + 1
        && r[i].player_highlights@.len() <= 3 && (forall|a: int, b: int|
        0 <= a < b < r[i].player_highlights@.len() ==> #[trigger] r[i].player_highlights@[a].points
            >= #[trigger] r[i].player_highlights@[b].points) by {
        assert(is_daily_row(r[i], sorted[i], i));
        lemma_top_highlights_ordered(sorted[i].player_performances@);
    }
}

impl DailyRanking {
    /// Builds the daily rankings from the per-team performances of a day.
    pub fn build_rankings(team_performances: Vec<TeamDailyPerformance>) -> (r: Vec<DailyRanking>)
        ensures
            daily_rankings_of(r@, team_performances@),
    {
        rank_performances(team_performances)
    }
}

} // verus!
