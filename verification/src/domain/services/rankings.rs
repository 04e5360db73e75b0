//! Fantasy ranking math: season totals per fantasy team from the skater
//! leaderboard, and daily rankings from per-player rows.
use vstd::prelude::*;

use crate::domain::models::db::{FantasyPlayer, FantasyTeamWithPlayers};
use crate::domain::models::fantasy::{
    daily_rankings_of, highlight_of, is_daily_row, lemma_daily_rankings_ordered, rank_performances,
    top_highlights, DailyRanking, PlayerGamePerformance,
    TeamDailyPerformance, TeamRanking,
};
use crate::sorting::{
    lemma_stable_sorted_contains, lemma_stable_sorted_multiset, lemma_stable_sorted_sorted,
    stable_sort, stable_sorted, strict_order, Precedes,
};

verus! {

/// One skater's season line as the rankings read it.
#[derive(Debug)]
pub struct SeasonSkaterStat {
    pub nhl_id: i64,
    pub goals: i32,
    pub assists: i32,
}

/// One rostered player's line for a completed game of the day.
#[derive(Debug)]
pub struct DailyPlayerStat {
    pub team_id: i64,
    pub team_name: String,
    pub nhl_id: i64,
    pub player_name: String,
    pub nhl_team: String,
    pub goals: i32,
    pub assists: i32,
    pub points: i32,
}

// ---------------------------------------------------------------------------
// Season rankings
// ---------------------------------------------------------------------------

/// The leaderboard line of a player: the last line with that id.
pub open spec fn stat_lookup(stats: Seq<SeasonSkaterStat>, id: i64) -> Option<(i32, i32)>
    decreases stats.len(),
{
    if stats.len() == 0 {
        None
    } else if stats.last().nhl_id == id {
        Some((stats.last().goals, stats.last().assists))
    } else {
        stat_lookup(stats.drop_last(), id)
    }
}

/// `id` belongs to one of the players.
pub open spec fn has_id(players: Seq<FantasyPlayer>, id: i64) -> bool {
    exists|i: int| 0 <= i < players.len() && #[trigger] players[i].nhl_id == id
}

/// Goals (`assists == false`) or assists (`assists == true`) of a roster:
/// each distinct player once, zero for players off the leaderboard.
pub open spec fn roster_sum(players: Seq<FantasyPlayer>, stats: Seq<SeasonSkaterStat>, assists: bool) -> int
    decreases players.len(),
{
    if players.len() == 0 {
        0
    } else {
        let prev = roster_sum(players.drop_last(), stats, assists);
        let id = players.last().nhl_id;
        if has_id(players.drop_last(), id) {
            prev
        } else {
            match stat_lookup(stats, id) {
                Some((g, a)) => prev + if assists {
                    a as int
                } else {
                    g as int
                },
                None => prev,
            }
        }
    }
}

/// A team's sums stay within `i32` while they are added up.
pub open spec fn roster_fits(players: Seq<FantasyPlayer>, stats: Seq<SeasonSkaterStat>) -> bool {
    &&& forall|k: int|
        #![trigger players.take(k)]
        0 <= k <= players.len() ==> i32::MIN <= roster_sum(players.take(k), stats, false)
            <= i32::MAX && i32::MIN <= roster_sum(players.take(k), stats, true) <= i32::MAX
    &&& i32::MIN <= roster_sum(players, stats, false) + roster_sum(players, stats, true) <= i32::MAX
}

/// A team's row before ranks are assigned.
pub open spec fn unranked(team: FantasyTeamWithPlayers, stats: Seq<SeasonSkaterStat>) -> TeamRanking {
    let g = roster_sum(team.players@, stats, false);
    let a = roster_sum(team.players@, stats, true);
    TeamRanking {
        rank: 0,
        team_id: team.id,
        team_name: team.name,
        goals: g as i32,
        assists: a as i32,
        total_points: (g + a) as i32,
    }
}

/// The unranked rows of the teams, in input order.
pub open spec fn unranked_rows(teams: Seq<FantasyTeamWithPlayers>, stats: Seq<SeasonSkaterStat>) -> Seq<
    TeamRanking,
> {
    teams.map_values(|t: FantasyTeamWithPlayers| unranked(t, stats))
}

/// A row with its rank replaced.
pub open spec fn with_rank(t: TeamRanking, rank: int) -> TeamRanking {
    TeamRanking { rank: rank as usize, ..t }
}

/// `r` is `sorted` with ranks 1, 2, 3, … assigned in order.
pub open spec fn ranked(r: Seq<TeamRanking>, sorted: Seq<TeamRanking>) -> bool {
    &&& r.len() == sorted.len()
    &&& forall|i: int| 0 <= i < r.len() ==> #[trigger] r[i] == with_rank(sorted[i], i + 1)
}

fn lookup_stat(stats: &[SeasonSkaterStat], id: i64) -> (r: Option<(i32, i32)>)
    ensures
        r == stat_lookup(stats@, id),
{
    let mut k: usize = stats.len();
    assert(stats@.take(k as int) =~= stats@);
    while k > 0
        invariant
            k <= stats@.len(),
            stat_lookup(stats@, id) == stat_lookup(stats@.take(k as int), id),
        decreases k,
    {
        proof {
            assert(stats@.take(k as int).last() == stats@[k - 1]);
            assert(stats@.take(k as int).drop_last() =~= stats@.take(k - 1));
        }
        if stats[k - 1].nhl_id == id {
            return Some((stats[k - 1].goals, stats[k - 1].assists));
        }
        k = k - 1;
    }
    None
}

fn contains_id(ids: &Vec<i64>, id: i64) -> (r: bool)
    ensures
        r == ids@.contains(id),
{
    let mut i: usize = 0;
    while i < ids.len()
        invariant
            i <= ids@.len(),
            forall|j: int| 0 <= j < i ==> ids@[j] != id,
        decreases ids@.len() - i,
    {
        if ids[i] == id {
            return true;
        }
        i = i + 1;
    }
    false
}

fn team_row(team: FantasyTeamWithPlayers, stats: &[SeasonSkaterStat]) -> (r: TeamRanking)
    requires
        roster_fits(team.players@, stats@),
    ensures
        r == unranked(team, stats@),
{
    let ghost players = team.players@;
    let mut seen: Vec<i64> = Vec::new();
    let mut goals: i32 = 0;
    let mut assists: i32 = 0;
    let mut i: usize = 0;
    let n = team.players.len();
    assert(players.take(0) =~= Seq::<FantasyPlayer>::empty());
    while i < n
        invariant
            n == players.len(),
            players == team.players@,
            roster_fits(players, stats@),
            i <= n,
            goals == roster_sum(players.take(i as int), stats@, false),
            assists == roster_sum(players.take(i as int), stats@, true),
            forall|id: i64| seen@.contains(id) == has_id(players.take(i as int), id),
        decreases n - i,
    {
        let p = &team.players[i];
        let ghost t = players.take(i + 1);
        proof {
            assert(t.drop_last() =~= players.take(i as int));
            assert(t.last() == players[i as int]);
            assert(i32::MIN <= roster_sum(t, stats@, false) <= i32::MAX);
            assert(i32::MIN <= roster_sum(t, stats@, true) <= i32::MAX);
        }
        let ghost old_seen = seen@;
        let already = contains_id(&seen, p.nhl_id);
        if !already {
            match lookup_stat(stats, p.nhl_id) {
                Some((g, a)) => {
                    goals = goals + g;
                    assists = assists + a;
                },
                None => {},
            }
            seen.push(p.nhl_id);
        }
        proof {
            assert forall|id: i64| has_id(t, id) == (has_id(players.take(i as int), id) || id
                == p.nhl_id) by {
                if has_id(t, id) {
                    let j = choose|j: int| 0 <= j < t.len() && #[trigger] t[j].nhl_id == id;
                    if j < i {
                        assert(players.take(i as int)[j] == t[j]);
                    }
                }
                if has_id(players.take(i as int), id) {
                    let j = choose|j: int|
                        0 <= j < players.take(i as int).len() && #[trigger] players.take(
                            i as int,
                        )[j].nhl_id == id;
                    assert(t[j] == players.take(i as int)[j]);
                }
                if id == p.nhl_id {
                    assert(t[i as int].nhl_id == id);
                }
            }
            assert forall|id: i64| seen@.contains(id) == has_id(t, id) by {
                assert(old_seen.contains(id) == has_id(players.take(i as int), id));
                assert(old_seen.contains(p.nhl_id) == has_id(players.take(i as int), p.nhl_id));
                if !already {
                    lemma_push_contains(old_seen, p.nhl_id, id);
                }
            }
        }
        i = i + 1;
    }
    assert(players.take(n as int) =~= players);
    TeamRanking {
        rank: 0,
        team_id: team.id,
        team_name: team.name,
        goals,
        assists,
        total_points: goals + assists,
    }
}

proof fn lemma_push_contains<A>(s: Seq<A>, x: A, y: A)
    ensures
        s.push(x).contains(y) == (s.contains(y) || x == y),
{
    if s.push(x).contains(y) {
        let j = choose|j: int| 0 <= j < s.push(x).len() && s.push(x)[j] == y;
        if j < s.len() {
            assert(s[j] == y);
        }
    }
    if s.contains(y) {
        let j = choose|j: int| 0 <= j < s.len() && s[j] == y;
        assert(s.push(x)[j] == y);
    }
    if x == y {
        assert(s.push(x)[s.len() as int] == y);
    }
}

/// Assigns ranks 1, 2, 3, … in order.
fn assign_ranks(sorted: Vec<TeamRanking>) -> (r: Vec<TeamRanking>)
    ensures
        ranked(r@, sorted@),
{
    let ghost orig = sorted@;
    let n = sorted.len();
    let mut rest = sorted;
    let mut out: Vec<TeamRanking> = Vec::new();
    let mut i: usize = 0;
    while i < n
        invariant
            n == orig.len(),
            i <= n,
            rest@ =~= orig.skip(i as int),
            out@.len() == i,
            forall|j: int| 0 <= j < i ==> #[trigger] out@[j] == with_rank(orig[j], j + 1),
        decreases n - i,
    {
        let t = rest.remove(0);
        assert(t == orig[i as int]);
        out.push(
            TeamRanking {
                rank: i + 1,
                team_id: t.team_id,
                team_name: t.team_name,
                goals: t.goals,
                assists: t.assists,
                total_points: t.total_points,
            },
        );
        i = i + 1;
    }
    out
}

/// Season-overall fantasy rankings: each team's goals and assists are
/// summed over its distinct rostered players from the season leaderboard
/// (the last line per player counts; players off the leaderboard add
/// nothing); teams are ordered by total points, highest first, ties in
/// input order, and ranked 1, 2, 3, …
pub fn calculate_team_rankings(teams: Vec<FantasyTeamWithPlayers>, skater_stats: &[SeasonSkaterStat]) -> (r:
    Vec<TeamRanking>)
    requires
        forall|i: int| 0 <= i < teams@.len() ==> roster_fits(#[trigger] teams@[i].players@, skater_stats@),
    ensures
        ranked(r@, stable_sorted(unranked_rows(teams@, skater_stats@))),
{
    let ghost orig = teams@;
    let n = teams.len();
    let mut rest = teams;
    let mut rows: Vec<TeamRanking> = Vec::new();
    let mut i: usize = 0;
    while i < n
        invariant
            n == orig.len(),
            i <= n,
            rest@ =~= orig.skip(i as int),
            forall|j: int| 0 <= j < orig.len() ==> roster_fits(#[trigger] orig[j].players@, skater_stats@),
            rows@ =~= unranked_rows(orig, skater_stats@).take(i as int),
        decreases n - i,
    {
        let team = rest.remove(0);
        assert(team == orig[i as int]);
        let row = team_row(team, skater_stats);
        rows.push(row);
        assert(unranked_rows(orig, skater_stats@).take(i + 1) =~= unranked_rows(
            orig,
            skater_stats@,
        ).take(i as int).push(unranked(orig[i as int], skater_stats@)));
        i = i + 1;
    }
    assert(rows@ =~= unranked_rows(orig, skater_stats@));
    let sorted = stable_sort(rows);
    assign_ranks(sorted)
}

/// Season rankings list every team once, best total first, ranked 1, 2,
/// 3, … in order: every team's row is in the list under the rank of its
/// place, and every row of the list is a team's row.
pub proof fn lemma_season_rankings_ordered(
    teams: Seq<FantasyTeamWithPlayers>,
    stats: Seq<SeasonSkaterStat>,
    r: Seq<TeamRanking>,
)
    requires
        ranked(r, stable_sorted(unranked_rows(teams, stats))),
        teams.len() <= usize::MAX,
    ensures
        r.len() == teams.len(),
        forall|i: int| 0 <= i < r.len() ==> #[trigger] r[i].rank == i + 1,
        forall|i: int, j: int|
            0 <= i < j < r.len() ==> #[trigger] r[i].total_points >= #[trigger] r[j].total_points,
        forall|k: int|
            0 <= k < teams.len() ==> exists|i: int|
                0 <= i < r.len() && #[trigger] r[i] == with_rank(unranked(#[trigger] teams[k], stats), i + 1),
        forall|i: int|
            0 <= i < r.len() ==> exists|k: int|
                0 <= k < teams.len() && #[trigger] r[i] == with_rank(unranked(#[trigger] teams[k], stats), i + 1),
{
    let rows = unranked_rows(teams, stats);
    let sorted = stable_sorted(rows);
    lemma_stable_sorted_multiset(rows);
    assert(strict_order::<TeamRanking>());
    lemma_stable_sorted_sorted(rows);
    assert forall|i: int| 0 <= i < r.len() implies #[trigger] r[i].rank == i + 1 by {
        assert(r[i] == with_rank(sorted[i], i + 1));
    }
    assert forall|i: int, j: int| 0 <= i < j < r.len() implies #[trigger] r[i].total_points
        >= #[trigger] r[j].total_points by {
        assert(r[i] == with_rank(sorted[i], i + 1));
        assert(r[j] == with_rank(sorted[j], j + 1));
        assert(!sorted[j].precedes(&sorted[i]));
    }
    assert forall|k: int| 0 <= k < teams.len() implies exists|i: int|
        0 <= i < r.len() && #[trigger] r[i] == with_rank(unranked(#[trigger] teams[k], stats), i + 1) by {
        assert(rows[k] == unranked(teams[k], stats));
        lemma_stable_sorted_contains(rows, rows[k]);
        assert(rows.contains(rows[k]));
        let i = choose|i: int| 0 <= i < sorted.len() && sorted[i] == rows[k];
        assert(r[i] == with_rank(sorted[i], i + 1));
    }
    assert forall|i: int| 0 <= i < r.len() implies exists|k: int|
        0 <= k < teams.len() && #[trigger] r[i] == with_rank(unranked(#[trigger] teams[k], stats), i + 1) by {
        lemma_stable_sorted_contains(rows, sorted[i]);
        assert(sorted.contains(sorted[i]));
        let k = choose|k: int| 0 <= k < rows.len() && rows[k] == sorted[i];
        assert(rows[k] == unranked(teams[k], stats));
        assert(r[i] == with_rank(sorted[i], i + 1));
    }
}

// ---------------------------------------------------------------------------
// Daily rankings
// ---------------------------------------------------------------------------

/// The team ids of the rows, each once, in order of first appearance.
pub open spec fn team_ids(rows: Seq<DailyPlayerStat>) -> Seq<i64>
    decreases rows.len(),
{
    if rows.len() == 0 {
        Seq::empty()
    } else {
        let p = team_ids(rows.drop_last());
        if p.contains(rows.last().team_id) {
            p
        } else {
            p.push(rows.last().team_id)
        }
    }
}

/// The rows of one team, in order.
pub open spec fn rows_of(rows: Seq<DailyPlayerStat>, id: i64) -> Seq<DailyPlayerStat>
    decreases rows.len(),
{
    if rows.len() == 0 {
        Seq::empty()
    } else {
        let p = rows_of(rows.drop_last(), id);
        if rows.last().team_id == id {
            p.push(rows.last())
        } else {
            p
        }
    }
}

/// The performance a row stands for.
pub open spec fn perf_of(r: DailyPlayerStat) -> PlayerGamePerformance {
    PlayerGamePerformance {
        player_id: 0,
        nhl_id: r.nhl_id,
        player_name: r.player_name,
        nhl_team: r.nhl_team,
        goals: r.goals,
        assists: r.assists,
        points: r.points,
    }
}

/// The performances of the rows that scored, in order.
pub open spec fn scoring_perfs(rows: Seq<DailyPlayerStat>) -> Seq<PlayerGamePerformance>
    decreases rows.len(),
{
    if rows.len() == 0 {
        Seq::empty()
    } else {
        let p = scoring_perfs(rows.drop_last());
        if rows.last().points > 0 {
            p.push(perf_of(rows.last()))
        } else {
            p
        }
    }
}

/// Sum of goals (0), assists (1) or points (2) of the rows.
pub open spec fn rows_sum(rows: Seq<DailyPlayerStat>, which: int) -> int
    decreases rows.len(),
{
    if rows.len() == 0 {
        0
    } else {
        rows_sum(rows.drop_last(), which) + if which == 0 {
            rows.last().goals as int
        } else if which == 1 {
            rows.last().assists as int
        } else {
            rows.last().points as int
        }
    }
}

/// `perf` is the day of team `id` over the rows: named after its first
/// row, its scoring players in order, its totals over all its rows.
pub open spec fn is_team_day(perf: TeamDailyPerformance, rows: Seq<DailyPlayerStat>, id: i64) -> bool {
    let mine = rows_of(rows, id);
    &&& mine.len() > 0
    &&& perf.team_id == id
    &&& perf.team_name == mine[0].team_name
    &&& perf.player_performances@ == scoring_perfs(mine)
    &&& perf.total_goals == rows_sum(mine, 0)
    &&& perf.total_assists == rows_sum(mine, 1)
    &&& perf.total_points == rows_sum(mine, 2)
}

/// The team days of the rows, one per team in order of first appearance.
pub open spec fn grouped(perfs: Seq<TeamDailyPerformance>, rows: Seq<DailyPlayerStat>) -> bool {
    let ids = team_ids(rows);
    &&& perfs.len() == ids.len()
    &&& forall|i: int| 0 <= i < perfs.len() ==> is_team_day(#[trigger] perfs[i], rows, ids[i])
}

/// Each team's goals, assists and points stay within `i32` while summed
/// in row order.
pub open spec fn daily_fits(rows: Seq<DailyPlayerStat>) -> bool {
    forall|id: i64, k: int|
        #![trigger rows_of(rows, id).take(k)]
        0 <= k <= rows_of(rows, id).len() ==> {
            let part = rows_of(rows, id).take(k);
            &&& i32::MIN <= rows_sum(part, 0) <= i32::MAX
            &&& i32::MIN <= rows_sum(part, 1) <= i32::MAX
            &&& i32::MIN <= rows_sum(part, 2) <= i32::MAX
        }
}

proof fn lemma_team_ids_contains(rows: Seq<DailyPlayerStat>, id: i64)
    ensures
        team_ids(rows).contains(id) == (rows_of(rows, id).len() > 0),
    decreases rows.len(),
{
    if rows.len() > 0 {
        lemma_team_ids_contains(rows.drop_last(), id);
        lemma_push_contains(team_ids(rows.drop_last()), rows.last().team_id, id);
    }
}

proof fn lemma_rows_of_prefix(rows: Seq<DailyPlayerStat>, k: int, id: i64)
    requires
        0 <= k <= rows.len(),
    ensures
        rows_of(rows.take(k), id).len() <= rows_of(rows, id).len(),
        rows_of(rows.take(k), id) == rows_of(rows, id).take(rows_of(rows.take(k), id).len() as int),
    decreases rows.len() - k,
{
    if k < rows.len() {
        lemma_rows_of_prefix(rows, k + 1, id);
        let t = rows.take(k + 1);
        assert(t.drop_last() =~= rows.take(k));
        let a = rows_of(rows.take(k), id);
        let b = rows_of(t, id);
        assert(b.take(a.len() as int) =~= a);
        assert(rows_of(rows, id).take(b.len() as int).take(a.len() as int) =~= rows_of(
            rows,
            id,
        ).take(a.len() as int));
    } else {
        assert(rows.take(k) =~= rows);
        assert(rows_of(rows, id).take(rows_of(rows, id).len() as int) =~= rows_of(rows, id));
    }
}

proof fn lemma_team_ids_distinct(rows: Seq<DailyPlayerStat>)
    ensures
        forall|i: int, j: int|
            0 <= i < j < team_ids(rows).len() ==> #[trigger] team_ids(rows)[i] != #[trigger] team_ids(
                rows,
            )[j],
    decreases rows.len(),
{
    if rows.len() > 0 {
        lemma_team_ids_distinct(rows.drop_last());
        let p = team_ids(rows.drop_last());
        let x = rows.last().team_id;
        if !p.contains(x) {
            assert forall|i: int| 0 <= i < p.len() implies p[i] != x by {
                if p[i] == x {
                    assert(p.contains(x));
                }
            }
        }
    }
}

fn find_team(groups: &Vec<TeamDailyPerformance>, id: i64) -> (r: Option<usize>)
    ensures
        match r {
            Some(i) => i < groups@.len() && groups@[i as int].team_id == id,
            None => forall|i: int| 0 <= i < groups@.len() ==> #[trigger] groups@[i].team_id != id,
        },
{
    let mut i: usize = 0;
    while i < groups.len()
        invariant
            i <= groups@.len(),
            forall|j: int| 0 <= j < i ==> #[trigger] groups@[j].team_id != id,
        decreases groups@.len() - i,
    {
        if groups[i].team_id == id {
            return Some(i);
        }
        i = i + 1;
    }
    None
}

/// Groups rows into team days, in order of first appearance.
fn group_rows(rows: &Vec<DailyPlayerStat>) -> (r: Vec<TeamDailyPerformance>)
    requires
        daily_fits(rows@),
    ensures
        grouped(r@, rows@),
{
    let mut groups: Vec<TeamDailyPerformance> = Vec::new();
    let mut k: usize = 0;
    assert(rows@.take(0) =~= Seq::<DailyPlayerStat>::empty());
    while k < rows.len()
        invariant
            k <= rows@.len(),
            daily_fits(rows@),
            grouped(groups@, rows@.take(k as int)),
        decreases rows@.len() - k,
    {
        let row = &rows[k];
        let ghost before = rows@.take(k as int);
        let ghost after = rows@.take(k + 1);
        let ghost id = row.team_id;
        proof {
            assert(after.drop_last() =~= before);
            assert(after.last() == *row);
            lemma_rows_of_prefix(rows@, k + 1, id);
            lemma_team_ids_contains(before, id);
            lemma_team_ids_distinct(before);
        }
        let perf = PlayerGamePerformance {
            player_id: 0,
            nhl_id: row.nhl_id,
            player_name: row.player_name.clone(),
            nhl_team: row.nhl_team.clone(),
            goals: row.goals,
            assists: row.assists,
            points: row.points,
        };
        assert(perf == perf_of(*row));
        let ghost mine_after = rows_of(after, id);
        proof {
            assert(mine_after == rows_of(before, id).push(*row));
            let kk = mine_after.len() as int;
            assert(rows_of(rows@, id).take(kk) == mine_after);
            assert(mine_after.take(kk) =~= mine_after);
            assert(i32::MIN <= rows_sum(mine_after, 0) <= i32::MAX);
            assert(i32::MIN <= rows_sum(mine_after, 1) <= i32::MAX);
            assert(i32::MIN <= rows_sum(mine_after, 2) <= i32::MAX);
            assert(mine_after.drop_last() =~= rows_of(before, id));
        }
        match find_team(&groups, row.team_id) {
            Some(i) => {
                let ghost ids = team_ids(before);
                proof {
                    assert(is_team_day(groups@[i as int], before, ids[i as int]));
                    assert(ids[i as int] == id);
                }
                let mut g = groups.remove(i);
                if row.points > 0 {
                    g.player_performances.push(perf);
                }
                g.total_goals = g.total_goals + row.goals;
                g.total_assists = g.total_assists + row.assists;
                g.total_points = g.total_points + row.points;
                groups.insert(i, g);
                proof {
                    assert(team_ids(after) == ids);
                    assert forall|j: int| 0 <= j < groups@.len() implies is_team_day(
                        #[trigger] groups@[j],
                        after,
                        team_ids(after)[j],
                    ) by {
                        if j != i {
                            let other = ids[j];
                            assert(other != id);
                            assert(rows_of(after, other) == rows_of(before, other));
                            assert(is_team_day(groups@[j], before, other));
                        }
                    }
                }
            },
            None => {
                let ghost ids = team_ids(before);
                proof {
                    assert(!ids.contains(id)) by {
                        if ids.contains(id) {
                            let j = choose|j: int| 0 <= j < ids.len() && ids[j] == id;
                            assert(is_team_day(groups@[j], before, ids[j]));
                        }
                    }
                    assert(rows_of(before, id).len() == 0);
                }
                let mut performances: Vec<PlayerGamePerformance> = Vec::new();
                if row.points > 0 {
                    performances.push(perf);
                }
                let g = TeamDailyPerformance {
                    team_id: row.team_id,
                    team_name: row.team_name.clone(),
                    player_performances: performances,
                    total_points: row.points,
                    total_goals: row.goals,
                    total_assists: row.assists,
                };
                groups.push(g);
                proof {
                    assert(team_ids(after) == ids.push(id));
                    assert(rows_of(before, id) =~= Seq::<DailyPlayerStat>::empty());
                    assert(mine_after =~= seq![*row]);
                    assert(mine_after.drop_last() =~= Seq::<DailyPlayerStat>::empty());
                    assert(mine_after.last() == *row);
                    assert(rows_sum(mine_after.drop_last(), 0) == 0);
                    assert(rows_sum(mine_after.drop_last(), 1) == 0);
                    assert(rows_sum(mine_after.drop_last(), 2) == 0);
                    assert(rows_sum(mine_after, 0) == row.goals);
                    assert(rows_sum(mine_after, 1) == row.assists);
                    assert(rows_sum(mine_after, 2) == row.points);
                    assert(scoring_perfs(mine_after.drop_last()) =~= Seq::<
                        PlayerGamePerformance,
                    >::empty());
                    if row.points > 0 {
                        assert(scoring_perfs(mine_after) =~= seq![perf_of(*row)]);
                        assert(performances@ =~= seq![perf]);
                    } else {
                        assert(scoring_perfs(mine_after) =~= Seq::<PlayerGamePerformance>::empty());
                        assert(performances@ =~= Seq::<PlayerGamePerformance>::empty());
                    }
                    assert(is_team_day(groups@[ids.len() as int], after, id));
                    assert forall|j: int| 0 <= j < groups@.len() implies is_team_day(
                        #[trigger] groups@[j],
                        after,
                        team_ids(after)[j],
                    ) by {
                        if j < ids.len() {
                            let other = ids[j];
                            assert(other != id);
                            assert(rows_of(after, other) == rows_of(before, other));
                            assert(is_team_day(groups@[j], before, other));
                        }
                    }
                }
            },
        }
        k = k + 1;
    }
    assert(rows@.take(rows@.len() as int) =~= rows@);
    groups
}

/// Daily fantasy rankings: rows are grouped by fantasy team (named after
/// its first row), totals summed over all of a team's rows, its scoring
/// players (points > 0) kept for the highlights; teams are then ranked by
/// daily points as [`DailyRanking::build_rankings`] does.
pub fn build_daily_rankings(rows: Vec<DailyPlayerStat>) -> (r: Vec<DailyRanking>)
    requires
        daily_fits(rows@),
    ensures
        exists|perfs: Seq<TeamDailyPerformance>| grouped(perfs, rows@) && daily_rankings_of(r@, perfs),
{
    let groups = group_rows(&rows);
    let ghost g = groups@;
    let r = rank_performances(groups);
    assert(grouped(g, rows@) && daily_rankings_of(r@, g));
    r
}

proof fn lemma_scoring_perfs_scored(rows: Seq<DailyPlayerStat>)
    ensures
        forall|a: int|
            0 <= a < scoring_perfs(rows).len() ==> #[trigger] scoring_perfs(rows)[a].points > 0,
    decreases rows.len(),
{
    if rows.len() > 0 {
        let p = scoring_perfs(rows.drop_last());
        lemma_scoring_perfs_scored(rows.drop_last());
        if rows.last().points > 0 {
            assert forall|a: int| 0 <= a < p.push(perf_of(rows.last())).len() implies #[trigger] p.push(
                perf_of(rows.last()),
            )[a].points > 0 by {
                if a < p.len() {
                    assert(p.push(perf_of(rows.last()))[a] == p[a]);
                }
            }
        }
    }
}

proof fn lemma_highlights_scored(ps: Seq<PlayerGamePerformance>)
    requires
        forall|a: int| 0 <= a < ps.len() ==> #[trigger] ps[a].points > 0,
    ensures
        forall|a: int|
            0 <= a < top_highlights(ps).len() ==> #[trigger] top_highlights(ps)[a].points > 0,
{
    let sp = stable_sorted(ps);
    lemma_stable_sorted_multiset(ps);
    assert forall|a: int| 0 <= a < top_highlights(ps).len() implies #[trigger] top_highlights(
        ps,
    )[a].points > 0 by {
        assert(top_highlights(ps)[a] == highlight_of(sp[a]));
        lemma_stable_sorted_contains(ps, sp[a]);
        assert(sp.contains(sp[a]));
    }
}

proof fn lemma_sorted_ids_distinct(perfs: Seq<TeamDailyPerformance>)
    requires
        forall|i: int, j: int|
            0 <= i < j < perfs.len() ==> #[trigger] perfs[i].team_id != #[trigger] perfs[j].team_id,
    ensures
        forall|i: int, j: int|
            0 <= i < j < stable_sorted(perfs).len() ==> #[trigger] stable_sorted(perfs)[i].team_id
                != #[trigger] stable_sorted(perfs)[j].team_id,
{
    broadcast use vstd::seq_lib::group_to_multiset_ensures;

    let sorted = stable_sorted(perfs);
    lemma_stable_sorted_multiset(perfs);
    assert(perfs.no_duplicates()) by {
        assert forall|i: int, j: int|
            0 <= i < perfs.len() && 0 <= j < perfs.len() && i != j implies perfs[i] != perfs[j] by {
            if i < j {
                assert(perfs[i].team_id != perfs[j].team_id);
            } else {
                assert(perfs[j].team_id != perfs[i].team_id);
            }
        }
    }
    perfs.lemma_multiset_has_no_duplicates();
    sorted.lemma_multiset_has_no_duplicates_conv();
    assert forall|i: int, j: int| 0 <= i < j < sorted.len() implies #[trigger] sorted[i].team_id
        != #[trigger] sorted[j].team_id by {
        lemma_stable_sorted_contains(perfs, sorted[i]);
        lemma_stable_sorted_contains(perfs, sorted[j]);
        assert(sorted.contains(sorted[i]));
        assert(sorted.contains(sorted[j]));
        let ki = choose|k: int| 0 <= k < perfs.len() && perfs[k] == sorted[i];
        let kj = choose|k: int| 0 <= k < perfs.len() && perfs[k] == sorted[j];
        if sorted[i].team_id == sorted[j].team_id {
            if ki < kj {
                assert(perfs[ki].team_id != perfs[kj].team_id);
            } else if kj < ki {
                assert(perfs[kj].team_id != perfs[ki].team_id);
            }
        }
    }
}

/// Daily rankings built from the day's rows give each team one row, and
/// highlight only players who scored on the day (players without a point
/// still count in the team's totals).
pub proof fn lemma_daily_rows_distinct_and_scored(rows: Seq<DailyPlayerStat>, r: Seq<DailyRanking>)
    requires
        exists|perfs: Seq<TeamDailyPerformance>| grouped(perfs, rows) && daily_rankings_of(r, perfs),
    ensures
        forall|i: int, j: int| 0 <= i < j < r.len() ==> #[trigger] r[i].team_id != #[trigger] r[j].team_id,
        forall|i: int, a: int|
            0 <= i < r.len() && 0 <= a < r[i].player_highlights@.len()
                ==> #[trigger] r[i].player_highlights@[a].points > 0,
{
    let perfs = choose|perfs: Seq<TeamDailyPerformance>| grouped(perfs, rows) && daily_rankings_of(r, perfs);
    let sorted = stable_sorted(perfs);
    let ids = team_ids(rows);
    lemma_stable_sorted_multiset(perfs);
    lemma_team_ids_distinct(rows);
    assert forall|i: int, j: int| 0 <= i < j < perfs.len() implies #[trigger] perfs[i].team_id
        != #[trigger] perfs[j].team_id by {
        assert(is_team_day(perfs[i], rows, ids[i]));
        assert(is_team_day(perfs[j], rows, ids[j]));
    }
    lemma_sorted_ids_distinct(perfs);
    assert forall|i: int, j: int| 0 <= i < j < r.len() implies #[trigger] r[i].team_id
        != #[trigger] r[j].team_id by {
        assert(is_daily_row(r[i], sorted[i], i));
        assert(is_daily_row(r[j], sorted[j], j));
    }
    assert forall|i: int, a: int|
        0 <= i < r.len() && 0 <= a < r[i].player_highlights@.len()
            implies #[trigger] r[i].player_highlights@[a].points > 0 by {
        lemma_daily_rankings_ordered(r, perfs);
        let k = choose|k: int| 0 <= k < perfs.len() && is_daily_row(r[i], perfs[k], i);
        assert(is_team_day(perfs[k], rows, ids[k]));
        let mine = rows_of(rows, ids[k]);
        lemma_scoring_perfs_scored(mine);
        lemma_highlights_scored(perfs[k].player_performances@);
    }
}

// ---------------------------------------------------------------------------
// Laws of the totals
// ---------------------------------------------------------------------------

proof fn lemma_stat_lookup_last(stats: Seq<SeasonSkaterStat>, id: i64, j: int)
    requires
        0 <= j < stats.len(),
        stats[j].nhl_id == id,
        forall|k: int| j < k < stats.len() ==> (#[trigger] stats[k]).nhl_id != id,
    ensures
        stat_lookup(stats, id) == Some((stats[j].goals, stats[j].assists)),
    decreases stats.len(),
{
    if j < stats.len() - 1 {
        let p = stats.drop_last();
        assert forall|k: int| j < k < p.len() implies (#[trigger] p[k]).nhl_id != id by {
            assert(p[k] == stats[k]);
        }
        lemma_stat_lookup_last(p, id, j);
    }
}

proof fn lemma_stat_lookup_absent(stats: Seq<SeasonSkaterStat>, id: i64)
    requires
        forall|k: int| 0 <= k < stats.len() ==> (#[trigger] stats[k]).nhl_id != id,
    ensures
        stat_lookup(stats, id) is None,
    decreases stats.len(),
{
    if stats.len() > 0 {
        let p = stats.drop_last();
        assert forall|k: int| 0 <= k < p.len() implies (#[trigger] p[k]).nhl_id != id by {
            assert(p[k] == stats[k]);
        }
        lemma_stat_lookup_absent(p, id);
    }
}

/// A team without players has no goals, assists or points.
pub proof fn lemma_empty_roster_scores_nothing(team: FantasyTeamWithPlayers, stats: Seq<SeasonSkaterStat>)
    requires
        team.players@.len() == 0,
    ensures
        unranked(team, stats).goals == 0,
        unranked(team, stats).assists == 0,
        unranked(team, stats).total_points == 0,
        unranked(team, stats).team_id == team.id,
{
}

/// Rostering one more player who is not yet on the team adds his season
/// goals to the team's goals and his season assists to its assists, as
/// read from the last leaderboard line with his id; the team's points are
/// its goals plus its assists.
pub proof fn lemma_new_player_adds_his_line(
    t1: FantasyTeamWithPlayers,
    t2: FantasyTeamWithPlayers,
    p: FantasyPlayer,
    stats: Seq<SeasonSkaterStat>,
    j: int,
)
    requires
        t2.players@ == t1.players@.push(p),
        t2.id == t1.id,
        forall|q: int| 0 <= q < t1.players@.len() ==> (#[trigger] t1.players@[q]).nhl_id != p.nhl_id,
        0 <= j < stats.len(),
        stats[j].nhl_id == p.nhl_id,
        forall|k: int| j < k < stats.len() ==> (#[trigger] stats[k]).nhl_id != p.nhl_id,
        roster_fits(t1.players@, stats),
        roster_fits(t2.players@, stats),
    ensures
        unranked(t2, stats).goals as int == unranked(t1, stats).goals as int + stats[j].goals as int,
        unranked(t2, stats).assists as int == unranked(t1, stats).assists as int
            + stats[j].assists as int,
        unranked(t2, stats).total_points as int == unranked(t2, stats).goals as int + unranked(
            t2,
            stats,
        ).assists as int,
        unranked(t2, stats).team_id == t1.id,
{
    let ps = t2.players@;
    assert(ps.drop_last() =~= t1.players@);
    assert(ps.last() == p);
    assert(!has_id(t1.players@, p.nhl_id)) by {
        if has_id(t1.players@, p.nhl_id) {
            let q = choose|q: int| 0 <= q < t1.players@.len() && #[trigger] t1.players@[q].nhl_id == p.nhl_id;
            assert(t1.players@[q].nhl_id != p.nhl_id);
        }
    }
    lemma_stat_lookup_last(stats, p.nhl_id, j);
    assert(t1.players@.take(t1.players@.len() as int) =~= t1.players@);
    assert(ps.take(ps.len() as int) =~= ps);
}

/// Rostering a player who is already on the team, or who has no
/// leaderboard line, changes neither the team's goals nor its assists.
pub proof fn lemma_repeat_or_unlisted_player_adds_nothing(
    t1: FantasyTeamWithPlayers,
    t2: FantasyTeamWithPlayers,
    p: FantasyPlayer,
    stats: Seq<SeasonSkaterStat>,
)
    requires
        t2.players@ == t1.players@.push(p),
        (exists|q: int| 0 <= q < t1.players@.len() && #[trigger] t1.players@[q].nhl_id == p.nhl_id)
            || (forall|k: int| 0 <= k < stats.len() ==> (#[trigger] stats[k]).nhl_id != p.nhl_id),
    ensures
        unranked(t2, stats).goals == unranked(t1, stats).goals,
        unranked(t2, stats).assists == unranked(t1, stats).assists,
{
    let ps = t2.players@;
    assert(ps.drop_last() =~= t1.players@);
    assert(ps.last() == p);
    if !has_id(t1.players@, p.nhl_id) {
        lemma_stat_lookup_absent(stats, p.nhl_id);
    }
}

/// A team's goals, assists and points over the day's rows: the sum of the
/// goals, assists and points fields of its rows.
pub open spec fn team_field_total(rows: Seq<DailyPlayerStat>, id: i64, which: int) -> int
    decreases rows.len(),
{
    if rows.len() == 0 {
        0
    } else {
        let r = rows.last();
        team_field_total(rows.drop_last(), id, which) + if r.team_id != id {
            0
        } else if which == 0 {
            r.goals as int
        } else if which == 1 {
            r.assists as int
        } else {
            r.points as int
        }
    }
}

proof fn lemma_rows_sum_is_field_total(rows: Seq<DailyPlayerStat>, id: i64, which: int)
    ensures
        rows_sum(rows_of(rows, id), which) == team_field_total(rows, id, which),
    decreases rows.len(),
{
    if rows.len() > 0 {
        lemma_rows_sum_is_field_total(rows.drop_last(), id, which);
        let p = rows_of(rows.drop_last(), id);
        if rows.last().team_id == id {
            assert(p.push(rows.last()).drop_last() =~= p);
        }
    }
}

proof fn lemma_team_day_totals(perf: TeamDailyPerformance, rows: Seq<DailyPlayerStat>, id: i64)
    requires
        is_team_day(perf, rows, id),
    ensures
        perf.team_id == id,
        perf.total_goals as int == team_field_total(rows, id, 0),
        perf.total_assists as int == team_field_total(rows, id, 1),
        perf.total_points as int == team_field_total(rows, id, 2),
{
    lemma_rows_sum_is_field_total(rows, id, 0);
    lemma_rows_sum_is_field_total(rows, id, 1);
    lemma_rows_sum_is_field_total(rows, id, 2);
}

/// Each daily ranking row carries its team's totals over the day's rows:
/// daily goals the sum of the goals fields of the team's rows, daily
/// assists the sum of their assists fields, daily points the sum of their
/// points fields.
pub proof fn lemma_daily_totals_from_rows(rows: Seq<DailyPlayerStat>, r: Seq<DailyRanking>)
    requires
        exists|perfs: Seq<TeamDailyPerformance>| grouped(perfs, rows) && daily_rankings_of(r, perfs),
    ensures
        forall|i: int|
            0 <= i < r.len() ==> {
                &&& (#[trigger] r[i]).daily_goals as int == team_field_total(rows, r[i].team_id, 0)
                &&& r[i].daily_assists as int == team_field_total(rows, r[i].team_id, 1)
                &&& r[i].daily_points as int == team_field_total(rows, r[i].team_id, 2)
            },
{
    let perfs = choose|perfs: Seq<TeamDailyPerformance>| grouped(perfs, rows) && daily_rankings_of(r, perfs);
    let ids = team_ids(rows);
    lemma_daily_rankings_ordered(r, perfs);
    assert forall|i: int| 0 <= i < r.len() implies {
        &&& (#[trigger] r[i]).daily_goals as int == team_field_total(rows, r[i].team_id, 0)
        &&& r[i].daily_assists as int == team_field_total(rows, r[i].team_id, 1)
        &&& r[i].daily_points as int == team_field_total(rows, r[i].team_id, 2)
    } by {
        let k = choose|k: int| 0 <= k < perfs.len() && is_daily_row(r[i], perfs[k], i);
        assert(is_team_day(perfs[k], rows, ids[k]));
        lemma_team_day_totals(perfs[k], rows, ids[k]);
        assert(r[i].daily_goals == perfs[k].total_goals);
        assert(r[i].daily_assists == perfs[k].total_assists);
        assert(r[i].daily_points == perfs[k].total_points);
        assert(r[i].team_id == ids[k]);
    }
}

} // verus!
