//! Fantasy teams' output in one game, from its boxscore.
use vstd::prelude::*;

use crate::domain::models::fantasy::{
    FantasyTeamInGame, PlayerGamePerformance, PlayerInGame, TeamDailyPerformance,
};
use crate::domain::models::nhl::GameBoxscore;
use crate::utils::nhl::{find_player_stats_by_name, player_stats_spec};

verus! {

/// A rostered player's line in the game: goals and assists found in the
/// boxscore (by id, then by last name), points their sum.
pub open spec fn perf_spec(p: PlayerInGame, b: GameBoxscore) -> PlayerGamePerformance {
    let (g, a) = player_stats_spec(b, p.player_name@, Some(p.nhl_id));
    PlayerGamePerformance {
        player_id: p.player_id,
        nhl_id: p.nhl_id,
        player_name: p.player_name,
        nhl_team: p.nhl_team,
        goals: g,
        assists: a,
        points: (g + a) as i32,
    }
}

/// The lines of the players who scored, in roster order.
pub open spec fn scoring_lines(players: Seq<PlayerInGame>, b: GameBoxscore) -> Seq<PlayerGamePerformance>
    decreases players.len(),
{
    if players.len() == 0 {
        Seq::empty()
    } else {
        let prev = scoring_lines(players.drop_last(), b);
        let line = perf_spec(players.last(), b);
        if line.points > 0 {
            prev.push(line)
        } else {
            prev
        }
    }
}

/// Sum of goals (0), assists (1) or points (2) over lines.
pub open spec fn lines_sum(ls: Seq<PlayerGamePerformance>, which: int) -> int
    decreases ls.len(),
{
    if ls.len() == 0 {
        0
    } else {
        lines_sum(ls.drop_last(), which) + if which == 0 {
            ls.last().goals as int
        } else if which == 1 {
            ls.last().assists as int
        } else {
            ls.last().points as int
        }
    }
}

/// Points of a team in the game.
pub open spec fn team_points(t: FantasyTeamInGame, b: GameBoxscore) -> int {
    lines_sum(scoring_lines(t.players@, b), 2)
}

/// The teams that scored, in input order.
pub open spec fn scoring_teams(ts: Seq<FantasyTeamInGame>, b: GameBoxscore) -> Seq<FantasyTeamInGame>
    decreases ts.len(),
{
    if ts.len() == 0 {
        Seq::empty()
    } else {
        let prev = scoring_teams(ts.drop_last(), b);
        if team_points(ts.last(), b) > 0 {
            prev.push(ts.last())
        } else {
            prev
        }
    }
}

/// `r` is the game day of team `t`.
pub open spec fn is_game_day(r: TeamDailyPerformance, t: FantasyTeamInGame, b: GameBoxscore) -> bool {
    let ls = scoring_lines(t.players@, b);
    &&& r.team_id == t.team_id
    &&& r.team_name == t.team_name
    &&& r.player_performances@ == ls
    &&& r.total_goals == lines_sum(ls, 0)
    &&& r.total_assists == lines_sum(ls, 1)
    &&& r.total_points == lines_sum(ls, 2)
}

/// Every player's goals plus assists, and every team's running sums,
/// fit in `i32`.
pub open spec fn game_fits(ts: Seq<FantasyTeamInGame>, b: GameBoxscore) -> bool {
    forall|i: int|
        0 <= i < ts.len() ==> {
            let t = #[trigger] ts[i];
            let ls = scoring_lines(t.players@, b);
            &&& forall|j: int|
                0 <= j < t.players@.len() ==> {
                    let (g, a) = player_stats_spec(
                        b,
                        (#[trigger] t.players@[j]).player_name@,
                        Some(t.players@[j].nhl_id),
                    );
                    i32::MIN <= g + a <= i32::MAX
                }
            &&& forall|k: int|
                #![trigger ls.take(k)]
                0 <= k <= ls.len() ==> i32::MIN <= lines_sum(ls.take(k), 0) <= i32::MAX
                    && i32::MIN <= lines_sum(ls.take(k), 1) <= i32::MAX && i32::MIN <= lines_sum(
                    ls.take(k),
                    2,
                ) <= i32::MAX
        }
}

fn team_lines(t: &FantasyTeamInGame, boxscore: &GameBoxscore) -> (r: Vec<PlayerGamePerformance>)
    requires
        forall|j: int|
            0 <= j < t.players@.len() ==> {
                let (g, a) = player_stats_spec(
                    *boxscore,
                    (#[trigger] t.players@[j]).player_name@,
                    Some(t.players@[j].nhl_id),
                );
                i32::MIN <= g + a <= i32::MAX
            },
    ensures
        r@ == scoring_lines(t.players@, *boxscore),
{
    let mut out: Vec<PlayerGamePerformance> = Vec::new();
    let mut i: usize = 0;
    assert(t.players@.take(0) =~= Seq::<PlayerInGame>::empty());
    while i < t.players.len()
        invariant
            i <= t.players@.len(),
            forall|j: int|
                0 <= j < t.players@.len() ==> {
                    let (g, a) = player_stats_spec(
                        *boxscore,
                        (#[trigger] t.players@[j]).player_name@,
                        Some(t.players@[j].nhl_id),
                    );
                    i32::MIN <= g + a <= i32::MAX
                },
            out@ == scoring_lines(t.players@.take(i as int), *boxscore),
        decreases t.players@.len() - i,
    {
        let p = &t.players[i];
        proof {
            let s = t.players@.take(i + 1);
            assert(s.drop_last() =~= t.players@.take(i as int));
            assert(s.last() == *p);
        }
        let (goals, assists) = find_player_stats_by_name(
            boxscore,
            p.nhl_team.as_str(),
            p.player_name.as_str(),
            Some(p.nhl_id),
        );
        assert(i32::MIN <= goals + assists <= i32::MAX) by {
            assert(t.players@[i as int] == *p);
        }
        let points = goals + assists;
        let line = PlayerGamePerformance {
            player_id: p.player_id,
            nhl_id: p.nhl_id,
            player_name: p.player_name.clone(),
            nhl_team: p.nhl_team.clone(),
            goals,
            assists,
            points,
        };
        assert(line == perf_spec(*p, *boxscore));
        if points > 0 {
            out.push(line);
        }
        i = i + 1;
    }
    assert(t.players@.take(t.players@.len() as int) =~= t.players@);
    out
}

fn sum_lines(ls: &Vec<PlayerGamePerformance>) -> (r: (i32, i32, i32))
    requires
        forall|k: int|
            #![trigger ls@.take(k)]
            0 <= k <= ls@.len() ==> i32::MIN <= lines_sum(ls@.take(k), 0) <= i32::MAX
                && i32::MIN <= lines_sum(ls@.take(k), 1) <= i32::MAX && i32::MIN <= lines_sum(
                ls@.take(k),
                2,
            ) <= i32::MAX,
    ensures
        r.0 == lines_sum(ls@, 0),
        r.1 == lines_sum(ls@, 1),
        r.2 == lines_sum(ls@, 2),
{
    let mut g: i32 = 0;
    let mut a: i32 = 0;
    let mut p: i32 = 0;
    let mut i: usize = 0;
    assert(ls@.take(0) =~= Seq::<PlayerGamePerformance>::empty());
    while i < ls.len()
        invariant
            i <= ls@.len(),
            forall|k: int|
                #![trigger ls@.take(k)]
                0 <= k <= ls@.len() ==> i32::MIN <= lines_sum(ls@.take(k), 0) <= i32::MAX
                    && i32::MIN <= lines_sum(ls@.take(k), 1) <= i32::MAX && i32::MIN <= lines_sum(
                    ls@.take(k),
                    2,
                ) <= i32::MAX,
            g == lines_sum(ls@.take(i as int), 0),
            a == lines_sum(ls@.take(i as int), 1),
            p == lines_sum(ls@.take(i as int), 2),
        decreases ls@.len() - i,
    {
        let e = &ls[i];
        proof {
            let t = ls@.take(i + 1);
            assert(t.drop_last() =~= ls@.take(i as int));
            assert(t.last() == *e);
            assert(i32::MIN <= lines_sum(t, 0) <= i32::MAX);
        }
        g = g + e.goals;
        a = a + e.assists;
        p = p + e.points;
        i = i + 1;
    }
    assert(ls@.take(ls@.len() as int) =~= ls@);
    (g, a, p)
}

/// Each fantasy team's output in one game: its scoring players (goals and
/// assists from the boxscore, by id then last name), their totals, and
/// only the teams that scored.
pub fn process_game_performances(fantasy_teams: &[FantasyTeamInGame], boxscore: &GameBoxscore) -> (r:
    Vec<TeamDailyPerformance>)
    requires
        game_fits(fantasy_teams@, *boxscore),
    ensures
        r@.len() == scoring_teams(fantasy_teams@, *boxscore).len(),
        forall|i: int|
            0 <= i < r@.len() ==> is_game_day(
                #[trigger] r@[i],
                scoring_teams(fantasy_teams@, *boxscore)[i],
                *boxscore,
            ),
{
    let mut out: Vec<TeamDailyPerformance> = Vec::new();
    let mut i: usize = 0;
    assert(fantasy_teams@.take(0) =~= Seq::<FantasyTeamInGame>::empty());
    while i < fantasy_teams.len()
        invariant
            i <= fantasy_teams@.len(),
            game_fits(fantasy_teams@, *boxscore),
            out@.len() == scoring_teams(fantasy_teams@.take(i as int), *boxscore).len(),
            forall|j: int|
                0 <= j < out@.len() ==> is_game_day(
                    #[trigger] out@[j],
                    scoring_teams(fantasy_teams@.take(i as int), *boxscore)[j],
                    *boxscore,
                ),
        decreases fantasy_teams@.len() - i,
    {
        let t = &fantasy_teams[i];
        let ghost prev = scoring_teams(fantasy_teams@.take(i as int), *boxscore);
        proof {
            let s = fantasy_teams@.take(i + 1);
            assert(s.drop_last() =~= fantasy_teams@.take(i as int));
            assert(s.last() == *t);
            assert(fantasy_teams@[i as int] == *t);
        }
        let lines = team_lines(t, boxscore);
        let (goals, assists, points) = sum_lines(&lines);
        if points > 0 {
            let day = TeamDailyPerformance {
                team_id: t.team_id,
                team_name: t.team_name.clone(),
                player_performances: lines,
                total_points: points,
                total_goals: goals,
                total_assists: assists,
            };
            out.push(day);
            proof {
                let now = scoring_teams(fantasy_teams@.take(i + 1), *boxscore);
                assert(now == prev.push(*t));
                assert forall|j: int| 0 <= j < out@.len() implies is_game_day(
                    #[trigger] out@[j],
                    now[j],
                    *boxscore,
                ) by {
                    if j < prev.len() {
                        assert(now[j] == prev[j]);
                    }
                }
            }
        }
        i = i + 1;
    }
    assert(fantasy_teams@.take(fantasy_teams@.len() as int) =~= fantasy_teams@);
    out
}

} // verus!
