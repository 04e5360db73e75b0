//! Row shaping of the playoff ingest.
use vstd::prelude::*;

use crate::calendar::{day_run, day_texts, parse_day, views, ymd_day, ymd_parse};
use crate::domain::models::nhl::{
    games_on, BoxscorePlayer, GameBoxscore, GameState, PlayoffSeriesGame, PlayoffSeriesGames,
    TeamGameStats, TodayGame, TodaySchedule,
};
use crate::error::Error;
use crate::text::{concat2, push_str};

verus! {

/// A skater's line as stored for one playoff game.
#[derive(Debug)]
pub struct SkaterRow {
    pub player_id: i64,
    pub team_abbrev: String,
    pub opponent: String,
    pub home: bool,
    pub goals: i32,
    pub assists: i32,
    pub points: i32,
    pub shots: Option<i32>,
    pub pp_points: Option<i32>,
}

/// A value or a default.
pub open spec fn or_zero(v: Option<i32>) -> i32 {
    match v {
        Some(x) => x,
        None => 0,
    }
}

/// `r` is the stored line of boxscore player `p` playing for `team`
/// against `opponent`: missing goals and assists count as 0, missing
/// points fall back to goals plus assists, the power-play goals stand in
/// for power-play points.
pub open spec fn is_row_of(r: SkaterRow, p: BoxscorePlayer, team: Seq<char>, opponent: Seq<char>, home: bool) -> bool {
    &&& r.player_id == p.player_id as i64
    &&& r.team_abbrev@ == team
    &&& r.opponent@ == opponent
    &&& r.home == home
    &&& r.goals == or_zero(p.goals)
    &&& r.assists == or_zero(p.assists)
    &&& r.points == match p.points {
        Some(x) => x as int,
        None => or_zero(p.goals) + or_zero(p.assists),
    }
    &&& r.shots == p.sog
    &&& r.pp_points == p.power_play_goals
}

/// A player's goals and assists add up within `i32`.
pub open spec fn line_fits(p: BoxscorePlayer) -> bool {
    i32::MIN <= or_zero(p.goals) + or_zero(p.assists) <= i32::MAX
}

/// The stored line of a boxscore player (see [`is_row_of`]).
pub fn boxscore_to_row(player: &BoxscorePlayer, team_abbrev: &str, opponent: &str, home: bool) -> (r:
    SkaterRow)
    requires
        line_fits(*player),
    ensures
        is_row_of(r, *player, team_abbrev@, opponent@, home),
{
    let goals = match player.goals {
        Some(g) => g,
        None => 0,
    };
    let assists = match player.assists {
        Some(a) => a,
        None => 0,
    };
    let fallback = goals + assists;
    let points = match player.points {
        Some(p) => p,
        None => fallback,
    };
    SkaterRow {
        player_id: player.player_id as i64,
        team_abbrev: String::from_str(team_abbrev),
        opponent: String::from_str(opponent),
        home,
        goals,
        assists,
        points,
        shots: player.sog,
        pp_points: player.power_play_goals,
    }
}

/// A completed playoff game: game type 3, state `FINAL` or `OFF`.
pub open spec fn completed_playoff_game(g: TodayGame) -> bool {
    g.game_type == 3 && (g.game_state == GameState::Final || g.game_state == GameState::Off)
}

/// Number of completed playoff games among the games.
pub open spec fn count_completed(gs: Seq<TodayGame>) -> nat
    decreases gs.len(),
{
    if gs.len() == 0 {
        0
    } else {
        count_completed(gs.drop_last()) + if completed_playoff_game(gs.last()) {
            1nat
        } else {
            0nat
        }
    }
}

/// Completed playoff games scheduled on `date`.
pub fn games_for_logging(schedule: &TodaySchedule, date: &str) -> (r: usize)
    ensures
        r == count_completed(games_on(schedule.game_week@, date@)),
{
    let games = schedule.games_for_date(date);
    let mut count: usize = 0;
    let mut i: usize = 0;
    assert(games@.take(0) =~= Seq::<TodayGame>::empty());
    while i < games.len()
        invariant
            i <= games@.len(),
            count == count_completed(games@.take(i as int)),
            count <= i,
        decreases games@.len() - i,
    {
        proof {
            let t = games@.take(i + 1);
            assert(t.drop_last() =~= games@.take(i as int));
            assert(t.last() == games@[i as int]);
        }
        let g = &games[i];
        if g.game_type == 3 && (g.game_state.is_completed()) {
            count = count + 1;
        }
        i = i + 1;
    }
    assert(games@.take(games@.len() as int) =~= games@);
    count
}

/// The dates a range backfill visits, as `YYYY-MM-DD` texts: every day
/// from `start` through `end`, both included. Empty when either end does
/// not parse as a date, or when `end` comes before `start`.
pub fn backfill_dates(start: &str, end: &str) -> (r: Vec<String>)
    ensures
        match (ymd_day(start@), ymd_day(end@)) {
            (Some(s), Some(e)) => day_run(views(r@), s as int, e as int),
            _ => r@.len() == 0,
        },
{
    let s = match parse_day(start) {
        Ok(d) => d,
        Err(_) => {
            return Vec::new();
        },
    };
    let e = match parse_day(end) {
        Ok(d) => d,
        Err(_) => {
            return Vec::new();
        },
    };
    day_texts(s, e)
}

/// Sum of the players' goals, missing goals counting 0.
pub open spec fn goal_sum(ps: Seq<BoxscorePlayer>) -> int
    decreases ps.len(),
{
    if ps.len() == 0 {
        0
    } else {
        goal_sum(ps.drop_last()) + or_zero(ps.last().goals)
    }
}

/// Every running total of the players' goals stays within `i32`.
pub open spec fn goal_sums_fit(ps: Seq<BoxscorePlayer>) -> bool {
    forall|k: int| #![trigger ps.take(k)] 0 <= k <= ps.len() ==> i32::MIN <= goal_sum(ps.take(k)) <= i32::MAX
}

/// The skaters of a team's boxscore: forwards, then defense.
pub open spec fn skaters(t: TeamGameStats) -> Seq<BoxscorePlayer> {
    t.forwards@ + t.defense@
}

fn sum_goals(ps: &Vec<BoxscorePlayer>, start: i32) -> (r: i32)
    requires
        forall|k: int|
            #![trigger ps@.take(k)]
            0 <= k <= ps@.len() ==> i32::MIN <= start + goal_sum(ps@.take(k)) <= i32::MAX,
    ensures
        r == start + goal_sum(ps@),
{
    let mut acc: i32 = start;
    let mut i: usize = 0;
    assert(ps@.take(0) =~= Seq::<BoxscorePlayer>::empty());
    while i < ps.len()
        invariant
            i <= ps@.len(),
            acc == start + goal_sum(ps@.take(i as int)),
            forall|k: int|
                #![trigger ps@.take(k)]
                0 <= k <= ps@.len() ==> i32::MIN <= start + goal_sum(ps@.take(k)) <= i32::MAX,
        decreases ps@.len() - i,
    {
        proof {
            let t = ps@.take(i + 1);
            assert(t.drop_last() =~= ps@.take(i as int));
            assert(i32::MIN <= start + goal_sum(t) <= i32::MAX);
        }
        let g = match ps[i].goals {
            Some(g) => g,
            None => 0,
        };
        acc = acc + g;
        i = i + 1;
    }
    assert(ps@.take(ps@.len() as int) =~= ps@);
    acc
}

proof fn lemma_goal_sum_append(a: Seq<BoxscorePlayer>, b: Seq<BoxscorePlayer>)
    ensures
        goal_sum(a + b) == goal_sum(a) + goal_sum(b),
    decreases b.len(),
{
    if b.len() == 0 {
        assert(a + b =~= a);
    } else {
        lemma_goal_sum_append(a, b.drop_last());
        assert((a + b).drop_last() =~= a + b.drop_last());
    }
}

/// Goals of a team's skaters (forwards and defense), missing goals
/// counting 0.
fn team_goals(t: &TeamGameStats) -> (r: i32)
    requires
        goal_sums_fit(skaters(*t)),
    ensures
        r == goal_sum(skaters(*t)),
{
    let ghost f = t.forwards@;
    let ghost d = t.defense@;
    assert forall|k: int| #![trigger f.take(k)] 0 <= k <= f.len() implies i32::MIN <= 0 + goal_sum(
        f.take(k),
    ) <= i32::MAX by {
        assert(skaters(*t).take(k) =~= f.take(k));
    }
    let g = sum_goals(&t.forwards, 0);
    assert forall|k: int| #![trigger d.take(k)] 0 <= k <= d.len() implies i32::MIN <= g + goal_sum(
        d.take(k),
    ) <= i32::MAX by {
        assert(skaters(*t).take(f.len() + k) =~= f + d.take(k));
        assert(f.take(f.len() as int) =~= f);
        lemma_goal_sum_append(f, d.take(k));
    }
    let r = sum_goals(&t.defense, g);
    proof {
        lemma_goal_sum_append(f, d);
        assert(f.take(f.len() as int) =~= f);
        assert(d.take(d.len() as int) =~= d);
    }
    r
}

/// The team-level result row of a playoff game.
#[derive(Debug)]
pub struct GameResultRow {
    pub season: i32,
    pub game_type: i16,
    pub game_id: i64,
    pub game_date: String,
    pub home_team: String,
    pub away_team: String,
    pub home_score: i32,
    pub away_score: i32,
    pub winner: String,
    pub round: Option<i16>,
}

/// The final score of a game, home first: the schedule's score when it
/// has one, else the goals of each side's skaters in the boxscore.
pub open spec fn final_score(game: TodayGame, b: GameBoxscore) -> (int, int) {
    match game.game_score {
        Some(s) => (s.home as int, s.away as int),
        None => (
            goal_sum(skaters(b.player_by_game_stats.home_team)),
            goal_sum(skaters(b.player_by_game_stats.away_team)),
        ),
    }
}

/// The skater lines of a boxscore in stored order: away forwards, away
/// defense, home forwards, home defense, each as [`is_row_of`] its
/// player, for its side and against the other.
pub open spec fn game_lines(rows: Seq<SkaterRow>, game: TodayGame, b: GameBoxscore) -> bool {
    let away = skaters(b.player_by_game_stats.away_team);
    let home = skaters(b.player_by_game_stats.home_team);
    let a = game.away_team.abbrev@;
    let h = game.home_team.abbrev@;
    &&& rows.len() == away.len() + home.len()
    &&& forall|i: int| 0 <= i < away.len() ==> is_row_of(#[trigger] rows[i], away[i], a, h, false)
    &&& forall|i: int|
        0 <= i < home.len() ==> is_row_of(#[trigger] rows[away.len() + i], home[i], h, a, true)
}

/// What an ingest can compute of a game without overflowing: the
/// skaters' lines, and the boxscore goal totals when the schedule has no
/// score.
pub open spec fn ingest_fits(game: TodayGame, b: GameBoxscore) -> bool {
    let away = skaters(b.player_by_game_stats.away_team);
    let home = skaters(b.player_by_game_stats.home_team);
    &&& forall|i: int| 0 <= i < away.len() ==> line_fits(#[trigger] away[i])
    &&& forall|i: int| 0 <= i < home.len() ==> line_fits(#[trigger] home[i])
    &&& game.game_score is None ==> goal_sums_fit(home) && goal_sums_fit(away)
}

fn push_lines(
    out: &mut Vec<SkaterRow>,
    ps: &Vec<BoxscorePlayer>,
    team: &str,
    opponent: &str,
    home: bool,
)
    requires
        forall|i: int| 0 <= i < ps@.len() ==> line_fits(#[trigger] ps@[i]),
    ensures
        final(out)@.len() == old(out)@.len() + ps@.len(),
        forall|i: int| 0 <= i < old(out)@.len() ==> #[trigger] final(out)@[i] == old(out)@[i],
        forall|i: int|
            0 <= i < ps@.len() ==> is_row_of(
                #[trigger] final(out)@[old(out)@.len() + i],
                ps@[i],
                team@,
                opponent@,
                home,
            ),
{
    let ghost start = old(out)@;
    let mut i: usize = 0;
    while i < ps.len()
        invariant
            i <= ps@.len(),
            out@.len() == start.len() + i,
            forall|j: int| 0 <= j < start.len() ==> #[trigger] out@[j] == start[j],
            forall|j: int|
                0 <= j < i ==> is_row_of(#[trigger] out@[start.len() + j], ps@[j], team@, opponent@, home),
            forall|j: int| 0 <= j < ps@.len() ==> line_fits(#[trigger] ps@[j]),
        decreases ps@.len() - i,
    {
        let row = boxscore_to_row(&ps[i], team, opponent, home);
        out.push(row);
        i = i + 1;
    }
}

/// The rows an ingest writes for one completed playoff game on `date`:
/// its result row (the schedule's score, else the skaters' goals; the
/// home team wins only with more goals; the round from the series
/// status) and its skater lines. A date that does not parse is an
/// internal error carrying chrono's message.
pub fn prepare_game_ingest(date: &str, game: &TodayGame, box_score: &GameBoxscore) -> (r: Result<
    (GameResultRow, Vec<SkaterRow>),
    Error,
>)
    requires
        ingest_fits(*game, *box_score),
    ensures
        match ymd_parse(date@) {
            Err(reason) => r matches Err(Error::Internal(m)) && m@ == "bad date "@ + date@ + ": "@
                + reason,
            Ok(_) => r matches Ok((row, lines)) && {
                let (hs, aws) = final_score(*game, *box_score);
                &&& row.season == game.season as i32
                &&& row.game_type == game.game_type as i16
                &&& row.game_id == game.id as i64
                &&& row.game_date@ == date@
                &&& row.home_team@ == game.home_team.abbrev@
                &&& row.away_team@ == game.away_team.abbrev@
                &&& row.home_score == hs
                &&& row.away_score == aws
                &&& row.winner@ == if hs > aws {
                    game.home_team.abbrev@
                } else {
                    game.away_team.abbrev@
                }
                &&& row.round == match game.series_status {
                    Some(st) => Some(st.round as i16),
                    None => None,
                }
                &&& game_lines(lines@, *game, *box_score)
            },
        },
{
    match parse_day(date) {
        Ok(_) => {},
        Err(reason) => {
            let mut m = concat2("bad date ", date);
            push_str(&mut m, ": ");
            push_str(&mut m, reason.as_str());
            return Err(Error::Internal(m));
        },
    }
    let home = &box_score.player_by_game_stats.home_team;
    let away = &box_score.player_by_game_stats.away_team;
    let (home_score, away_score) = match &game.game_score {
        Some(s) => (s.home, s.away),
        None => (team_goals(home), team_goals(away)),
    };
    let home_abbrev = game.home_team.abbrev.clone();
    let away_abbrev = game.away_team.abbrev.clone();
    let winner = if home_score > away_score {
        home_abbrev.clone()
    } else {
        away_abbrev.clone()
    };
    let round: Option<i16> = match &game.series_status {
        Some(st) => Some(st.round as i16),
        None => None,
    };
    let row = GameResultRow {
        season: game.season as i32,
        game_type: game.game_type as i16,
        game_id: game.id as i64,
        game_date: String::from_str(date),
        home_team: home_abbrev,
        away_team: away_abbrev,
        home_score,
        away_score,
        winner,
        round,
    };
    let mut lines: Vec<SkaterRow> = Vec::new();
    proof {
        let aw = skaters(*away);
        let hm = skaters(*home);
        assert forall|i: int| 0 <= i < away.forwards@.len() implies line_fits(#[trigger] away.forwards@[i]) by {
            assert(aw[i] == away.forwards@[i]);
        }
        assert forall|i: int| 0 <= i < away.defense@.len() implies line_fits(#[trigger] away.defense@[i]) by {
            assert(aw[away.forwards@.len() + i] == away.defense@[i]);
        }
        assert forall|i: int| 0 <= i < home.forwards@.len() implies line_fits(#[trigger] home.forwards@[i]) by {
            assert(hm[i] == home.forwards@[i]);
        }
        assert forall|i: int| 0 <= i < home.defense@.len() implies line_fits(#[trigger] home.defense@[i]) by {
            assert(hm[home.forwards@.len() + i] == home.defense@[i]);
        }
    }
    let a = game.away_team.abbrev.as_str();
    let h = game.home_team.abbrev.as_str();
    push_lines(&mut lines, &away.forwards, a, h, false);
    let ghost l1 = lines@;
    push_lines(&mut lines, &away.defense, a, h, false);
    let ghost l2 = lines@;
    push_lines(&mut lines, &home.forwards, h, a, true);
    let ghost l3 = lines@;
    push_lines(&mut lines, &home.defense, h, a, true);
    proof {
        let aw = skaters(*away);
        let hm = skaters(*home);
        let af = away.forwards@.len();
        let ad = away.defense@.len();
        let hf = home.forwards@.len();
        assert forall|i: int| 0 <= i < aw.len() implies is_row_of(
            #[trigger] lines@[i],
            aw[i],
            game.away_team.abbrev@,
            game.home_team.abbrev@,
            false,
        ) by {
            if i < af {
                assert(aw[i] == away.forwards@[i]);
                assert(l1[i] == l1[0 + i]);
                assert(lines@[i] == l3[i] && l3[i] == l2[i] && l2[i] == l1[i]);
            } else {
                assert(aw[i] == away.defense@[i - af]);
                assert(l2[i] == l2[af + (i - af)]);
                assert(lines@[i] == l3[i] && l3[i] == l2[i]);
            }
        }
        assert forall|i: int| 0 <= i < hm.len() implies is_row_of(
            #[trigger] lines@[aw.len() + i],
            hm[i],
            game.home_team.abbrev@,
            game.away_team.abbrev@,
            true,
        ) by {
            if i < hf {
                assert(hm[i] == home.forwards@[i]);
                assert(lines@[aw.len() + i] == l3[af + ad + i]);
            } else {
                assert(hm[i] == home.defense@[i - hf]);
                assert(lines@[aw.len() + i] == lines@[af + ad + hf + (i - hf)]);
            }
        }
    }
    Ok((row, lines))
}


// ---------------------------------------------------------------------------
// Results from a series' game list
// ---------------------------------------------------------------------------

/// The first ten characters of `t` are ASCII, so that its first ten bytes
/// are they.
pub open spec fn ascii_date_prefix(t: Seq<char>) -> bool {
    &&& t.len() >= 10
    &&& forall|i: int| 0 <= i < 10 ==> (#[trigger] t[i] as u32) < 128
}

/// The series game counts as a result: it is over and both scores and
/// its start time are known.
pub open spec fn series_game_counts(g: PlayoffSeriesGame) -> bool {
    &&& (g.game_state == GameState::Final || g.game_state == GameState::Off)
    &&& g.home_team.score is Some
    &&& g.away_team.score is Some
    &&& g.start_time_utc is Some
}

/// The start time of a counted game begins with an ASCII date.
pub open spec fn series_game_dated(g: PlayoffSeriesGame) -> bool {
    series_game_counts(g) ==> ascii_date_prefix(g.start_time_utc->0@)
}

/// `row` is the result row of counted series game `g` of round
/// `round_number` in `season`.
pub open spec fn is_series_result(row: GameResultRow, season: u32, round_number: i64, g: PlayoffSeriesGame) -> bool {
    let hs = g.home_team.score->0;
    let aws = g.away_team.score->0;
    &&& row.season == season as i32
    &&& row.game_type == 3
    &&& row.game_id == g.id as i64
    &&& row.game_date@ == g.start_time_utc->0@.take(10)
    &&& row.home_team == g.home_team.abbrev
    &&& row.away_team == g.away_team.abbrev
    &&& row.home_score == hs
    &&& row.away_score == aws
    &&& row.winner == if hs > aws {
        g.home_team.abbrev
    } else {
        g.away_team.abbrev
    }
    &&& row.round == Some(round_number as i16)
}

/// The result row a carousel backfill writes for one game of a series in
/// round `round_number`: none unless the game is over with both scores
/// and its start time known; the date is the start time's first ten
/// characters, the home team wins only with more goals.
pub fn series_game_result(season: u32, round_number: i64, game: &PlayoffSeriesGame) -> (r: Option<GameResultRow>)
    requires
        series_game_dated(*game),
    ensures
        match r {
            Some(row) => series_game_counts(*game) && is_series_result(row, season, round_number, *game),
            None => !series_game_counts(*game),
        },
{
    if !game.game_state.is_completed() {
        return None;
    }
    let (home_score, away_score) = match (game.home_team.score, game.away_team.score) {
        (Some(h), Some(a)) => (h, a),
        _ => {
            return None;
        },
    };
    let start = match &game.start_time_utc {
        Some(t) => t,
        None => {
            return None;
        },
    };
    let date = start.as_str().substring_char(0, 10);
    let winner = if home_score > away_score {
        game.home_team.abbrev.clone()
    } else {
        game.away_team.abbrev.clone()
    };
    proof {
        assert(date@ =~= start@.take(10));
    }
    Some(
        GameResultRow {
            season: season as i32,
            game_type: 3,
            game_id: game.id as i64,
            game_date: String::from_str(date),
            home_team: game.home_team.abbrev.clone(),
            away_team: game.away_team.abbrev.clone(),
            home_score,
            away_score,
            winner,
            round: Some(round_number as i16),
        },
    )
}

/// The counted games of a series' game list, in list order.
pub open spec fn counted_games(gs: Seq<PlayoffSeriesGame>) -> Seq<PlayoffSeriesGame>
    decreases gs.len(),
{
    if gs.len() == 0 {
        Seq::empty()
    } else if series_game_counts(gs.last()) {
        counted_games(gs.drop_last()).push(gs.last())
    } else {
        counted_games(gs.drop_last())
    }
}

/// The result rows of a series' game list in round `round_number`: one
/// per counted game (see [`series_game_result`]), in list order.
pub fn series_results(season: u32, round_number: i64, series: &PlayoffSeriesGames) -> (r: Vec<GameResultRow>)
    requires
        forall|i: int| 0 <= i < series.games@.len() ==> series_game_dated(#[trigger] series.games@[i]),
    ensures
        r@.len() == counted_games(series.games@).len(),
        forall|i: int|
            0 <= i < r@.len() ==> is_series_result(
                #[trigger] r@[i],
                season,
                round_number,
                counted_games(series.games@)[i],
            ),
{
    let games = &series.games;
    let mut out: Vec<GameResultRow> = Vec::new();
    let mut k: usize = 0;
    assert(games@.take(0) =~= Seq::<PlayoffSeriesGame>::empty());
    while k < games.len()
        invariant
            k <= games@.len(),
            forall|i: int| 0 <= i < games@.len() ==> series_game_dated(#[trigger] games@[i]),
            out@.len() == counted_games(games@.take(k as int)).len(),
            forall|i: int|
                0 <= i < out@.len() ==> is_series_result(
                    #[trigger] out@[i],
                    season,
                    round_number,
                    counted_games(games@.take(k as int))[i],
                ),
        decreases games@.len() - k,
    {
        proof {
            let t = games@.take(k + 1);
            assert(t.drop_last() =~= games@.take(k as int));
            assert(t.last() == games@[k as int]);
        }
        match series_game_result(season, round_number, &games[k]) {
            Some(row) => {
                out.push(row);
            },
            None => {},
        }
        k = k + 1;
    }
    assert(games@.take(games@.len() as int) =~= games@);
    out
}

} // verus!
