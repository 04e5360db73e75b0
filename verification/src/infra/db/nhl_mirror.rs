//! Rows of the NHL mirror tables: a game's player lines from its
//! boxscore, and the merges of the skater and goalie leaderboards'
//! categories into one row per player.
use vstd::prelude::*;

use crate::domain::models::nhl::{BoxscorePlayer, GameBoxscore, TeamGameStats};
use crate::utils::playoff_ingest::{line_fits, or_zero};
use crate::text::{concat3, dec_int, push_i64, push_str, trim_owned, trim_white};

verus! {

/// A league's rostered player's line for one date.
#[derive(Debug)]
pub struct LeagueTeamPlayerDailyRow {
    pub team_id: i64,
    pub team_name: String,
    pub nhl_id: i64,
    pub player_name: String,
    pub nhl_team: String,
    pub goals: i32,
    pub assists: i32,
    pub points: i32,
}

/// A skater's season line.
#[derive(Debug)]
pub struct SkaterSeasonRow {
    pub player_id: i64,
    pub first_name: String,
    pub last_name: String,
    pub team_abbrev: String,
    pub position: String,
    pub goals: i32,
    pub assists: i32,
    pub points: i32,
}

/// A skater's line in one game.
#[derive(Debug)]
pub struct PlayerGameStatRow {
    pub game_id: i64,
    pub player_id: i64,
    pub team_abbrev: String,
    pub position: String,
    pub name: String,
    pub goals: i32,
    pub assists: i32,
    pub points: i32,
    pub toi_seconds: Option<i32>,
}

/// A skater's recent form.
#[derive(Debug)]
pub struct PlayerFormRow {
    pub player_id: i64,
    pub games: i64,
    pub goals: i64,
    pub assists: i64,
    pub points: i64,
    pub latest_toi_seconds: Option<i32>,
}

/// A skater's playoff totals.
#[derive(Debug)]
pub struct PlayerPlayoffTotalsRow {
    pub player_id: i64,
    pub games: i64,
    pub goals: i64,
    pub assists: i64,
    pub points: i64,
}

/// A fantasy team's season totals.
#[derive(Debug)]
pub struct LeagueTeamSeasonTotalsRow {
    pub team_id: i64,
    pub team_name: String,
    pub goals: i64,
    pub assists: i64,
    pub points: i64,
}

// ---------------------------------------------------------------------------
// A game's player lines
// ---------------------------------------------------------------------------

/// A player's stored line for one game of the mirror.
#[derive(Debug)]
pub struct BoxscorePlayerRow {
    pub game_id: i64,
    pub player_id: i64,
    pub team_abbrev: String,
    pub position: String,
    pub name: String,
    pub goals: i32,
    pub assists: i32,
    pub points: i32,
    pub sog: Option<i32>,
    pub pim: Option<i32>,
    pub plus_minus: Option<i32>,
    pub hits: Option<i32>,
}

/// Every player of a team's boxscore: forwards, defense, then goalies.
pub open spec fn team_lines(t: TeamGameStats) -> Seq<BoxscorePlayer> {
    t.forwards@ + t.defense@ + t.goalies@
}

/// The stored name of a boxscore player: his default name, or
/// `Player <id>` where the boxscore gives none.
pub open spec fn mirror_name(p: BoxscorePlayer) -> Seq<char> {
    if p.name.default@.len() == 0 {
        "Player "@ + dec_int(p.player_id as int)
    } else {
        p.name.default@
    }
}

/// `r` is the mirror line of player `p` of `team` in game `game_id`:
/// missing goals and assists count 0, missing points fall back to goals
/// plus assists, the other counters are kept as they come.
pub open spec fn is_mirror_line(r: BoxscorePlayerRow, game_id: i64, team: Seq<char>, p: BoxscorePlayer) -> bool {
    &&& r.game_id == game_id
    &&& r.player_id == p.player_id as i64
    &&& r.team_abbrev@ == team
    &&& r.position == p.position
    &&& r.name@ == mirror_name(p)
    &&& r.goals == or_zero(p.goals)
    &&& r.assists == or_zero(p.assists)
    &&& r.points == match p.points {
        Some(x) => x as int,
        None => or_zero(p.goals) + or_zero(p.assists),
    }
    &&& r.sog == p.sog
    &&& r.pim == p.pim
    &&& r.plus_minus == p.plus_minus
    &&& r.hits == p.hits
}

fn mirror_line(game_id: i64, team: &str, p: &BoxscorePlayer) -> (r: BoxscorePlayerRow)
    requires
        line_fits(*p),
    ensures
        is_mirror_line(r, game_id, team@, *p),
{
    let goals = match p.goals {
        Some(g) => g,
        None => 0,
    };
    let assists = match p.assists {
        Some(a) => a,
        None => 0,
    };
    let points = match p.points {
        Some(x) => x,
        None => goals + assists,
    };
    let name = if p.name.default.unicode_len() == 0 {
        let mut n = String::from_str("Player ");
        push_i64(&mut n, p.player_id as i64);
        n
    } else {
        p.name.default.clone()
    };
    BoxscorePlayerRow {
        game_id,
        player_id: p.player_id as i64,
        team_abbrev: String::from_str(team),
        position: p.position.clone(),
        name,
        goals,
        assists,
        points,
        sog: p.sog,
        pim: p.pim,
        plus_minus: p.plus_minus,
        hits: p.hits,
    }
}

fn push_mirror_lines(out: &mut Vec<BoxscorePlayerRow>, game_id: i64, team: &str, ps: &Vec<BoxscorePlayer>)
    requires
        forall|i: int| 0 <= i < ps@.len() ==> line_fits(#[trigger] ps@[i]),
    ensures
        final(out)@.len() == old(out)@.len() + ps@.len(),
        forall|i: int| 0 <= i < old(out)@.len() ==> #[trigger] final(out)@[i] == old(out)@[i],
        forall|i: int|
            0 <= i < ps@.len() ==> is_mirror_line(#[trigger] final(out)@[old(out)@.len() + i], game_id, team@, ps@[i]),
{
    let ghost start = old(out)@;
    let mut i: usize = 0;
    while i < ps.len()
        invariant
            i <= ps@.len(),
            out@.len() == start.len() + i,
            forall|j: int| 0 <= j < start.len() ==> #[trigger] out@[j] == start[j],
            forall|j: int| 0 <= j < i ==> is_mirror_line(#[trigger] out@[start.len() + j], game_id, team@, ps@[j]),
            forall|j: int| 0 <= j < ps@.len() ==> line_fits(#[trigger] ps@[j]),
        decreases ps@.len() - i,
    {
        let row = mirror_line(game_id, team, &ps[i]);
        out.push(row);
        i = i + 1;
    }
}

fn push_team_lines(out: &mut Vec<BoxscorePlayerRow>, game_id: i64, team: &str, t: &TeamGameStats)
    requires
        forall|i: int| 0 <= i < team_lines(*t).len() ==> line_fits(#[trigger] team_lines(*t)[i]),
    ensures
        final(out)@.len() == old(out)@.len() + team_lines(*t).len(),
        forall|i: int| 0 <= i < old(out)@.len() ==> #[trigger] final(out)@[i] == old(out)@[i],
        forall|i: int|
            0 <= i < team_lines(*t).len() ==> is_mirror_line(
                #[trigger] final(out)@[old(out)@.len() + i],
                game_id,
                team@,
                team_lines(*t)[i],
            ),
{
    let ghost all = team_lines(*t);
    let ghost f = t.forwards@;
    let ghost d = t.defense@;
    let ghost g = t.goalies@;
    let ghost start = old(out)@;
    assert forall|i: int| 0 <= i < f.len() implies line_fits(#[trigger] f[i]) by {
        assert(all[i] == f[i]);
    }
    assert forall|i: int| 0 <= i < d.len() implies line_fits(#[trigger] d[i]) by {
        assert(all[f.len() + i] == d[i]);
    }
    assert forall|i: int| 0 <= i < g.len() implies line_fits(#[trigger] g[i]) by {
        assert(all[f.len() + d.len() + i] == g[i]);
    }
    push_mirror_lines(out, game_id, team, &t.forwards);
    let ghost after_f = out@;
    push_mirror_lines(out, game_id, team, &t.defense);
    let ghost after_d = out@;
    push_mirror_lines(out, game_id, team, &t.goalies);
    assert forall|i: int| 0 <= i < all.len() implies is_mirror_line(
        #[trigger] out@[start.len() + i],
        game_id,
        team@,
        all[i],
    ) by {
        if i < f.len() {
            assert(all[i] == f[i]);
            assert(is_mirror_line(after_f[start.len() + i], game_id, team@, f[i]));
            assert(out@[start.len() + i] == after_d[start.len() + i]);
            assert(after_d[start.len() + i] == after_f[start.len() + i]);
        } else if i < f.len() + d.len() {
            let k = i - f.len();
            assert(all[i] == d[k]);
            assert(start.len() + i == after_f.len() + k);
            assert(is_mirror_line(after_d[after_f.len() + k], game_id, team@, d[k]));
            assert(out@[start.len() + i] == after_d[after_f.len() + k]);
        } else {
            let k = i - f.len() - d.len();
            assert(all[i] == g[k]);
            assert(start.len() + i == after_d.len() + k);
            assert(is_mirror_line(out@[after_d.len() + k], game_id, team@, g[k]));
        }
    }
}

/// The mirror lines of a game's boxscore: the home team's forwards,
/// defense and goalies, then the away team's, each under its team's
/// abbreviation.
pub fn boxscore_player_rows(game_id: i64, home_abbrev: &str, away_abbrev: &str, boxscore: &GameBoxscore) -> (r: Vec<BoxscorePlayerRow>)
    requires
        forall|i: int|
            0 <= i < team_lines(boxscore.player_by_game_stats.home_team).len() ==> line_fits(
                #[trigger] team_lines(boxscore.player_by_game_stats.home_team)[i],
            ),
        forall|i: int|
            0 <= i < team_lines(boxscore.player_by_game_stats.away_team).len() ==> line_fits(
                #[trigger] team_lines(boxscore.player_by_game_stats.away_team)[i],
            ),
    ensures
        ({
            let home = team_lines(boxscore.player_by_game_stats.home_team);
            let away = team_lines(boxscore.player_by_game_stats.away_team);
            &&& r@.len() == home.len() + away.len()
            &&& forall|i: int| 0 <= i < home.len() ==> is_mirror_line(#[trigger] r@[i], game_id, home_abbrev@, home[i])
            &&& forall|i: int|
                0 <= i < away.len() ==> is_mirror_line(#[trigger] r@[home.len() + i], game_id, away_abbrev@, away[i])
        }),
{
    let mut out: Vec<BoxscorePlayerRow> = Vec::new();
    push_team_lines(&mut out, game_id, home_abbrev, &boxscore.player_by_game_stats.home_team);
    let ghost after_home = out@;
    push_team_lines(&mut out, game_id, away_abbrev, &boxscore.player_by_game_stats.away_team);
    proof {
        let home = team_lines(boxscore.player_by_game_stats.home_team);
        assert forall|i: int| 0 <= i < home.len() implies is_mirror_line(#[trigger] out@[i], game_id, home_abbrev@, home[i]) by {
            assert(out@[i] == after_home[i]);
            assert(after_home[0 + i] == after_home[i]);
        }
    }
    out
}

// ---------------------------------------------------------------------------
// Skater leaderboard merge
// ---------------------------------------------------------------------------

/// One entry of a skater leaderboard category: who, and the category's
/// value for him read as an integer.
#[derive(Debug)]
pub struct LeaderEntry {
    pub player_id: i64,
    pub first_name: String,
    pub last_name: String,
    pub team: String,
    pub position: String,
    pub value: i32,
}

impl Clone for LeaderEntry {
    fn clone(&self) -> (r: Self)
        ensures
            r == *self,
    {
        LeaderEntry {
            player_id: self.player_id,
            first_name: self.first_name.clone(),
            last_name: self.last_name.clone(),
            team: self.team.clone(),
            position: self.position.clone(),
            value: self.value,
        }
    }
}

/// The skater leaderboard categories the mirror stores. Faceoff leaders
/// only bring players in: their percentage is not an integer and is
/// attached by the caller.
#[derive(Debug)]
pub struct SkaterLeaderboard {
    pub goals: Vec<LeaderEntry>,
    pub assists: Vec<LeaderEntry>,
    pub points: Vec<LeaderEntry>,
    pub plus_minus: Vec<LeaderEntry>,
    pub faceoff_leaders: Vec<LeaderEntry>,
    pub toi: Vec<LeaderEntry>,
}

/// A skater's merged season row.
#[derive(Debug)]
pub struct SkaterLeaderboardRow {
    pub player_id: i64,
    pub first_name: String,
    pub last_name: String,
    pub team: String,
    pub position: String,
    pub goals: i32,
    pub assists: i32,
    pub points: i32,
    pub plus_minus: Option<i32>,
    /// Time on ice per game, in seconds.
    pub toi_per_game: Option<i32>,
    pub headshot_url: String,
}

/// Some entry of `s` is for player `id`.
pub open spec fn has_player(s: Seq<LeaderEntry>, id: i64) -> bool {
    exists|i: int| 0 <= i < s.len() && #[trigger] s[i].player_id == id
}

/// `d` followed by the entries of `s` whose player is not yet listed,
/// each player at his first entry.
pub open spec fn add_new_players(d: Seq<LeaderEntry>, s: Seq<LeaderEntry>) -> Seq<LeaderEntry>
    decreases s.len(),
{
    if s.len() == 0 {
        d
    } else {
        let p = add_new_players(d, s.drop_last());
        if has_player(p, s.last().player_id) {
            p
        } else {
            p.push(s.last())
        }
    }
}

/// Each player of the leaderboard once, at his first entry, taking the
/// categories in the order goals, assists, points, plus-minus, faceoffs,
/// time on ice.
pub open spec fn leaderboard_players(b: SkaterLeaderboard) -> Seq<LeaderEntry> {
    let d1 = add_new_players(Seq::empty(), b.goals@);
    let d2 = add_new_players(d1, b.assists@);
    let d3 = add_new_players(d2, b.points@);
    let d4 = add_new_players(d3, b.plus_minus@);
    let d5 = add_new_players(d4, b.faceoff_leaders@);
    add_new_players(d5, b.toi@)
}

/// The value of the last entry of `s` for player `id`.
pub open spec fn last_value(s: Seq<LeaderEntry>, id: i64) -> Option<i32>
    decreases s.len(),
{
    if s.len() == 0 {
        None
    } else if s.last().player_id == id {
        Some(s.last().value)
    } else {
        last_value(s.drop_last(), id)
    }
}

/// A value or 0.
pub open spec fn value_or_zero(v: Option<i32>) -> i32 {
    match v {
        Some(x) => x,
        None => 0,
    }
}

/// The headshot address stored with a skater's season row.
pub open spec fn season_headshot(season: i32, team: Seq<char>, id: i64) -> Seq<char> {
    "https://assets.nhle.com/mugs/nhl/"@ + dec_int(season as int) + "/"@ + team + "/"@ + dec_int(
        id as int,
    ) + ".png"@
}

/// `r` is the season row of player `e` (his first leaderboard entry).
pub open spec fn is_season_row(r: SkaterLeaderboardRow, e: LeaderEntry, b: SkaterLeaderboard, season: i32) -> bool {
    let id = e.player_id;
    &&& r.player_id == id
    &&& r.first_name == e.first_name
    &&& r.last_name == e.last_name
    &&& r.team == e.team
    &&& r.position == e.position
    &&& r.goals == value_or_zero(last_value(b.goals@, id))
    &&& r.assists == value_or_zero(last_value(b.assists@, id))
    &&& r.points == value_or_zero(last_value(b.points@, id))
    &&& r.plus_minus == last_value(b.plus_minus@, id)
    &&& r.toi_per_game == last_value(b.toi@, id)
    &&& r.headshot_url@ == season_headshot(season, e.team@, id)
}

fn has_player_exec(d: &Vec<LeaderEntry>, id: i64) -> (r: bool)
    ensures
        r == has_player(d@, id),
{
    let mut i: usize = 0;
    while i < d.len()
        invariant
            i <= d@.len(),
            forall|j: int| 0 <= j < i ==> #[trigger] d@[j].player_id != id,
        decreases d@.len() - i,
    {
        if d[i].player_id == id {
            assert(d@[i as int].player_id == id);
            return true;
        }
        i = i + 1;
    }
    false
}

pub(crate) fn add_new_players_exec(d: &mut Vec<LeaderEntry>, s: &Vec<LeaderEntry>)
    ensures
        final(d)@ == add_new_players(old(d)@, s@),
{
    let ghost start = old(d)@;
    let mut i: usize = 0;
    assert(s@.take(0) =~= Seq::<LeaderEntry>::empty());
    while i < s.len()
        invariant
            i <= s@.len(),
            d@ == add_new_players(start, s@.take(i as int)),
        decreases s@.len() - i,
    {
        proof {
            let t = s@.take(i + 1);
            assert(t.drop_last() =~= s@.take(i as int));
            assert(t.last() == s@[i as int]);
        }
        if !has_player_exec(d, s[i].player_id) {
            d.push(s[i].clone());
        }
        i = i + 1;
    }
    assert(s@.take(s@.len() as int) =~= s@);
}

fn last_value_exec(s: &Vec<LeaderEntry>, id: i64) -> (r: Option<i32>)
    ensures
        r == last_value(s@, id),
{
    let mut k: usize = s.len();
    assert(s@.take(k as int) =~= s@);
    while k > 0
        invariant
            k <= s@.len(),
            last_value(s@, id) == last_value(s@.take(k as int), id),
        decreases k,
    {
        let t = Ghost(s@.take(k as int));
        assert(t@.drop_last() =~= s@.take(k - 1));
        if s[k - 1].player_id == id {
            return Some(s[k - 1].value);
        }
        k = k - 1;
    }
    None
}

/// The mirror's season rows of a skater leaderboard: one row per player,
/// in order of first appearance over the categories (goals, assists,
/// points, plus-minus, faceoffs, time on ice), named after that first
/// entry; each counter from the player's last entry in its category (0 for
/// goals, assists and points, nothing for plus-minus and time on ice,
/// where he is absent); and the headshot address of `season`.
pub fn merge_skater_leaderboard(season: i32, board: &SkaterLeaderboard) -> (r: Vec<SkaterLeaderboardRow>)
    ensures
        r@.len() == leaderboard_players(*board).len(),
        forall|i: int|
            0 <= i < r@.len() ==> is_season_row(
                #[trigger] r@[i],
                leaderboard_players(*board)[i],
                *board,
                season,
            ),
{
    let mut players: Vec<LeaderEntry> = Vec::new();
    add_new_players_exec(&mut players, &board.goals);
    add_new_players_exec(&mut players, &board.assists);
    add_new_players_exec(&mut players, &board.points);
    add_new_players_exec(&mut players, &board.plus_minus);
    add_new_players_exec(&mut players, &board.faceoff_leaders);
    add_new_players_exec(&mut players, &board.toi);
    let ghost all = players@;
    assert(all == leaderboard_players(*board));
    let mut out: Vec<SkaterLeaderboardRow> = Vec::new();
    let mut i: usize = 0;
    while i < players.len()
        invariant
            all == players@,
            all == leaderboard_players(*board),
            i <= all.len(),
            out@.len() == i,
            forall|j: int| 0 <= j < i ==> is_season_row(#[trigger] out@[j], all[j], *board, season),
        decreases all.len() - i,
    {
        let e = &players[i];
        let id = e.player_id;
        let goals = match last_value_exec(&board.goals, id) {
            Some(v) => v,
            None => 0,
        };
        let assists = match last_value_exec(&board.assists, id) {
            Some(v) => v,
            None => 0,
        };
        let points = match last_value_exec(&board.points, id) {
            Some(v) => v,
            None => 0,
        };
        let mut url = String::from_str("https://assets.nhle.com/mugs/nhl/");
        push_i64(&mut url, season as i64);
        push_str(&mut url, "/");
        push_str(&mut url, e.team.as_str());
        push_str(&mut url, "/");
        push_i64(&mut url, id);
        push_str(&mut url, ".png");
        let row = SkaterLeaderboardRow {
            player_id: id,
            first_name: e.first_name.clone(),
            last_name: e.last_name.clone(),
            team: e.team.clone(),
            position: e.position.clone(),
            goals,
            assists,
            points,
            plus_minus: last_value_exec(&board.plus_minus, id),
            toi_per_game: last_value_exec(&board.toi, id),
            headshot_url: url,
        };
        out.push(row);
        i = i + 1;
    }
    out
}

/// Adding new players keeps the players distinct: if `d` lists each
/// player once, so does the result.
pub proof fn lemma_add_new_players_distinct(d: Seq<LeaderEntry>, s: Seq<LeaderEntry>)
    requires
        forall|i: int, j: int| 0 <= i < j < d.len() ==> #[trigger] d[i].player_id != #[trigger] d[j].player_id,
    ensures
        forall|i: int, j: int|
            0 <= i < j < add_new_players(d, s).len() ==> #[trigger] add_new_players(d, s)[i].player_id
                != #[trigger] add_new_players(d, s)[j].player_id,
    decreases s.len(),
{
    if s.len() > 0 {
        lemma_add_new_players_distinct(d, s.drop_last());
        let p = add_new_players(d, s.drop_last());
        if !has_player(p, s.last().player_id) {
            let q = p.push(s.last());
            assert forall|i: int, j: int| 0 <= i < j < q.len() implies #[trigger] q[i].player_id
                != #[trigger] q[j].player_id by {
                if j == p.len() {
                    assert(q[i] == p[i]);
                } else {
                    assert(q[i] == p[i] && q[j] == p[j]);
                }
            }
        }
    }
}

/// The merged rows list each player once.
pub proof fn lemma_leaderboard_players_distinct(b: SkaterLeaderboard)
    ensures
        forall|i: int, j: int|
            0 <= i < j < leaderboard_players(b).len() ==> #[trigger] leaderboard_players(b)[i].player_id
                != #[trigger] leaderboard_players(b)[j].player_id,
{
    let d1 = add_new_players(Seq::empty(), b.goals@);
    let d2 = add_new_players(d1, b.assists@);
    let d3 = add_new_players(d2, b.points@);
    let d4 = add_new_players(d3, b.plus_minus@);
    let d5 = add_new_players(d4, b.faceoff_leaders@);
    lemma_add_new_players_distinct(Seq::empty(), b.goals@);
    lemma_add_new_players_distinct(d1, b.assists@);
    lemma_add_new_players_distinct(d2, b.points@);
    lemma_add_new_players_distinct(d3, b.plus_minus@);
    lemma_add_new_players_distinct(d4, b.faceoff_leaders@);
    lemma_add_new_players_distinct(d5, b.toi@);
}

// ---------------------------------------------------------------------------
// Goalie leaderboard merge
// ---------------------------------------------------------------------------

/// One entry of a goalie leaderboard category as the payload lists it.
/// Missing names and team are empty; `value` is the entry's number cut
/// to a whole number, where it has one. The decimal categories (goals
/// against average, save percentage) are read back by the entry's
/// position.
#[derive(Debug)]
pub struct GoalieLeaderEntry {
    /// The entry's id, where it is an integer.
    pub player_id: Option<i64>,
    pub first_name: String,
    pub last_name: String,
    pub team: String,
    pub value: Option<i32>,
}

impl Clone for GoalieLeaderEntry {
    fn clone(&self) -> (r: Self)
        ensures
            r == *self,
    {
        GoalieLeaderEntry {
            player_id: self.player_id,
            first_name: self.first_name.clone(),
            last_name: self.last_name.clone(),
            team: self.team.clone(),
            value: self.value,
        }
    }
}

/// The goalie leaderboard categories the mirror reads.
#[derive(Debug)]
pub struct GoalieLeaderboard {
    pub wins: Vec<GoalieLeaderEntry>,
    pub save_pctg: Vec<GoalieLeaderEntry>,
    pub goals_against_average: Vec<GoalieLeaderEntry>,
    pub shutouts: Vec<GoalieLeaderEntry>,
}

/// A goalie's merged season row.
#[derive(Debug)]
pub struct GoalieSeasonRow {
    pub player_id: i64,
    pub team: String,
    pub name: String,
    /// Position, in the goals-against-average category, of the entry
    /// whose average the row takes.
    pub gaa_at: Option<usize>,
    /// Position, in the save-percentage category, of the entry whose
    /// percentage the row takes.
    pub save_pctg_at: Option<usize>,
    pub shutouts: Option<i32>,
}

/// Some entry of `s` is for goalie `id`.
pub open spec fn has_goalie(s: Seq<GoalieLeaderEntry>, id: i64) -> bool {
    exists|i: int| 0 <= i < s.len() && #[trigger] s[i].player_id == Some(id)
}

/// `d` followed by the entries of `s` with an id whose goalie is not yet
/// listed, each goalie at his first entry.
pub open spec fn add_new_goalies(d: Seq<GoalieLeaderEntry>, s: Seq<GoalieLeaderEntry>) -> Seq<
    GoalieLeaderEntry,
>
    decreases s.len(),
{
    if s.len() == 0 {
        d
    } else {
        let p = add_new_goalies(d, s.drop_last());
        match s.last().player_id {
            Some(id) => if has_goalie(p, id) {
                p
            } else {
                p.push(s.last())
            },
            None => p,
        }
    }
}

/// Each goalie of the leaderboard once, at his first entry, taking the
/// categories in the order wins, save percentage, goals against average,
/// shutouts.
pub open spec fn goalie_players(b: GoalieLeaderboard) -> Seq<GoalieLeaderEntry> {
    let d1 = add_new_goalies(Seq::empty(), b.wins@);
    let d2 = add_new_goalies(d1, b.save_pctg@);
    let d3 = add_new_goalies(d2, b.goals_against_average@);
    add_new_goalies(d3, b.shutouts@)
}

/// The position of the last entry of `s` for goalie `id` that has a value.
pub open spec fn last_valued_at(s: Seq<GoalieLeaderEntry>, id: i64) -> Option<int>
    decreases s.len(),
{
    if s.len() == 0 {
        None
    } else if s.last().player_id == Some(id) && s.last().value is Some {
        Some(s.len() - 1)
    } else {
        last_valued_at(s.drop_last(), id)
    }
}

/// A position as an integer.
pub open spec fn position_of(p: Option<usize>) -> Option<int> {
    match p {
        Some(k) => Some(k as int),
        None => None,
    }
}

/// `r` is the season row of goalie `e` (his first leaderboard entry).
pub open spec fn is_goalie_row(r: GoalieSeasonRow, e: GoalieLeaderEntry, b: GoalieLeaderboard) -> bool {
    let id = r.player_id;
    &&& e.player_id == Some(id)
    &&& r.team == e.team
    &&& r.name@ == trim_white(e.first_name@ + " "@ + e.last_name@)
    &&& position_of(r.gaa_at) == last_valued_at(b.goals_against_average@, id)
    &&& position_of(r.save_pctg_at) == last_valued_at(b.save_pctg@, id)
    &&& r.shutouts == match last_valued_at(b.shutouts@, id) {
        Some(k) => b.shutouts@[k].value,
        None => None,
    }
}

fn has_goalie_exec(d: &Vec<GoalieLeaderEntry>, id: i64) -> (r: bool)
    ensures
        r == has_goalie(d@, id),
{
    let mut i: usize = 0;
    while i < d.len()
        invariant
            i <= d@.len(),
            forall|j: int| 0 <= j < i ==> #[trigger] d@[j].player_id != Some(id),
        decreases d@.len() - i,
    {
        if d[i].player_id == Some(id) {
            assert(d@[i as int].player_id == Some(id));
            return true;
        }
        i = i + 1;
    }
    false
}

fn add_new_goalies_exec(d: &mut Vec<GoalieLeaderEntry>, s: &Vec<GoalieLeaderEntry>)
    ensures
        final(d)@ == add_new_goalies(old(d)@, s@),
{
    let ghost start = old(d)@;
    let mut i: usize = 0;
    assert(s@.take(0) =~= Seq::<GoalieLeaderEntry>::empty());
    while i < s.len()
        invariant
            i <= s@.len(),
            d@ == add_new_goalies(start, s@.take(i as int)),
        decreases s@.len() - i,
    {
        proof {
            let t = s@.take(i + 1);
            assert(t.drop_last() =~= s@.take(i as int));
            assert(t.last() == s@[i as int]);
        }
        match s[i].player_id {
            Some(id) => {
                if !has_goalie_exec(d, id) {
                    d.push(s[i].clone());
                }
            },
            None => {},
        }
        i = i + 1;
    }
    assert(s@.take(s@.len() as int) =~= s@);
}

fn last_valued_at_exec(s: &Vec<GoalieLeaderEntry>, id: i64) -> (r: Option<usize>)
    ensures
        position_of(r) == last_valued_at(s@, id),
        match r {
            Some(k) => k < s@.len(),
            None => true,
        },
{
    let mut k: usize = s.len();
    assert(s@.take(k as int) =~= s@);
    while k > 0
        invariant
            k <= s@.len(),
            last_valued_at(s@, id) == last_valued_at(s@.take(k as int), id),
        decreases k,
    {
        let t = Ghost(s@.take(k as int));
        assert(t@.drop_last() =~= s@.take(k - 1));
        assert(t@.last() == s@[k - 1]);
        if s[k - 1].player_id == Some(id) && s[k - 1].value.is_some() {
            return Some(k - 1);
        }
        k = k - 1;
    }
    None
}

/// The mirror's season rows of a goalie leaderboard: one row per goalie
/// with an id, in order of first appearance over the categories (wins,
/// save percentage, goals against average, shutouts), with the team and
/// the trimmed "first last" name of that first entry; the average and the
/// percentage from the goalie's last valued entry in their categories
/// (given by position), the shutouts likewise; nothing where he has no
/// valued entry there.
pub fn merge_goalie_leaderboard(board: &GoalieLeaderboard) -> (r: Vec<GoalieSeasonRow>)
    ensures
        r@.len() == goalie_players(*board).len(),
        forall|i: int|
            0 <= i < r@.len() ==> is_goalie_row(#[trigger] r@[i], goalie_players(*board)[i], *board),
{
    let mut players: Vec<GoalieLeaderEntry> = Vec::new();
    add_new_goalies_exec(&mut players, &board.wins);
    add_new_goalies_exec(&mut players, &board.save_pctg);
    add_new_goalies_exec(&mut players, &board.goals_against_average);
    add_new_goalies_exec(&mut players, &board.shutouts);
    let ghost all = players@;
    assert(all == goalie_players(*board));
    proof {
        lemma_goalie_entries_have_ids(*board);
    }
    let mut out: Vec<GoalieSeasonRow> = Vec::new();
    let mut i: usize = 0;
    while i < players.len()
        invariant
            all == players@,
            all == goalie_players(*board),
            forall|j: int| 0 <= j < all.len() ==> (#[trigger] all[j]).player_id is Some,
            i <= all.len(),
            out@.len() == i,
            forall|j: int| 0 <= j < i ==> is_goalie_row(#[trigger] out@[j], all[j], *board),
        decreases all.len() - i,
    {
        let e = &players[i];
        assert(all[i as int].player_id is Some);
        let id = match e.player_id {
            Some(id) => id,
            None => {
                proof {
                    assert(false);
                }
                0
            },
        };
        let full = concat3(e.first_name.as_str(), " ", e.last_name.as_str());
        let name = trim_owned(full.as_str());
        let shutouts = match last_valued_at_exec(&board.shutouts, id) {
            Some(k) => board.shutouts[k].value,
            None => None,
        };
        let row = GoalieSeasonRow {
            player_id: id,
            team: e.team.clone(),
            name,
            gaa_at: last_valued_at_exec(&board.goals_against_average, id),
            save_pctg_at: last_valued_at_exec(&board.save_pctg, id),
            shutouts,
        };
        out.push(row);
        i = i + 1;
    }
    out
}

proof fn lemma_add_new_goalies_have_ids(d: Seq<GoalieLeaderEntry>, s: Seq<GoalieLeaderEntry>)
    requires
        forall|j: int| 0 <= j < d.len() ==> (#[trigger] d[j]).player_id is Some,
    ensures
        forall|j: int|
            0 <= j < add_new_goalies(d, s).len() ==> (#[trigger] add_new_goalies(d, s)[j]).player_id is Some,
    decreases s.len(),
{
    if s.len() > 0 {
        lemma_add_new_goalies_have_ids(d, s.drop_last());
    }
}

proof fn lemma_goalie_entries_have_ids(b: GoalieLeaderboard)
    ensures
        forall|j: int|
            0 <= j < goalie_players(b).len() ==> (#[trigger] goalie_players(b)[j]).player_id is Some,
{
    let d1 = add_new_goalies(Seq::empty(), b.wins@);
    let d2 = add_new_goalies(d1, b.save_pctg@);
    let d3 = add_new_goalies(d2, b.goals_against_average@);
    lemma_add_new_goalies_have_ids(Seq::empty(), b.wins@);
    lemma_add_new_goalies_have_ids(d1, b.save_pctg@);
    lemma_add_new_goalies_have_ids(d2, b.goals_against_average@);
    lemma_add_new_goalies_have_ids(d3, b.shutouts@);
}

/// Adding new goalies keeps the goalies distinct: if `d` lists each
/// goalie once, so does the result.
pub proof fn lemma_add_new_goalies_distinct(d: Seq<GoalieLeaderEntry>, s: Seq<GoalieLeaderEntry>)
    requires
        forall|i: int, j: int| 0 <= i < j < d.len() ==> #[trigger] d[i].player_id != #[trigger] d[j].player_id,
        forall|j: int| 0 <= j < d.len() ==> (#[trigger] d[j]).player_id is Some,
    ensures
        forall|i: int, j: int|
            0 <= i < j < add_new_goalies(d, s).len() ==> #[trigger] add_new_goalies(d, s)[i].player_id
                != #[trigger] add_new_goalies(d, s)[j].player_id,
    decreases s.len(),
{
    if s.len() > 0 {
        lemma_add_new_goalies_distinct(d, s.drop_last());
        lemma_add_new_goalies_have_ids(d, s.drop_last());
        let p = add_new_goalies(d, s.drop_last());
        match s.last().player_id {
            Some(id) => {
                if !has_goalie(p, id) {
                    let q = p.push(s.last());
                    assert forall|i: int, j: int| 0 <= i < j < q.len() implies #[trigger] q[i].player_id
                        != #[trigger] q[j].player_id by {
                        if j == p.len() {
                            assert(q[i] == p[i]);
                        } else {
                            assert(q[i] == p[i] && q[j] == p[j]);
                        }
                    }
                }
            },
            None => {},
        }
    }
}

/// The merged goalie rows list each goalie once.
pub proof fn lemma_goalie_players_distinct(b: GoalieLeaderboard)
    ensures
        forall|i: int, j: int|
            0 <= i < j < goalie_players(b).len() ==> #[trigger] goalie_players(b)[i].player_id
                != #[trigger] goalie_players(b)[j].player_id,
{
    let d1 = add_new_goalies(Seq::empty(), b.wins@);
    let d2 = add_new_goalies(d1, b.save_pctg@);
    let d3 = add_new_goalies(d2, b.goals_against_average@);
    lemma_add_new_goalies_have_ids(Seq::empty(), b.wins@);
    lemma_add_new_goalies_have_ids(d1, b.save_pctg@);
    lemma_add_new_goalies_have_ids(d2, b.goals_against_average@);
    lemma_add_new_goalies_distinct(Seq::empty(), b.wins@);
    lemma_add_new_goalies_distinct(d1, b.save_pctg@);
    lemma_add_new_goalies_distinct(d2, b.goals_against_average@);
    lemma_add_new_goalies_distinct(d3, b.shutouts@);
}

} // verus!
