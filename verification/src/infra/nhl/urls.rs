//! Request helpers of the match-day views: date parameter check, the
//! fantasy players rostered from an NHL team, one player's match-day line
//! with his playoff totals and form, and the games summary.
use vstd::prelude::*;

use crate::domain::models::fantasy::{FantasyTeamInGame, PlayerInGame};
use crate::domain::models::nhl::{GameBoxscore, GameLogEntry, GameState, TodayGame};
use crate::nhl_api::nhl_constants::teams::team_logo;
use crate::utils::nhl::{
    calculate_form_from_game_log, calculate_totals_from_game_log, find_player_stats_by_name,
    log_fits, log_sum, player_stats_spec,
};
use crate::error::Error;
use crate::nhl_api::nhl_constants::players::player_image;
use crate::sorting::{stable_sort, stable_sorted, Precedes};
use crate::text::{dec_int, is_date_char, seq_lt, str_eq, str_lt};

verus! {

/// The fantasy players of each fantasy team, keyed by NHL team:
/// `(nhl_team, [(fantasy_team_name, players)])`.
pub type NhlTeamPlayers = Vec<(String, Vec<(String, Vec<PlayerInGame>)>)>;

/// A rostered player shown under an NHL team of a game.
#[derive(Debug)]
pub struct FantasyPlayerResponse {
    pub fantasy_team: String,
    pub fantasy_team_id: i64,
    pub player_name: String,
    pub position: String,
    pub nhl_id: i64,
    pub image_url: String,
    pub goals: i32,
    pub assists: i32,
    pub points: i32,
}

/// Alphabetically earlier fantasy team goes first.
impl Precedes for FantasyPlayerResponse {
    open spec fn precedes(&self, other: &Self) -> bool {
        seq_lt(self.fantasy_team@, other.fantasy_team@)
    }

    fn precedes_exec(&self, other: &Self) -> (r: bool) {
        str_lt(self.fantasy_team.as_str(), other.fantasy_team.as_str())
    }
}

/// Number of rostered players of one NHL team playing today.
#[derive(Debug)]
pub struct TeamPlayerCountResponse {
    pub nhl_team: String,
    pub player_count: usize,
}

/// More rostered players go first.
impl Precedes for TeamPlayerCountResponse {
    open spec fn precedes(&self, other: &Self) -> bool {
        self.player_count > other.player_count
    }

    fn precedes_exec(&self, other: &Self) -> (r: bool) {
        self.player_count > other.player_count
    }
}

/// Summary of a day's games.
#[derive(Debug)]
pub struct GamesSummaryResponse {
    pub total_games: usize,
    pub total_teams_playing: usize,
    pub team_players_count: Vec<TeamPlayerCountResponse>,
}

/// Alphabetically earlier string goes first.
impl Precedes for String {
    open spec fn precedes(&self, other: &Self) -> bool {
        seq_lt(self@, other@)
    }

    fn precedes_exec(&self, other: &Self) -> (r: bool) {
        str_lt(self.as_str(), other.as_str())
    }
}

// ---------------------------------------------------------------------------
// Date parameter
// ---------------------------------------------------------------------------

/// A `YYYY-MM-DD`-shaped date: ten characters, each a digit or `-`.
pub open spec fn date_shaped(s: Seq<char>) -> bool {
    s.len() == 10 && forall|i: int| 0 <= i < s.len() ==> #[trigger] is_date_char(s[i])
}

/// Accepts a date parameter of ten characters made of digits and `-`,
/// and rejects anything else with a validation error.
pub fn parse_date_param(date: String) -> (r: Result<String, Error>)
    ensures
        date_shaped(date@) ==> r == Ok::<String, Error>(date),
        !date_shaped(date@) ==> (r matches Err(Error::Validation(m)) && m@
            == "Invalid date format. Use YYYY-MM-DD"@),
{
    let n = date.as_str().unicode_len();
    if n != 10 {
        return Err(Error::Validation(String::from_str("Invalid date format. Use YYYY-MM-DD")));
    }
    let mut i: usize = 0;
    while i < n
        invariant
            n == date@.len(),
            i <= n,
            forall|j: int| 0 <= j < i ==> #[trigger] is_date_char(date@[j]),
        decreases n - i,
    {
        let c = date.as_str().get_char(i);
        if !(c == '-' || ('0' <= c && c <= '9')) {
            assert(!is_date_char(date@[i as int]));
            return Err(Error::Validation(String::from_str("Invalid date format. Use YYYY-MM-DD")));
        }
        i = i + 1;
    }
    Ok(date)
}

// ---------------------------------------------------------------------------
// Players of an NHL team
// ---------------------------------------------------------------------------

/// The fantasy teams of an NHL team: the first entry with that key.
pub open spec fn teams_of(map: Seq<(String, Vec<(String, Vec<PlayerInGame>)>)>, nhl_team: Seq<char>) -> Option<
    Seq<(String, Vec<PlayerInGame>)>,
>
    decreases map.len(),
{
    if map.len() == 0 {
        None
    } else if map[0].0@ == nhl_team {
        Some(map[0].1@)
    } else {
        teams_of(map.drop_first(), nhl_team)
    }
}

/// Id of the first fantasy team with that name, 0 when none.
pub open spec fn team_id_of(teams: Seq<FantasyTeamInGame>, name: Seq<char>) -> i64
    decreases teams.len(),
{
    if teams.len() == 0 {
        0
    } else if teams[0].team_name@ == name {
        teams[0].team_id
    } else {
        team_id_of(teams.drop_first(), name)
    }
}

/// The `(fantasy team, its id, player)` triples, fantasy team by fantasy
/// team, players in roster order.
pub open spec fn roster_rows(
    groups: Seq<(String, Vec<PlayerInGame>)>,
    teams: Seq<FantasyTeamInGame>,
) -> Seq<(String, i64, PlayerInGame)>
    decreases groups.len(),
{
    if groups.len() == 0 {
        Seq::empty()
    } else {
        let prev = roster_rows(groups.drop_last(), teams);
        let (name, players) = groups.last();
        prev + players@.map_values(|p: PlayerInGame| (name, team_id_of(teams, name@), p))
    }
}

/// A response row shows the given player of the given fantasy team, with
/// its headshot and zeroed counters.
pub open spec fn shows(r: FantasyPlayerResponse, src: (String, i64, PlayerInGame)) -> bool {
    &&& r.fantasy_team == src.0
    &&& r.fantasy_team_id == src.1
    &&& r.player_name == src.2.player_name
    &&& r.position == src.2.position
    &&& r.nhl_id == src.2.nhl_id
    &&& r.image_url@ == "https://assets.nhle.com/mugs/nhl/latest/"@ + dec_int(src.2.nhl_id as int)
        + ".png"@
    &&& r.goals == 0
    &&& r.assists == 0
    &&& r.points == 0
}

fn find_nhl_team(map: &NhlTeamPlayers, nhl_team: &str) -> (r: Option<usize>)
    ensures
        match r {
            Some(i) => i < map@.len() && teams_of(map@, nhl_team@) == Some(map@[i as int].1@),
            None => teams_of(map@, nhl_team@) is None,
        },
{
    let mut i: usize = 0;
    assert(map@.skip(0) =~= map@);
    while i < map.len()
        invariant
            i <= map@.len(),
            teams_of(map@, nhl_team@) == teams_of(map@.skip(i as int), nhl_team@),
        decreases map@.len() - i,
    {
        proof {
            assert(map@.skip(i as int)[0] == map@[i as int]);
            assert(map@.skip(i as int).drop_first() =~= map@.skip(i + 1));
        }
        if str_eq(map[i].0.as_str(), nhl_team) {
            return Some(i);
        }
        i = i + 1;
    }
    None
}

fn fantasy_team_id(teams: &[FantasyTeamInGame], name: &str) -> (r: i64)
    ensures
        r == team_id_of(teams@, name@),
{
    let mut i: usize = 0;
    assert(teams@.skip(0) =~= teams@);
    while i < teams.len()
        invariant
            i <= teams@.len(),
            team_id_of(teams@, name@) == team_id_of(teams@.skip(i as int), name@),
        decreases teams@.len() - i,
    {
        proof {
            assert(teams@.skip(i as int)[0] == teams@[i as int]);
            assert(teams@.skip(i as int).drop_first() =~= teams@.skip(i + 1));
        }
        if str_eq(teams[i].team_name.as_str(), name) {
            return teams[i].team_id;
        }
        i = i + 1;
    }
    0
}

/// The fantasy players rostered from `nhl_team`, grouped by fantasy team
/// and sorted by fantasy-team name (players of one fantasy team in roster
/// order), each with its headshot URL, its fantasy team's id (0 when the
/// team is not in `fantasy_teams`) and zeroed counters. Empty when the
/// NHL team has no rostered player.
pub fn get_fantasy_players_for_nhl_team(
    nhl_team_players: &NhlTeamPlayers,
    nhl_team: &str,
    fantasy_teams: &[FantasyTeamInGame],
) -> (r: Vec<FantasyPlayerResponse>)
    ensures
        match teams_of(nhl_team_players@, nhl_team@) {
            None => r@.len() == 0,
            Some(groups) => exists|rows: Seq<FantasyPlayerResponse>|
                #![trigger stable_sorted(rows)]
                {
                    let src = roster_rows(groups, fantasy_teams@);
                    &&& rows.len() == src.len()
                    &&& forall|k: int| 0 <= k < rows.len() ==> shows(#[trigger] rows[k], src[k])
                    &&& r@ == stable_sorted(rows)
                },
        },
{
    let mut players: Vec<FantasyPlayerResponse> = Vec::new();
    let idx = find_nhl_team(nhl_team_players, nhl_team);
    let i = match idx {
        Some(i) => i,
        None => {
            return players;
        },
    };
    let groups = &nhl_team_players[i].1;
    let ghost src_all = roster_rows(groups@, fantasy_teams@);
    let mut g: usize = 0;
    assert(groups@.take(0) =~= Seq::<(String, Vec<PlayerInGame>)>::empty());
    while g < groups.len()
        invariant
            g <= groups@.len(),
            players@.len() == roster_rows(groups@.take(g as int), fantasy_teams@).len(),
            forall|k: int|
                0 <= k < players@.len() ==> shows(
                    #[trigger] players@[k],
                    roster_rows(groups@.take(g as int), fantasy_teams@)[k],
                ),
        decreases groups@.len() - g,
    {
        let (name, roster) = (&groups[g].0, &groups[g].1);
        let ghost before = roster_rows(groups@.take(g as int), fantasy_teams@);
        let ghost added = roster@.map_values(
            |p: PlayerInGame| (*name, team_id_of(fantasy_teams@, name@), p),
        );
        proof {
            let t = groups@.take(g + 1);
            assert(t.drop_last() =~= groups@.take(g as int));
            assert(t.last() == groups@[g as int]);
            assert(roster_rows(t, fantasy_teams@) == before + added);
        }
        let team_id = fantasy_team_id(fantasy_teams, name.as_str());
        let ghost base = players@.len();
        let mut j: usize = 0;
        while j < roster.len()
            invariant
                j <= roster@.len(),
                base == before.len(),
                players@.len() == base + j,
                added == roster@.map_values(
                    |p: PlayerInGame| (*name, team_id_of(fantasy_teams@, name@), p),
                ),
                team_id == team_id_of(fantasy_teams@, name@),
                forall|k: int|
                    0 <= k < players@.len() ==> shows(#[trigger] players@[k], (before + added)[k]),
            decreases roster@.len() - j,
        {
            let p = &roster[j];
            let row = FantasyPlayerResponse {
                fantasy_team: name.clone(),
                fantasy_team_id: team_id,
                player_name: p.player_name.clone(),
                position: p.position.clone(),
                nhl_id: p.nhl_id,
                image_url: player_image(p.nhl_id),
                goals: 0,
                assists: 0,
                points: 0,
            };
            players.push(row);
            proof {
                assert((before + added)[base + j] == added[j as int]);
            }
            j = j + 1;
        }
        g = g + 1;
    }
    assert(groups@.take(groups@.len() as int) =~= groups@);
    let ghost rows = players@;
    let sorted = stable_sort(players);
    assert(rows.len() == src_all.len() && (forall|k: int|
        0 <= k < rows.len() ==> shows(#[trigger] rows[k], src_all[k])) && sorted@ == stable_sorted(
        rows,
    ));
    sorted
}

// ---------------------------------------------------------------------------
// Games summary
// ---------------------------------------------------------------------------

/// Both teams of every game, home first, in game order.
pub open spec fn game_teams(games: Seq<TodayGame>) -> Seq<String>
    decreases games.len(),
{
    if games.len() == 0 {
        Seq::empty()
    } else {
        game_teams(games.drop_last()).push(games.last().home_team.abbrev).push(
            games.last().away_team.abbrev,
        )
    }
}

/// `s` without consecutive repeats (`Vec::dedup`).
pub open spec fn dedup_consecutive(s: Seq<String>) -> Seq<String>
    decreases s.len(),
{
    if s.len() == 0 {
        Seq::empty()
    } else {
        let d = dedup_consecutive(s.drop_last());
        if d.len() > 0 && d.last()@ == s.last()@ {
            d
        } else {
            d.push(s.last())
        }
    }
}

/// The teams playing: sorted, repeats removed.
pub open spec fn teams_playing(games: Seq<TodayGame>) -> Seq<String> {
    dedup_consecutive(stable_sorted(game_teams(games)))
}

/// Total players of the fantasy groups.
pub open spec fn group_player_count(groups: Seq<(String, Vec<PlayerInGame>)>) -> int
    decreases groups.len(),
{
    if groups.len() == 0 {
        0
    } else {
        group_player_count(groups.drop_last()) + groups.last().1@.len()
    }
}

/// Rostered players of an NHL team, 0 when it has none listed.
pub open spec fn players_of_team(map: Seq<(String, Vec<(String, Vec<PlayerInGame>)>)>, team: Seq<char>) -> int {
    match teams_of(map, team) {
        Some(groups) => group_player_count(groups),
        None => 0,
    }
}

/// `(team, count)` for the playing teams with at least one rostered
/// player, in the order of `teams`.
pub open spec fn counted_teams(
    teams: Seq<String>,
    map: Seq<(String, Vec<(String, Vec<PlayerInGame>)>)>,
) -> Seq<TeamPlayerCountResponse>
    decreases teams.len(),
{
    if teams.len() == 0 {
        Seq::empty()
    } else {
        let prev = counted_teams(teams.drop_last(), map);
        let c = players_of_team(map, teams.last()@);
        if c > 0 {
            prev.push(TeamPlayerCountResponse { nhl_team: teams.last(), player_count: c as usize })
        } else {
            prev
        }
    }
}

/// Player counts of every rostered NHL team fit in `usize`.
pub open spec fn counts_fit(map: Seq<(String, Vec<(String, Vec<PlayerInGame>)>)>) -> bool {
    forall|i: int, k: int|
        #![trigger map[i].1@.take(k)]
        0 <= i < map.len() && 0 <= k <= map[i].1@.len() ==> group_player_count(map[i].1@.take(k))
            <= usize::MAX
}

fn dedup_sorted(v: Vec<String>) -> (r: Vec<String>)
    ensures
        r@ == dedup_consecutive(v@),
{
    let mut out: Vec<String> = Vec::new();
    let mut i: usize = 0;
    assert(v@.take(0) =~= Seq::<String>::empty());
    while i < v.len()
        invariant
            i <= v@.len(),
            out@ == dedup_consecutive(v@.take(i as int)),
        decreases v@.len() - i,
    {
        proof {
            let t = v@.take(i + 1);
            assert(t.drop_last() =~= v@.take(i as int));
            assert(t.last() == v@[i as int]);
        }
        let n = out.len();
        if n > 0 && str_eq(out[n - 1].as_str(), v[i].as_str()) {
        } else {
            out.push(v[i].clone());
        }
        i = i + 1;
    }
    assert(v@.take(v@.len() as int) =~= v@);
    out
}

fn count_players(map: &NhlTeamPlayers, team: &str) -> (r: usize)
    requires
        counts_fit(map@),
    ensures
        r == players_of_team(map@, team@),
{
    match find_nhl_team(map, team) {
        None => 0,
        Some(i) => {
            let groups = &map[i].1;
            let mut total: usize = 0;
            let mut g: usize = 0;
            assert(groups@.take(0) =~= Seq::<(String, Vec<PlayerInGame>)>::empty());
            while g < groups.len()
                invariant
                    i < map@.len(),
                    *groups == map@[i as int].1,
                    counts_fit(map@),
                    g <= groups@.len(),
                    total == group_player_count(groups@.take(g as int)),
                decreases groups@.len() - g,
            {
                proof {
                    let t = groups@.take(g + 1);
                    assert(t.drop_last() =~= groups@.take(g as int));
                    assert(t.last() == groups@[g as int]);
                    assert(group_player_count(map@[i as int].1@.take(g + 1)) <= usize::MAX);
                }
                total = total + groups[g].1.len();
                g = g + 1;
            }
            assert(groups@.take(groups@.len() as int) =~= groups@);
            total
        },
    }
}

/// Summary of the day's games: number of games, number of distinct teams
/// playing, and the playing teams with rostered players, most rostered
/// first (ties alphabetical).
pub fn create_games_summary(games: &[TodayGame], nhl_team_players: &NhlTeamPlayers) -> (r:
    GamesSummaryResponse)
    requires
        counts_fit(nhl_team_players@),
        games@.len() * 2 <= usize::MAX,
    ensures
        r.total_games == games@.len(),
        r.total_teams_playing == teams_playing(games@).len(),
        r.team_players_count@ == stable_sorted(
            counted_teams(teams_playing(games@), nhl_team_players@),
        ),
{
    let mut nhl_teams: Vec<String> = Vec::new();
    let mut i: usize = 0;
    assert(games@.take(0) =~= Seq::<TodayGame>::empty());
    while i < games.len()
        invariant
            i <= games@.len(),
            nhl_teams@ == game_teams(games@.take(i as int)),
        decreases games@.len() - i,
    {
        proof {
            let t = games@.take(i + 1);
            assert(t.drop_last() =~= games@.take(i as int));
            assert(t.last() == games@[i as int]);
        }
        nhl_teams.push(games[i].home_team.abbrev.clone());
        nhl_teams.push(games[i].away_team.abbrev.clone());
        i = i + 1;
    }
    assert(games@.take(games@.len() as int) =~= games@);
    let sorted = stable_sort(nhl_teams);
    let teams = dedup_sorted(sorted);
    let mut counts: Vec<TeamPlayerCountResponse> = Vec::new();
    let mut k: usize = 0;
    assert(teams@.take(0) =~= Seq::<String>::empty());
    while k < teams.len()
        invariant
            k <= teams@.len(),
            teams@ == teams_playing(games@),
            counts_fit(nhl_team_players@),
            counts@ == counted_teams(teams@.take(k as int), nhl_team_players@),
        decreases teams@.len() - k,
    {
        proof {
            let t = teams@.take(k + 1);
            assert(t.drop_last() =~= teams@.take(k as int));
            assert(t.last() == teams@[k as int]);
        }
        let c = count_players(nhl_team_players, teams[k].as_str());
        if c > 0 {
            counts.push(TeamPlayerCountResponse { nhl_team: teams[k].clone(), player_count: c });
        }
        k = k + 1;
    }
    assert(teams@.take(teams@.len() as int) =~= teams@);
    let ordered = stable_sort(counts);
    GamesSummaryResponse {
        total_games: games.len(),
        total_teams_playing: teams.len(),
        team_players_count: ordered,
    }
}

// ---------------------------------------------------------------------------
// One player's match-day line
// ---------------------------------------------------------------------------

/// A player's form over his most recent games.
#[derive(Debug)]
pub struct PlayerForm {
    pub games: usize,
    pub goals: i32,
    pub assists: i32,
    pub points: i32,
}

/// A rostered player's match-day line: who he is, his goals and assists in
/// today's game, his playoff totals and his recent form.
#[derive(Debug)]
pub struct FantasyPlayerExtendedResponse {
    pub fantasy_team: String,
    pub fantasy_team_id: i64,
    pub player_name: String,
    pub position: String,
    pub nhl_id: i64,
    pub nhl_team: String,
    pub image_url: String,
    pub team_logo: String,
    pub goals: i32,
    pub assists: i32,
    pub points: i32,
    pub playoff_goals: i32,
    pub playoff_assists: i32,
    pub playoff_points: i32,
    pub playoff_games: i32,
    pub form: Option<PlayerForm>,
    pub time_on_ice: Option<String>,
}

/// How many games a form over `form_games` games covers in `log`.
pub open spec fn form_count(log: Seq<GameLogEntry>, form_games: int) -> int {
    if form_games < log.len() {
        form_games
    } else {
        log.len() as int
    }
}

/// The game is being played or is over.
pub open spec fn game_counts_today(state: GameState) -> bool {
    state == GameState::Live || state == GameState::Crit || state == GameState::Final || state
        == GameState::Off
}

/// The player's goals and assists in today's game: from the boxscore
/// when the game is live or over and the boxscore is at hand, else none.
pub open spec fn today_stats(
    player: PlayerInGame,
    state: GameState,
    boxscore: Option<GameBoxscore>,
) -> (i32, i32) {
    match boxscore {
        Some(b) => if game_counts_today(state) {
            player_stats_spec(b, player.player_name@, Some(player.nhl_id))
        } else {
            (0, 0)
        },
        None => (0, 0),
    }
}

/// What the line of a player can be built from without overflow: the
/// playoff log's running sums and today's goals plus assists fit `i32`.
pub open spec fn extended_fits(
    player: PlayerInGame,
    game_log: Option<Seq<GameLogEntry>>,
    state: GameState,
    boxscore: Option<GameBoxscore>,
) -> bool {
    &&& (game_log matches Some(log) ==> log_fits(log))
    &&& i32::MIN <= today_stats(player, state, boxscore).0 + today_stats(player, state, boxscore).1
        <= i32::MAX
}

/// `r` is the match-day line of `player` of fantasy team `fantasy_team`
/// (id `fantasy_team_id`) playing for `nhl_team`:
/// - headshot and team logo addresses;
/// - today's goals and assists ([`today_stats`]) and their sum;
/// - where the game log was fetched and is not empty, its totals, and the
///   form over its first `form_games` games (when that is at least one
///   game), with the time on ice of the first of them; zeros and nothing
///   otherwise.
pub open spec fn is_extended_player(
    r: FantasyPlayerExtendedResponse,
    fantasy_team: Seq<char>,
    fantasy_team_id: i64,
    nhl_team: Seq<char>,
    player: PlayerInGame,
    game_log: Option<Seq<GameLogEntry>>,
    form_games: int,
    state: GameState,
    boxscore: Option<GameBoxscore>,
) -> bool {
    let (g, a) = today_stats(player, state, boxscore);
    &&& r.fantasy_team@ == fantasy_team
    &&& r.fantasy_team_id == fantasy_team_id
    &&& r.player_name == player.player_name
    &&& r.position == player.position
    &&& r.nhl_id == player.nhl_id
    &&& r.nhl_team@ == nhl_team
    &&& r.image_url@ == "https://assets.nhle.com/mugs/nhl/latest/"@ + dec_int(player.nhl_id as int)
        + ".png"@
    &&& r.team_logo@ == "https://assets.nhle.com/logos/nhl/svg/"@ + nhl_team + "_light.svg"@
    &&& r.goals == g
    &&& r.assists == a
    &&& r.points == g + a
    &&& match game_log {
        Some(log) if log.len() > 0 => {
            let k = form_count(log, form_games);
            &&& r.playoff_goals == log_sum(log, 0)
            &&& r.playoff_assists == log_sum(log, 1)
            &&& r.playoff_points == log_sum(log, 2)
            &&& r.playoff_games == log.len() as i32
            &&& if k > 0 {
                &&& r.form matches Some(f) && f.games == k && f.goals == log_sum(log.take(k), 0)
                    && f.assists == log_sum(log.take(k), 1) && f.points == log_sum(log.take(k), 2)
                &&& r.time_on_ice == Some(log[0].toi)
            } else {
                r.form is None && r.time_on_ice is None
            }
        },
        _ => {
            &&& r.playoff_goals == 0
            &&& r.playoff_assists == 0
            &&& r.playoff_points == 0
            &&& r.playoff_games == 0
            &&& r.form is None
            &&& r.time_on_ice is None
        },
    }
}

proof fn lemma_log_fits_prefix(log: Seq<GameLogEntry>, k: int)
    requires
        log_fits(log),
        0 <= k <= log.len(),
    ensures
        log_fits(log.take(k)),
{
    assert forall|j: int| 0 <= j <= log.take(k).len() implies {
        &&& i32::MIN <= log_sum(#[trigger] log.take(k).take(j), 0) <= i32::MAX
        &&& i32::MIN <= log_sum(log.take(k).take(j), 1) <= i32::MAX
        &&& i32::MIN <= log_sum(log.take(k).take(j), 2) <= i32::MAX
    } by {
        assert(log.take(k).take(j) =~= log.take(j));
    }
}

/// A rostered player's match-day line (see [`is_extended_player`]): the
/// line a match-day view builds for each player of an NHL team playing
/// today, from his fetched game log (`None` when the fetch failed) and
/// the game's boxscore (`None` when there is none).
pub fn extended_player(
    fantasy_team: &str,
    fantasy_team_id: i64,
    nhl_team: &str,
    player: &PlayerInGame,
    game_log: Option<&[GameLogEntry]>,
    form_games: usize,
    state: GameState,
    boxscore: Option<&GameBoxscore>,
) -> (r: FantasyPlayerExtendedResponse)
    requires
        extended_fits(
            *player,
            match game_log {
                Some(l) => Some(l@),
                None => None,
            },
            state,
            match boxscore {
                Some(b) => Some(*b),
                None => None,
            },
        ),
    ensures
        is_extended_player(
            r,
            fantasy_team@,
            fantasy_team_id,
            nhl_team@,
            *player,
            match game_log {
                Some(l) => Some(l@),
                None => None,
            },
            form_games as int,
            state,
            match boxscore {
                Some(b) => Some(*b),
                None => None,
            },
        ),
{
    let mut line = FantasyPlayerExtendedResponse {
        fantasy_team: String::from_str(fantasy_team),
        fantasy_team_id,
        player_name: player.player_name.clone(),
        position: player.position.clone(),
        nhl_id: player.nhl_id,
        nhl_team: String::from_str(nhl_team),
        image_url: player_image(player.nhl_id),
        team_logo: team_logo(nhl_team),
        goals: 0,
        assists: 0,
        points: 0,
        playoff_goals: 0,
        playoff_assists: 0,
        playoff_points: 0,
        playoff_games: 0,
        form: None,
        time_on_ice: None,
    };
    match game_log {
        Some(log) => {
            if log.len() > 0 {
                let (g, a, p, games) = calculate_totals_from_game_log(log);
                line.playoff_goals = g;
                line.playoff_assists = a;
                line.playoff_points = p;
                line.playoff_games = games;
                let ghost k = form_count(log@, form_games as int);
                proof {
                    lemma_log_fits_prefix(log@, k);
                }
                let (fg, fa, fp, recent) = calculate_form_from_game_log(log, form_games);
                if recent.len() > 0 {
                    line.form = Some(PlayerForm { games: recent.len(), goals: fg, assists: fa, points: fp });
                    assert(recent@[0] == log@[0]);
                    line.time_on_ice = Some(recent[0].toi.clone());
                }
            }
        },
        None => {},
    }
    let counts = state.is_live() || state.is_completed();
    match boxscore {
        Some(b) => {
            if counts {
                let (g, a) = find_player_stats_by_name(b, nhl_team, player.player_name.as_str(), Some(player.nhl_id));
                line.goals = g;
                line.assists = a;
                line.points = g + a;
            }
        },
        None => {},
    }
    line
}

} // verus!
