//! Shapes of the NHL API data the logic reads: schedules, boxscores, the
//! playoff carousel and player game logs.
use vstd::prelude::*;

use crate::text::{str_eq, to_uppercase, uppercase_of};

verus! {

/// Venue information for games.
#[derive(Debug)]
pub struct GameVenue {
    pub default: String,
}

impl Clone for GameVenue {
    fn clone(&self) -> (r: Self)
        ensures
            r == *self,
    {
        GameVenue { default: self.default.clone() }
    }
}

/// Live state of one game.
#[derive(Debug)]
pub struct GameData {
    pub game_state: GameState,
    pub home_score: Option<i32>,
    pub away_score: Option<i32>,
    /// Period number (1–3 regulation, 4+ playoff overtime).
    pub period_number: Option<i16>,
    /// Upstream `periodType`: `REG`, `OT` or `SO`.
    pub period_type: Option<String>,
}

/// Team information for the schedule.
#[derive(Debug)]
pub struct TeamInfo {
    pub id: u32,
    pub abbrev: String,
    /// Default-language common name, when the API sends one.
    pub common_name: Option<CommonName>,
    /// Default-language place name, when the API sends one.
    pub place_name: Option<CommonName>,
}

fn copy_opt_name(n: &Option<CommonName>) -> (r: Option<CommonName>)
    ensures
        r == *n,
{
    match n {
        Some(x) => Some(x.clone()),
        None => None,
    }
}

fn copy_opt_string(s: &Option<String>) -> (r: Option<String>)
    ensures
        r == *s,
{
    match s {
        Some(x) => Some(x.clone()),
        None => None,
    }
}

impl Clone for TeamInfo {
    fn clone(&self) -> (r: Self)
        ensures
            r == *self,
    {
        TeamInfo {
            id: self.id,
            abbrev: self.abbrev.clone(),
            common_name: copy_opt_name(&self.common_name),
            place_name: copy_opt_name(&self.place_name),
        }
    }
}

/// A week of the NHL schedule.
#[derive(Debug)]
pub struct TodaySchedule {
    pub game_week: Vec<GameDay>,
}

/// The games of the first schedule day whose date is `date`; none when no
/// day matches.
pub open spec fn games_on(days: Seq<GameDay>, date: Seq<char>) -> Seq<TodayGame>
    decreases days.len(),
{
    if days.len() == 0 {
        Seq::empty()
    } else if days[0].date@ == date {
        days[0].games@
    } else {
        games_on(days.drop_first(), date)
    }
}

/// Copy of a list of games.
pub fn copy_games(v: &Vec<TodayGame>) -> (r: Vec<TodayGame>)
    ensures
        r@ == v@,
{
    let mut out: Vec<TodayGame> = Vec::new();
    let mut i: usize = 0;
    while i < v.len()
        invariant
            i <= v.len(),
            out@ =~= v@.take(i as int),
        decreases v.len() - i,
    {
        out.push(v[i].clone());
        assert(v@.take(i + 1) =~= v@.take(i as int).push(v@[i as int]));
        i = i + 1;
    }
    assert(v@.take(v.len() as int) =~= v@);
    out
}

impl TodaySchedule {
    /// The games scheduled on `date` (`YYYY-MM-DD`), empty when the week
    /// has no such day.
    pub fn games_for_date(&self, date: &str) -> (r: Vec<TodayGame>)
        ensures
            r@ == games_on(self.game_week@, date@),
    {
        let n = self.game_week.len();
        let mut i: usize = 0;
        assert(self.game_week@.skip(0) =~= self.game_week@);
        while i < n
            invariant
                n == self.game_week@.len(),
                i <= n,
                games_on(self.game_week@, date@) == games_on(self.game_week@.skip(i as int), date@),
            decreases n - i,
        {
            let day = &self.game_week[i];
            proof {
                assert(self.game_week@.skip(i as int)[0] == self.game_week@[i as int]);
                assert(self.game_week@.skip(i as int).drop_first() =~= self.game_week@.skip(i + 1));
            }
            if str_eq(day.date.as_str(), date) {
                return copy_games(&day.games);
            }
            i = i + 1;
        }
        Vec::new()
    }
}

/// Game day within the schedule.
#[derive(Debug)]
pub struct GameDay {
    pub date: String,
    pub games: Vec<TodayGame>,
}

/// Game score information.
#[derive(Debug, Clone, Copy)]
pub struct GameScore {
    pub away: i32,
    pub home: i32,
}

/// Period descriptor for games.
#[derive(Debug)]
pub struct PeriodDescriptor {
    pub number: Option<i32>,
    pub period_type: Option<String>,
    pub ot_periods: Option<i32>,
    pub max_regulation_periods: Option<i32>,
}

impl Clone for PeriodDescriptor {
    fn clone(&self) -> (r: Self)
        ensures
            r == *self,
    {
        PeriodDescriptor {
            number: self.number,
            period_type: copy_opt_string(&self.period_type),
            ot_periods: self.ot_periods,
            max_regulation_periods: self.max_regulation_periods,
        }
    }
}

/// One game of the schedule.
#[derive(Debug)]
pub struct TodayGame {
    pub id: u32,
    pub season: u32,
    pub game_type: u8,
    pub start_time_utc: String,
    pub venue: GameVenue,
    pub away_team: TeamInfo,
    pub home_team: TeamInfo,
    pub game_state: GameState,
    /// Offset of Eastern time.
    pub eastern_utc_offset: Option<String>,
    pub game_score: Option<GameScore>,
    pub period_descriptor: Option<PeriodDescriptor>,
    pub series_status: Option<SeriesStatus>,
}

impl Clone for TodayGame {
    fn clone(&self) -> (r: Self)
        ensures
            r == *self,
    {
        let period_descriptor = match &self.period_descriptor {
            Some(p) => Some(p.clone()),
            None => None,
        };
        let series_status = match &self.series_status {
            Some(s) => Some(s.clone()),
            None => None,
        };
        TodayGame {
            id: self.id,
            season: self.season,
            game_type: self.game_type,
            start_time_utc: self.start_time_utc.clone(),
            venue: self.venue.clone(),
            away_team: self.away_team.clone(),
            home_team: self.home_team.clone(),
            game_state: self.game_state,
            eastern_utc_offset: copy_opt_string(&self.eastern_utc_offset),
            game_score: self.game_score,
            period_descriptor,
            series_status,
        }
    }
}

/// Playoff series status attached to a scheduled game.
#[derive(Debug)]
pub struct SeriesStatus {
    pub round: u32,
    pub series_title: String,
    pub top_seed_team_abbrev: String,
    pub top_seed_wins: u32,
    pub bottom_seed_team_abbrev: String,
    pub bottom_seed_wins: u32,
    pub game_number_of_series: u32,
}

impl Clone for SeriesStatus {
    fn clone(&self) -> (r: Self)
        ensures
            r == *self,
    {
        SeriesStatus {
            round: self.round,
            series_title: self.series_title.clone(),
            top_seed_team_abbrev: self.top_seed_team_abbrev.clone(),
            top_seed_wins: self.top_seed_wins,
            bottom_seed_team_abbrev: self.bottom_seed_team_abbrev.clone(),
            bottom_seed_wins: self.bottom_seed_wins,
            game_number_of_series: self.game_number_of_series,
        }
    }
}

/// Per-player boxscore of one game.
#[derive(Debug)]
pub struct GameBoxscore {
    pub player_by_game_stats: PlayerByGameStats,
}

/// Both teams' players in a boxscore.
#[derive(Debug)]
pub struct PlayerByGameStats {
    pub away_team: TeamGameStats,
    pub home_team: TeamGameStats,
}

/// One team's players in a boxscore, by position group.
#[derive(Debug)]
pub struct TeamGameStats {
    pub forwards: Vec<BoxscorePlayer>,
    pub defense: Vec<BoxscorePlayer>,
    pub goalies: Vec<BoxscorePlayer>,
}

/// One player's line in a boxscore.
#[derive(Debug)]
pub struct BoxscorePlayer {
    pub player_id: i32,
    pub sweater_number: i32,
    /// The player's default-language name (empty when the API sends none).
    pub name: CommonName,
    pub position: String,
    pub goals: Option<i32>,
    pub assists: Option<i32>,
    pub points: Option<i32>,
    pub plus_minus: Option<i32>,
    pub pim: Option<i32>,
    pub hits: Option<i32>,
    pub power_play_goals: Option<i32>,
    pub sog: Option<i32>,
}

/// The games of one playoff series.
#[derive(Debug, Default)]
pub struct PlayoffSeriesGames {
    pub round: Option<i64>,
    pub season: Option<i64>,
    pub series_letter: Option<String>,
    pub games: Vec<PlayoffSeriesGame>,
}

/// One game of a playoff series.
#[derive(Debug, Default)]
pub struct PlayoffSeriesGame {
    pub id: u32,
    pub game_type: i64,
    pub start_time_utc: Option<String>,
    pub game_state: GameState,
    pub home_team: PlayoffSeriesTeam,
    pub away_team: PlayoffSeriesTeam,
}

/// One side of a playoff series game.
#[derive(Debug, Default)]
pub struct PlayoffSeriesTeam {
    pub id: i64,
    pub abbrev: String,
    pub score: Option<i32>,
}

/// The playoff bracket carousel.
#[derive(Debug, Default)]
pub struct PlayoffCarousel {
    pub season_id: i64,
    pub current_round: i64,
    pub rounds: Vec<Round>,
}

/// One round of the carousel.
#[derive(Debug, Default)]
pub struct Round {
    pub round_number: i64,
    pub round_label: String,
    pub round_abbrev: String,
    pub series: Vec<Series>,
}

/// One series of the carousel.
#[derive(Debug, Default)]
pub struct Series {
    pub series_letter: String,
    pub round_number: i64,
    pub series_label: String,
    pub series_link: String,
    pub bottom_seed: BottomSeed,
    pub top_seed: TopSeed,
    pub needed_to_win: i64,
}

/// Lower seed of a series.
#[derive(Debug, Default)]
pub struct BottomSeed {
    pub id: i64,
    pub abbrev: String,
    pub wins: i64,
    pub logo: String,
    pub dark_logo: String,
}

/// Higher seed of a series.
#[derive(Debug, Default)]
pub struct TopSeed {
    pub id: i64,
    pub abbrev: String,
    pub wins: i64,
    pub logo: String,
    pub dark_logo: String,
}

/// A player's game log for one season and game type.
#[derive(Debug)]
pub struct PlayerGameLog {
    pub season_id: u32,
    pub game_type_id: u8,
    pub player_stats_seasons: Vec<PlayerStatsSeason>,
    pub game_log: Vec<GameLogEntry>,
}

/// Seasons and game types a player appeared in.
#[derive(Debug)]
pub struct PlayerStatsSeason {
    pub season: u32,
    pub game_types: Vec<u8>,
}

/// One game of a player's game log.
#[derive(Debug)]
pub struct GameLogEntry {
    pub game_id: u32,
    pub team_abbrev: String,
    pub home_road_flag: String,
    pub game_date: String,
    pub goals: i32,
    pub assists: i32,
    pub common_name: CommonName,
    pub opponent_common_name: CommonName,
    pub points: i32,
    pub plus_minus: i32,
    pub power_play_goals: i32,
    pub power_play_points: i32,
    pub game_winning_goals: i32,
    pub ot_goals: i32,
    pub shots: i32,
    pub shifts: i32,
    pub shorthanded_goals: i32,
    pub shorthanded_points: i32,
    pub opponent_abbrev: String,
    pub pim: i32,
    pub toi: String,
}

impl Clone for GameLogEntry {
    fn clone(&self) -> (r: Self)
        ensures
            r == *self,
    {
        GameLogEntry {
            game_id: self.game_id,
            team_abbrev: self.team_abbrev.clone(),
            home_road_flag: self.home_road_flag.clone(),
            game_date: self.game_date.clone(),
            goals: self.goals,
            assists: self.assists,
            common_name: self.common_name.clone(),
            opponent_common_name: self.opponent_common_name.clone(),
            points: self.points,
            plus_minus: self.plus_minus,
            power_play_goals: self.power_play_goals,
            power_play_points: self.power_play_points,
            game_winning_goals: self.game_winning_goals,
            ot_goals: self.ot_goals,
            shots: self.shots,
            shifts: self.shifts,
            shorthanded_goals: self.shorthanded_goals,
            shorthanded_points: self.shorthanded_points,
            opponent_abbrev: self.opponent_abbrev.clone(),
            pim: self.pim,
            toi: self.toi.clone(),
        }
    }
}

/// A name with only its default text.
#[derive(Debug)]
pub struct CommonName {
    pub default: String,
}

impl Clone for CommonName {
    fn clone(&self) -> (r: Self)
        ensures
            r == *self,
    {
        CommonName { default: self.default.clone() }
    }
}

/// State of a game as the NHL API reports it.
#[derive(Debug, Clone, Copy, PartialEq, Eq, Structural, Default)]
pub enum GameState {
    Live,
    Final,
    Off,
    Crit,
    Preview,
    /// Pre-game warm-up (`"PRE"`).
    Pre,
    Fut,
    #[default]
    Unknown,
}

/// The state named by an upper-cased state string; anything unknown is
/// [`GameState::Unknown`].
pub open spec fn state_named(s: Seq<char>) -> GameState {
    if s == "LIVE"@ {
        GameState::Live
    } else if s == "FINAL"@ {
        GameState::Final
    } else if s == "OFF"@ {
        GameState::Off
    } else if s == "CRIT"@ {
        GameState::Crit
    } else if s == "FUT"@ {
        GameState::Fut
    } else if s == "PREVIEW"@ {
        GameState::Preview
    } else if s == "PRE"@ {
        GameState::Pre
    } else {
        GameState::Unknown
    }
}

/// The name a state goes by on the wire and in the mirror tables: its
/// variant in upper case.
pub open spec fn wire_name_spec(s: GameState) -> Seq<char> {
    match s {
        GameState::Live => "LIVE"@,
        GameState::Final => "FINAL"@,
        GameState::Off => "OFF"@,
        GameState::Crit => "CRIT"@,
        GameState::Preview => "PREVIEW"@,
        GameState::Pre => "PRE"@,
        GameState::Fut => "FUT"@,
        GameState::Unknown => "UNKNOWN"@,
    }
}

impl GameState {
    /// The state's wire name (`"LIVE"`, `"FINAL"`, …, `"UNKNOWN"`).
    pub fn wire_name(&self) -> (r: &'static str)
        ensures
            r@ == wire_name_spec(*self),
    {
        match self {
            GameState::Live => "LIVE",
            GameState::Final => "FINAL",
            GameState::Off => "OFF",
            GameState::Crit => "CRIT",
            GameState::Preview => "PREVIEW",
            GameState::Pre => "PRE",
            GameState::Fut => "FUT",
            GameState::Unknown => "UNKNOWN",
        }
    }

    /// Reading a state's wire name back gives the same state.
    pub proof fn lemma_wire_name_round_trip(s: GameState)
        ensures
            state_named(wire_name_spec(s)) == s,
    {
        reveal_strlit("LIVE");
        reveal_strlit("FINAL");
        reveal_strlit("OFF");
        reveal_strlit("CRIT");
        reveal_strlit("PREVIEW");
        reveal_strlit("PRE");
        reveal_strlit("FUT");
        reveal_strlit("UNKNOWN");
        assert("LIVE"@[0] != "CRIT"@[0]);
        assert("OFF"@[0] != "FUT"@[0] && "OFF"@[0] != "PRE"@[0] && "FUT"@[0] != "PRE"@[0]);
        match s {
            GameState::Live => {},
            GameState::Final => {
                assert("FINAL"@ != "LIVE"@ && "FINAL"@ != "OFF"@ && "FINAL"@ != "CRIT"@);
            },
            GameState::Off => {
                assert("OFF"@ != "LIVE"@ && "OFF"@ != "FINAL"@);
            },
            GameState::Crit => {
                assert("CRIT"@ != "LIVE"@ && "CRIT"@ != "FINAL"@ && "CRIT"@ != "OFF"@);
            },
            GameState::Preview => {
                assert("PREVIEW"@[0] != "LIVE"@[0] && "PREVIEW"@[0] != "CRIT"@[0]);
                assert("PREVIEW"@ != "LIVE"@ && "PREVIEW"@ != "FINAL"@ && "PREVIEW"@ != "OFF"@
                    && "PREVIEW"@ != "CRIT"@ && "PREVIEW"@ != "FUT"@);
            },
            GameState::Pre => {
                assert("PRE"@[0] != "LIVE"@[0] && "PRE"@[0] != "FINAL"@[0] && "PRE"@[0] != "OFF"@[0]
                    && "PRE"@[0] != "CRIT"@[0] && "PRE"@[0] != "FUT"@[0]);
                assert("PRE"@.len() != "PREVIEW"@.len());
                assert("PRE"@ != "LIVE"@ && "PRE"@ != "FINAL"@ && "PRE"@ != "OFF"@ && "PRE"@
                    != "CRIT"@ && "PRE"@ != "FUT"@ && "PRE"@ != "PREVIEW"@);
            },
            GameState::Fut => {
                assert("FUT"@[0] != "LIVE"@[0] && "FUT"@[1] != "FINAL"@[1] && "FUT"@[0] != "OFF"@[0]
                    && "FUT"@[0] != "CRIT"@[0]);
                assert("FUT"@ != "LIVE"@ && "FUT"@ != "FINAL"@ && "FUT"@ != "OFF"@ && "FUT"@
                    != "CRIT"@);
            },
            GameState::Unknown => {
                assert("UNKNOWN"@[0] != "LIVE"@[0] && "UNKNOWN"@[0] != "FINAL"@[0]
                    && "UNKNOWN"@[0] != "OFF"@[0] && "UNKNOWN"@[0] != "CRIT"@[0]
                    && "UNKNOWN"@[0] != "FUT"@[0] && "UNKNOWN"@[0] != "PRE"@[0]);
            },
        }
    }

    /// The game is over (`FINAL` or `OFF`).
    pub fn is_completed(&self) -> (r: bool)
        ensures
            r == (*self == GameState::Final || *self == GameState::Off),
    {
        match self {
            GameState::Final | GameState::Off => true,
            _ => false,
        }
    }

    /// The game is being played (`LIVE` or `CRIT`).
    pub fn is_live(&self) -> (r: bool)
        ensures
            r == (*self == GameState::Live || *self == GameState::Crit),
    {
        match self {
            GameState::Live | GameState::Crit => true,
            _ => false,
        }
    }

    /// The game has not started (`PREVIEW`, `PRE` or `FUT`).
    pub fn is_upcoming(&self) -> (r: bool)
        ensures
            r == (*self == GameState::Preview || *self == GameState::Pre || *self
                == GameState::Fut),
    {
        match self {
            GameState::Preview | GameState::Pre | GameState::Fut => true,
            _ => false,
        }
    }

    /// Parses a state string case-insensitively (by upper-casing it);
    /// unknown strings give [`GameState::Unknown`].
    pub fn parse(s: &str) -> (r: GameState)
        ensures
            r == state_named(uppercase_of(s@)),
    {
        let u = to_uppercase(s);
        let u = u.as_str();
        if str_eq(u, "LIVE") {
            GameState::Live
        } else if str_eq(u, "FINAL") {
            GameState::Final
        } else if str_eq(u, "OFF") {
            GameState::Off
        } else if str_eq(u, "CRIT") {
            GameState::Crit
        } else if str_eq(u, "FUT") {
            GameState::Fut
        } else if str_eq(u, "PREVIEW") {
            GameState::Preview
        } else if str_eq(u, "PRE") {
            GameState::Pre
        } else {
            GameState::Unknown
        }
    }

    /// Exactly one of completed, live and upcoming holds, except for
    /// `Unknown`, which is none of them.
    pub proof fn lemma_phases_partition(s: GameState)
        ensures
            s != GameState::Unknown ==> (s == GameState::Final || s == GameState::Off) as int + (s
                == GameState::Live || s == GameState::Crit) as int + (s == GameState::Preview || s
                == GameState::Pre || s == GameState::Fut) as int == 1,
            s == GameState::Unknown ==> !(s == GameState::Final || s == GameState::Off) && !(s
                == GameState::Live || s == GameState::Crit) && !(s == GameState::Preview || s
                == GameState::Pre || s == GameState::Fut),
    {
    }
}

impl core::str::FromStr for GameState {
    type Err = ();

    /// Never fails: the state [`GameState::parse`] reads from `s`.
    fn from_str(s: &str) -> (r: Result<GameState, ()>)
        ensures
            r == Ok::<GameState, ()>(state_named(uppercase_of(s@))),
    {
        Ok(GameState::parse(s))
    }
}

} // verus!
