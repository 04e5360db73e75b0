use fantasy_hockey::calendar::day_texts;
use fantasy_hockey::domain::models::fantasy::{FantasyTeamInGame, PlayerInGame};
use fantasy_hockey::domain::models::nhl::{
    PlayoffSeriesGame, PlayoffSeriesGames, PlayoffSeriesTeam,
    BoxscorePlayer, CommonName, GameBoxscore, GameDay, GameScore, GameState, GameVenue,
    PlayerByGameStats, SeriesStatus, TeamGameStats, TeamInfo, TodayGame, TodaySchedule,
};
use fantasy_hockey::error::Error;
use fantasy_hockey::domain::prediction::grade::{bucket_from_signals, Grade, PlayerBucket};
use fantasy_hockey::domain::prediction::series_projection::SeriesStateCode;
use fantasy_hockey::infra::jobs::rehydrate::schedule_dates;
use fantasy_hockey::infra::nhl::urls::{create_games_summary, get_fantasy_players_for_nhl_team};
use fantasy_hockey::utils::playoff_ingest::{
    backfill_dates, games_for_logging, prepare_game_ingest, series_game_result, series_results,
};
use fantasy_hockey::infra::db::nhl_mirror::boxscore_player_rows;
use fantasy_hockey::utils::scheduler::{historical_ranking_dates, plan_daily_rankings, RankingsPlan};

fn ti(abbrev: &str) -> TeamInfo {
    TeamInfo { id: 0, abbrev: abbrev.to_string(), common_name: None, place_name: None }
}

fn game(id: u32, game_type: u8, state: GameState, home: &str, away: &str) -> TodayGame {
    TodayGame {
        id,
        season: 20242025,
        game_type,
        start_time_utc: "2025-04-20T23:00:00Z".to_string(),
        venue: GameVenue { default: "Arena".to_string() },
        away_team: ti(away),
        home_team: ti(home),
        game_state: state,
        eastern_utc_offset: None,
        game_score: None,
        period_descriptor: None,
        series_status: None,
    }
}

fn pig(nhl_id: i64, name: &str) -> PlayerInGame {
    PlayerInGame {
        player_id: nhl_id,
        nhl_id,
        player_name: name.to_string(),
        nhl_team: String::new(),
        position: "C".to_string(),
    }
}

type Rostered = Vec<(String, Vec<(String, Vec<PlayerInGame>)>)>;

fn rostered() -> Rostered {
    vec![
        (
            "EDM".to_string(),
            vec![
                ("Zamboni Drivers".to_string(), vec![pig(1, "Connor McDavid"), pig(2, "Evan Bouchard")]),
                ("Apple Pickers".to_string(), vec![pig(3, "Leon Draisaitl")]),
            ],
        ),
        ("LAK".to_string(), vec![("Apple Pickers".to_string(), vec![pig(4, "Kevin Fiala")])]),
        ("FLA".to_string(), vec![("Apple Pickers".to_string(), vec![pig(5, "Sam Reinhart")])]),
        ("BOS".to_string(), vec![]),
    ]
}

#[test]
fn game_state_parses_case_insensitively() {
    assert_eq!(GameState::parse("live"), GameState::Live);
    assert_eq!(GameState::parse("FINAL"), GameState::Final);
    assert_eq!(GameState::parse("Off"), GameState::Off);
    assert_eq!(GameState::parse("crit"), GameState::Crit);
    assert_eq!(GameState::parse("PRE"), GameState::Pre);
    assert_eq!(GameState::parse("preview"), GameState::Preview);
    assert_eq!(GameState::parse("FUT"), GameState::Fut);
    assert_eq!(GameState::parse("POSTPONED"), GameState::Unknown);
    assert_eq!("off".parse::<GameState>(), Ok(GameState::Off));
    assert!(GameState::Off.is_completed() && !GameState::Off.is_live());
    assert!(GameState::Crit.is_live() && !GameState::Crit.is_upcoming());
    assert!(GameState::Pre.is_upcoming() && !GameState::Pre.is_completed());
    let u = GameState::Unknown;
    assert!(!u.is_completed() && !u.is_live() && !u.is_upcoming());
}

#[test]
fn schedule_lookup_and_completed_playoff_count() {
    let schedule = TodaySchedule {
        game_week: vec![
            GameDay {
                date: "2025-04-20".to_string(),
                games: vec![
                    game(1, 3, GameState::Final, "EDM", "LAK"),
                    game(2, 3, GameState::Live, "FLA", "TBL"),
                    game(3, 2, GameState::Off, "BOS", "NYR"),
                    game(4, 3, GameState::Off, "WSH", "MTL"),
                ],
            },
            GameDay { date: "2025-04-21".to_string(), games: vec![game(5, 3, GameState::Fut, "DAL", "COL")] },
        ],
    };
    let today = schedule.games_for_date("2025-04-20");
    assert_eq!(today.iter().map(|g| g.id).collect::<Vec<_>>(), vec![1, 2, 3, 4]);
    assert_eq!(schedule.games_for_date("2025-04-21").len(), 1);
    assert!(schedule.games_for_date("2025-04-22").is_empty());
    assert_eq!(games_for_logging(&schedule, "2025-04-20"), 2);
    assert_eq!(games_for_logging(&schedule, "2025-04-21"), 0);
    assert_eq!(games_for_logging(&schedule, "1999-01-01"), 0);
}

#[test]
fn games_summary_counts_teams_and_rostered_players() {
    let games = vec![
        game(1, 3, GameState::Fut, "EDM", "LAK"),
        game(2, 3, GameState::Fut, "FLA", "BOS"),
        game(3, 3, GameState::Fut, "LAK", "EDM"),
    ];
    let s = create_games_summary(&games, &rostered());
    assert_eq!(s.total_games, 3);
    assert_eq!(s.total_teams_playing, 4);
    let counts: Vec<(String, usize)> =
        s.team_players_count.iter().map(|c| (c.nhl_team.clone(), c.player_count)).collect();
    assert_eq!(
        counts,
        vec![("EDM".to_string(), 3), ("FLA".to_string(), 1), ("LAK".to_string(), 1)]
    );
    let none = create_games_summary(&[], &rostered());
    assert_eq!((none.total_games, none.total_teams_playing), (0, 0));
    assert!(none.team_players_count.is_empty());
}

#[test]
fn fantasy_players_of_a_team_are_sorted_by_fantasy_team() {
    let fantasy_teams = vec![
        FantasyTeamInGame { team_id: 7, team_name: "Apple Pickers".to_string(), players: vec![] },
        FantasyTeamInGame { team_id: 9, team_name: "Other".to_string(), players: vec![] },
    ];
    let out = get_fantasy_players_for_nhl_team(&rostered(), "EDM", &fantasy_teams);
    let names: Vec<(&str, i64, &str)> = out
        .iter()
        .map(|p| (p.fantasy_team.as_str(), p.fantasy_team_id, p.player_name.as_str()))
        .collect();
    assert_eq!(
        names,
        vec![
            ("Apple Pickers", 7, "Leon Draisaitl"),
            ("Zamboni Drivers", 0, "Connor McDavid"),
            ("Zamboni Drivers", 0, "Evan Bouchard"),
        ]
    );
    assert_eq!(out[1].image_url, "https://assets.nhle.com/mugs/nhl/latest/1.png");
    assert_eq!((out[1].goals, out[1].assists, out[1].points), (0, 0, 0));
    assert_eq!(out[0].position, "C");
    assert!(get_fantasy_players_for_nhl_team(&rostered(), "TOR", &fantasy_teams).is_empty());
    assert!(get_fantasy_players_for_nhl_team(&rostered(), "BOS", &fantasy_teams).is_empty());
}

#[test]
fn backfill_dates_cover_the_range_inclusively() {
    assert_eq!(
        backfill_dates("2024-02-27", "2024-03-02"),
        vec!["2024-02-27", "2024-02-28", "2024-02-29", "2024-03-01", "2024-03-02"]
    );
    assert_eq!(backfill_dates("2025-04-19", "2025-04-19"), vec!["2025-04-19"]);
    assert!(backfill_dates("2025-04-20", "2025-04-19").is_empty());
    assert!(backfill_dates("not a date", "2025-04-19").is_empty());
    assert!(backfill_dates("2025-04-19", "2025-02-30").is_empty());
    assert_eq!(
        backfill_dates("2024-12-31", "2025-01-01"),
        vec!["2024-12-31", "2025-01-01"]
    );
}

#[test]
fn schedule_dates_run_from_the_playoff_start_to_tomorrow() {
    // 2025-04-21 is day 739362 of the proleptic Gregorian calendar.
    let today = 739362;
    assert_eq!(day_texts(today, today), vec!["2025-04-21"]);
    assert_eq!(
        schedule_dates("2025-04-19", today),
        vec!["2025-04-19", "2025-04-20", "2025-04-21", "2025-04-22"]
    );
    assert_eq!(schedule_dates("2025-05-01", today), vec!["2025-04-21", "2025-04-22"]);
    assert_eq!(schedule_dates("garbage", today), vec!["2025-04-21", "2025-04-22"]);
    assert!(day_texts(5, 4).is_empty());
    assert!(day_texts(i32::MAX - 1, i32::MAX).is_empty());
}

#[test]
fn bucket_priorities() {
    assert_eq!(bucket_from_signals(Grade::A, SeriesStateCode::Eliminated, true, false, true), PlayerBucket::TeamEliminated);
    assert_eq!(bucket_from_signals(Grade::A, SeriesStateCode::Eliminated, false, true, false), PlayerBucket::TeamEliminated);
    assert_eq!(bucket_from_signals(Grade::A, SeriesStateCode::Tied, false, false, true), PlayerBucket::ProblemAsset);
    assert_eq!(bucket_from_signals(Grade::C, SeriesStateCode::Tied, true, true, false), PlayerBucket::ProblemAsset);
    assert_eq!(bucket_from_signals(Grade::NotEnoughData, SeriesStateCode::Tied, true, false, true), PlayerBucket::TooEarly);
    assert_eq!(bucket_from_signals(Grade::B, SeriesStateCode::Leading, true, false, true), PlayerBucket::Outperforming);
    assert_eq!(bucket_from_signals(Grade::F, SeriesStateCode::Trailing, true, false, true), PlayerBucket::KeepFaith);
    assert_eq!(bucket_from_signals(Grade::D, SeriesStateCode::FacingElim, true, false, true), PlayerBucket::KeepFaith);
    assert_eq!(bucket_from_signals(Grade::F, SeriesStateCode::Trailing, true, false, false), PlayerBucket::NeedMiracle);
    assert_eq!(bucket_from_signals(Grade::F, SeriesStateCode::Leading, true, false, true), PlayerBucket::NeedMiracle);
    assert_eq!(bucket_from_signals(Grade::D, SeriesStateCode::Leading, true, false, true), PlayerBucket::FineButFragile);
    assert_eq!(bucket_from_signals(Grade::C, SeriesStateCode::Leading, true, false, true), PlayerBucket::OnPace);
}

fn skater(id: i32, goals: Option<i32>, assists: Option<i32>) -> BoxscorePlayer {
    BoxscorePlayer {
        player_id: id,
        sweater_number: 0,
        name: CommonName { default: format!("P. {id}") },
        position: "C".to_string(),
        goals,
        assists,
        points: None,
        plus_minus: None,
        pim: None,
        hits: None,
        power_play_goals: None,
        sog: None,
    }
}

fn ingest_boxscore() -> GameBoxscore {
    GameBoxscore {
        player_by_game_stats: PlayerByGameStats {
            away_team: TeamGameStats {
                forwards: vec![skater(1, Some(2), Some(0))],
                defense: vec![skater(2, None, Some(1))],
                goalies: vec![skater(3, Some(1), None)],
            },
            home_team: TeamGameStats {
                forwards: vec![skater(4, Some(1), Some(1)), skater(5, Some(1), None)],
                defense: vec![skater(6, Some(0), Some(2))],
                goalies: vec![],
            },
        },
    }
}

#[test]
fn game_ingest_rows_prefer_the_scheduled_score() {
    let mut g = game(2024030411, 3, GameState::Off, "EDM", "FLA");
    g.game_score = Some(GameScore { away: 3, home: 4 });
    g.series_status = Some(SeriesStatus {
        round: 4,
        series_title: "Final".to_string(),
        top_seed_team_abbrev: "EDM".to_string(),
        top_seed_wins: 1,
        bottom_seed_team_abbrev: "FLA".to_string(),
        bottom_seed_wins: 0,
        game_number_of_series: 1,
    });
    let (row, lines) = prepare_game_ingest("2025-06-04", &g, &ingest_boxscore()).unwrap();
    assert_eq!((row.season, row.game_type, row.game_id), (20242025, 3, 2024030411));
    assert_eq!(row.game_date, "2025-06-04");
    assert_eq!((row.home_team.as_str(), row.away_team.as_str()), ("EDM", "FLA"));
    assert_eq!((row.home_score, row.away_score), (4, 3));
    assert_eq!(row.winner, "EDM");
    assert_eq!(row.round, Some(4));
    let ids: Vec<i64> = lines.iter().map(|l| l.player_id).collect();
    assert_eq!(ids, vec![1, 2, 4, 5, 6]);
    assert!(!lines[0].home && lines[2].home);
    assert_eq!((lines[0].team_abbrev.as_str(), lines[0].opponent.as_str()), ("FLA", "EDM"));
    assert_eq!((lines[4].team_abbrev.as_str(), lines[4].opponent.as_str()), ("EDM", "FLA"));
    assert_eq!((lines[1].goals, lines[1].assists, lines[1].points), (0, 1, 1));
}

#[test]
fn game_ingest_falls_back_to_boxscore_goals() {
    let g = game(7, 3, GameState::Final, "EDM", "FLA");
    let (row, _) = prepare_game_ingest("2025-06-04", &g, &ingest_boxscore()).unwrap();
    // Home skaters scored 1 + 1 + 0, away skaters 2 + 0 (goalies do not count).
    assert_eq!((row.home_score, row.away_score), (2, 2));
    assert_eq!(row.winner, "FLA");
    assert_eq!(row.round, None);
}

#[test]
fn game_ingest_rejects_a_bad_date() {
    let g = game(7, 3, GameState::Final, "EDM", "FLA");
    match prepare_game_ingest("2025-13-40", &g, &ingest_boxscore()) {
        Err(Error::Internal(m)) => assert!(m.starts_with("bad date 2025-13-40: "), "{m}"),
        other => panic!("unexpected {:?}", other.map(|_| ())),
    }
}

#[test]
fn historical_ranking_dates_walk_the_range_or_name_the_bad_end() {
    assert_eq!(
        historical_ranking_dates("2025-04-19", "2025-04-21").unwrap(),
        vec!["2025-04-19", "2025-04-20", "2025-04-21"]
    );
    assert!(historical_ranking_dates("2025-04-21", "2025-04-19").unwrap().is_empty());
    match historical_ranking_dates("2025-13-01", "2025-04-21") {
        Err(Error::Validation(m)) => {
            assert!(m.starts_with("Invalid start date: "));
            assert!(m.len() > "Invalid start date: ".len());
        }
        other => panic!("unexpected {:?}", other),
    }
    match historical_ranking_dates("2025-04-19", "tomorrow") {
        Err(Error::Validation(m)) => assert!(m.starts_with("Invalid end date: ")),
        other => panic!("unexpected {:?}", other),
    }
    match historical_ranking_dates("bad", "worse") {
        Err(Error::Validation(m)) => assert!(m.starts_with("Invalid start date: ")),
        other => panic!("unexpected {:?}", other),
    }
}

fn week(date: &str, games: Vec<TodayGame>) -> TodaySchedule {
    TodaySchedule { game_week: vec![GameDay { date: date.to_string(), games }] }
}

#[test]
fn rankings_run_waits_for_live_games_and_scores_finished_ones() {
    let empty = week("2025-04-20", vec![]);
    assert!(matches!(plan_daily_rankings(&empty, "2025-04-20"), RankingsPlan::NoGames));
    let other_day = week("2025-04-21", vec![game(1, 3, GameState::Final, "EDM", "LAK")]);
    assert!(matches!(plan_daily_rankings(&other_day, "2025-04-20"), RankingsPlan::NoGames));

    let live = week(
        "2025-04-20",
        vec![game(1, 3, GameState::Final, "EDM", "LAK"), game(2, 3, GameState::Crit, "FLA", "TBL")],
    );
    assert!(matches!(plan_daily_rankings(&live, "2025-04-20"), RankingsPlan::GamesInProgress));

    let not_started = week("2025-04-20", vec![game(3, 3, GameState::Fut, "DAL", "COL")]);
    assert!(matches!(plan_daily_rankings(&not_started, "2025-04-20"), RankingsPlan::NoCompletedGames));

    let mixed = week(
        "2025-04-20",
        vec![
            game(4, 3, GameState::Off, "EDM", "LAK"),
            game(5, 3, GameState::Pre, "DAL", "COL"),
            game(6, 3, GameState::Final, "FLA", "TBL"),
        ],
    );
    match plan_daily_rankings(&mixed, "2025-04-20") {
        RankingsPlan::Score(gs) => assert_eq!(gs.iter().map(|g| g.id).collect::<Vec<_>>(), vec![4, 6]),
        other => panic!("unexpected {:?}", other),
    }
}

#[test]
fn mirror_lines_run_home_then_away_with_defaults() {
    let mut b = ingest_boxscore();
    b.player_by_game_stats.away_team.goalies[0].name = CommonName { default: String::new() };
    b.player_by_game_stats.home_team.forwards[0].points = Some(7);
    b.player_by_game_stats.home_team.forwards[0].hits = Some(3);
    let rows = boxscore_player_rows(2024030411, "EDM", "FLA", &b);
    let ids: Vec<i64> = rows.iter().map(|r| r.player_id).collect();
    assert_eq!(ids, vec![4, 5, 6, 1, 2, 3]);
    assert!(rows.iter().all(|r| r.game_id == 2024030411));
    assert_eq!(rows[0].team_abbrev, "EDM");
    assert_eq!((rows[0].goals, rows[0].assists, rows[0].points, rows[0].hits), (1, 1, 7, Some(3)));
    assert_eq!((rows[1].goals, rows[1].assists, rows[1].points), (1, 0, 1));
    assert_eq!(rows[3].team_abbrev, "FLA");
    assert_eq!((rows[4].goals, rows[4].assists, rows[4].points), (0, 1, 1));
    assert_eq!(rows[4].name, "P. 2");
    assert_eq!(rows[5].name, "Player 3");
}

fn series_game(id: u32, state: GameState, home: (&str, Option<i32>), away: (&str, Option<i32>), start: Option<&str>) -> PlayoffSeriesGame {
    PlayoffSeriesGame {
        id,
        game_type: 3,
        start_time_utc: start.map(|s| s.to_string()),
        game_state: state,
        home_team: PlayoffSeriesTeam { id: 1, abbrev: home.0.to_string(), score: home.1 },
        away_team: PlayoffSeriesTeam { id: 2, abbrev: away.0.to_string(), score: away.1 },
    }
}

#[test]
fn series_games_give_result_rows_for_finished_scored_games() {
    let g = series_game(2023030111, GameState::Off, ("VGK", Some(4)), ("WPG", Some(5)), Some("2023-04-18T02:00:00Z"));
    let row = series_game_result(20222023, 1, &g).unwrap();
    assert_eq!((row.season, row.game_type, row.game_id), (20222023, 3, 2023030111));
    assert_eq!(row.game_date, "2023-04-18");
    assert_eq!((row.home_team.as_str(), row.away_team.as_str()), ("VGK", "WPG"));
    assert_eq!((row.home_score, row.away_score, row.winner.as_str(), row.round), (4, 5, "WPG", Some(1)));

    let tie = series_game(7, GameState::Final, ("EDM", Some(2)), ("LAK", Some(2)), Some("2023-04-20T02:00:00Z"));
    assert_eq!(series_game_result(20222023, 1, &tie).unwrap().winner, "LAK");

    let live = series_game(8, GameState::Live, ("EDM", Some(1)), ("LAK", Some(0)), Some("2023-04-21T02:00:00Z"));
    assert!(series_game_result(20222023, 1, &live).is_none());
    let no_score = series_game(9, GameState::Final, ("EDM", None), ("LAK", Some(0)), Some("2023-04-21T02:00:00Z"));
    assert!(series_game_result(20222023, 1, &no_score).is_none());
    let no_start = series_game(10, GameState::Final, ("EDM", Some(3)), ("LAK", Some(0)), None);
    assert!(series_game_result(20222023, 1, &no_start).is_none());

    let list = PlayoffSeriesGames { round: Some(1), season: Some(20222023), series_letter: Some("A".to_string()), games: vec![g, live, tie] };
    let rows = series_results(20222023, 1, &list);
    assert_eq!(rows.iter().map(|r| r.game_id).collect::<Vec<_>>(), vec![2023030111, 7]);
}
