use fantasy_hockey::domain::models::fantasy::{FantasyTeamInGame, PlayerInGame};
use fantasy_hockey::domain::models::nhl::{
    BoxscorePlayer, CommonName, GameBoxscore, GameLogEntry, PlayerByGameStats, TeamGameStats,
};
use fantasy_hockey::domain::prediction::player_projection::GameStats;
use fantasy_hockey::utils::fantasy::process_game_performances;
use fantasy_hockey::utils::nhl::{
    calculate_form_from_game_log, calculate_totals_from_game_log, find_player_stats_by_name,
    playoff_participation, recent_form_totals,
};
use fantasy_hockey::utils::playoff_ingest::boxscore_to_row;

fn bp(id: i32, name: &str, goals: Option<i32>, assists: Option<i32>) -> BoxscorePlayer {
    BoxscorePlayer {
        player_id: id,
        sweater_number: 0,
        name: CommonName { default: name.to_string() },
        position: "C".to_string(),
        goals,
        assists,
        points: None,
        plus_minus: None,
        pim: None,
        hits: None,
        power_play_goals: None,
        sog: None,
    }
}

fn team(forwards: Vec<BoxscorePlayer>, defense: Vec<BoxscorePlayer>) -> TeamGameStats {
    TeamGameStats { forwards, defense, goalies: vec![] }
}

fn boxscore() -> GameBoxscore {
    GameBoxscore {
        player_by_game_stats: PlayerByGameStats {
            away_team: team(
                vec![bp(8478402, "C. McDavid", Some(1), Some(2)), bp(8477934, "L. Draisaitl", Some(2), None)],
                vec![bp(8475218, "M. Ekholm", None, Some(1))],
            ),
            home_team: team(
                vec![bp(8477492, "N. MacKinnon", Some(0), Some(0))],
                vec![bp(8480069, "C. Makar", Some(1), Some(1))],
            ),
        },
    }
}

fn pig(player_id: i64, nhl_id: i64, name: &str) -> PlayerInGame {
    PlayerInGame {
        player_id,
        nhl_id,
        player_name: name.to_string(),
        nhl_team: "EDM".to_string(),
        position: "C".to_string(),
    }
}

fn log_entry(goals: i32, assists: i32) -> GameLogEntry {
    GameLogEntry {
        game_id: 1,
        team_abbrev: "EDM".to_string(),
        home_road_flag: "H".to_string(),
        game_date: "2025-04-20".to_string(),
        goals,
        assists,
        common_name: CommonName { default: "Oilers".to_string() },
        opponent_common_name: CommonName { default: "Kings".to_string() },
        points: goals + assists,
        plus_minus: 0,
        power_play_goals: 0,
        power_play_points: 0,
        game_winning_goals: 0,
        ot_goals: 0,
        shots: 3,
        shifts: 20,
        shorthanded_goals: 0,
        shorthanded_points: 0,
        opponent_abbrev: "LAK".to_string(),
        pim: 0,
        toi: "20:00".to_string(),
    }
}

#[test]
fn player_stats_prefer_the_nhl_id() {
    let b = boxscore();
    assert_eq!(find_player_stats_by_name(&b, "EDM", "Someone Else", Some(8478402)), (1, 2));
    assert_eq!(find_player_stats_by_name(&b, "COL", "x", Some(8480069)), (1, 1));
    assert_eq!(find_player_stats_by_name(&b, "EDM", "Mattias Ekholm", Some(8475218)), (0, 1));
}

#[test]
fn player_stats_fall_back_to_the_last_name() {
    let b = boxscore();
    assert_eq!(find_player_stats_by_name(&b, "EDM", "Leon DRAISAITL", None), (2, 0));
    assert_eq!(find_player_stats_by_name(&b, "EDM", "Connor McDavid", Some(1)), (1, 2));
    assert_eq!(find_player_stats_by_name(&b, "COL", "makar", None), (1, 1));
    assert_eq!(find_player_stats_by_name(&b, "EDM", "Zach Hyman", Some(8475786)), (0, 0));
}

#[test]
fn game_log_totals_and_form() {
    let log = vec![log_entry(1, 1), log_entry(0, 2), log_entry(3, 0)];
    assert_eq!(calculate_totals_from_game_log(&log), (4, 3, 7, 3));
    assert_eq!(calculate_totals_from_game_log(&[]), (0, 0, 0, 0));
    let (g, a, p, games) = calculate_form_from_game_log(&log, 2);
    assert_eq!((g, a, p), (1, 3, 4));
    assert_eq!(games.len(), 2);
    assert_eq!(games[1].assists, 2);
    let (g, a, p, games) = calculate_form_from_game_log(&log, 10);
    assert_eq!((g, a, p, games.len()), (4, 3, 7, 3));
    let (g, a, p, games) = calculate_form_from_game_log(&log, 0);
    assert_eq!((g, a, p, games.len()), (0, 0, 0, 0));
}

#[test]
fn game_performances_keep_scoring_players_and_teams() {
    let b = boxscore();
    let teams = vec![
        FantasyTeamInGame {
            team_id: 1,
            team_name: "Oil Barons".to_string(),
            players: vec![
                pig(10, 8478402, "Connor McDavid"),
                pig(11, 8477492, "Nathan MacKinnon"),
                pig(12, 8475218, "Mattias Ekholm"),
            ],
        },
        FantasyTeamInGame {
            team_id: 2,
            team_name: "Blanks".to_string(),
            players: vec![pig(20, 8477492, "Nathan MacKinnon"), pig(21, 1, "Nobody Here")],
        },
        FantasyTeamInGame {
            team_id: 3,
            team_name: "Leon Fans".to_string(),
            players: vec![pig(30, 999, "Leon Draisaitl")],
        },
    ];
    let perfs = process_game_performances(&teams, &b);
    assert_eq!(perfs.len(), 2);
    assert_eq!(perfs[0].team_id, 1);
    assert_eq!(perfs[0].team_name, "Oil Barons");
    assert_eq!(perfs[0].player_performances.len(), 2);
    assert_eq!(perfs[0].player_performances[0].player_id, 10);
    assert_eq!(perfs[0].player_performances[0].points, 3);
    assert_eq!(perfs[0].player_performances[1].player_id, 12);
    assert_eq!((perfs[0].total_goals, perfs[0].total_assists, perfs[0].total_points), (1, 3, 4));
    assert_eq!(perfs[1].team_id, 3);
    assert_eq!((perfs[1].total_goals, perfs[1].total_assists, perfs[1].total_points), (2, 0, 2));
}

#[test]
fn boxscore_rows_fill_missing_counts() {
    let mut p = bp(8477934, "L. Draisaitl", Some(2), None);
    p.sog = Some(5);
    p.power_play_goals = Some(1);
    let r = boxscore_to_row(&p, "EDM", "LAK", false);
    assert_eq!(r.player_id, 8477934);
    assert_eq!((r.goals, r.assists, r.points), (2, 0, 2));
    assert_eq!(r.shots, Some(5));
    assert_eq!(r.pp_points, Some(1));
    assert_eq!((r.team_abbrev.as_str(), r.opponent.as_str(), r.home), ("EDM", "LAK", false));
    let mut q = bp(1, "A. B", None, Some(1));
    q.points = Some(7);
    let r = boxscore_to_row(&q, "LAK", "EDM", true);
    assert_eq!((r.goals, r.assists, r.points), (0, 1, 7));
    assert!(r.home);
}

#[test]
fn game_stats_points_are_goals_plus_assists() {
    let g = GameStats { goals: 2, assists: 3, shots: Some(6), pp_points: None, toi_seconds: None };
    assert_eq!(g.points(), 5);
    assert_eq!(GameStats::default().points(), 0);
}

#[test]
fn recent_form_sums_the_last_games() {
    let log = vec![log_entry(1, 1), log_entry(0, 2), log_entry(3, 0)];
    assert_eq!(recent_form_totals(&log, 2), (3, 2, 5));
    assert_eq!(recent_form_totals(&log, 1), (3, 0, 3));
    assert_eq!(recent_form_totals(&log, 9), (4, 3, 7));
    assert_eq!(recent_form_totals(&log, 0), (0, 0, 0));
    assert_eq!(recent_form_totals(&[], 5), (0, 0, 0));
}

#[test]
fn playoff_participation_needs_a_game() {
    let log = vec![log_entry(1, 1), log_entry(0, 2)];
    assert_eq!(playoff_participation(&log), (true, 1, 3, 4, 2));
    assert_eq!(playoff_participation(&[]), (false, 0, 0, 0, 0));
}

use fantasy_hockey::domain::models::nhl::GameState;
use fantasy_hockey::infra::nhl::urls::extended_player;

#[test]
fn match_day_line_adds_boxscore_totals_and_form() {
    let b = boxscore();
    let p = pig(11, 8478402, "Connor McDavid");
    let mut first = log_entry(1, 1);
    first.toi = "22:41".to_string();
    let log = vec![first, log_entry(0, 2), log_entry(2, 0)];
    let line = extended_player("Zamboni Drivers", 5, "EDM", &p, Some(&log), 2, GameState::Live, Some(&b));
    assert_eq!((line.fantasy_team.as_str(), line.fantasy_team_id, line.nhl_team.as_str()), ("Zamboni Drivers", 5, "EDM"));
    assert_eq!(line.image_url, "https://assets.nhle.com/mugs/nhl/latest/8478402.png");
    assert_eq!(line.team_logo, "https://assets.nhle.com/logos/nhl/svg/EDM_light.svg");
    assert_eq!((line.goals, line.assists, line.points), (1, 2, 3));
    assert_eq!(
        (line.playoff_goals, line.playoff_assists, line.playoff_points, line.playoff_games),
        (3, 3, 6, 3)
    );
    let form = line.form.unwrap();
    assert_eq!((form.games, form.goals, form.assists, form.points), (2, 1, 3, 4));
    assert_eq!(line.time_on_ice.as_deref(), Some("22:41"));

    let upcoming = extended_player("Z", 5, "EDM", &p, None, 5, GameState::Fut, Some(&b));
    assert_eq!((upcoming.goals, upcoming.points, upcoming.playoff_games), (0, 0, 0));
    assert!(upcoming.form.is_none() && upcoming.time_on_ice.is_none());

    let no_form = extended_player("Z", 5, "EDM", &p, Some(&log), 0, GameState::Off, None);
    assert_eq!((no_form.goals, no_form.playoff_points), (0, 6));
    assert!(no_form.form.is_none() && no_form.time_on_ice.is_none());
}
