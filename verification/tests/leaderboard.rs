use fantasy_hockey::infra::db::nhl_mirror::{
    merge_goalie_leaderboard, merge_skater_leaderboard, GoalieLeaderEntry, GoalieLeaderboard,
    LeaderEntry, SkaterLeaderboard,
};
use fantasy_hockey::infra::jobs::player_pool::pool_players;

fn e(id: i64, first: &str, team: &str, value: i32) -> LeaderEntry {
    LeaderEntry {
        player_id: id,
        first_name: first.to_string(),
        last_name: format!("Last{id}"),
        team: team.to_string(),
        position: "C".to_string(),
        value,
    }
}

#[test]
fn leaderboard_categories_merge_into_one_row_per_player() {
    let board = SkaterLeaderboard {
        goals: vec![e(1, "Leon", "EDM", 50), e(2, "Auston", "TOR", 45)],
        assists: vec![e(3, "Connor", "EDM", 90), e(1, "Leon-dup", "XXX", 60)],
        points: vec![e(3, "Connor", "EDM", 130), e(1, "Leon", "EDM", 110)],
        plus_minus: vec![e(2, "Auston", "TOR", -3)],
        faceoff_leaders: vec![e(4, "Sidney", "PIT", 0)],
        toi: vec![e(3, "Connor", "EDM", 1300), e(3, "Connor", "EDM", 1310)],
    };
    let rows = merge_skater_leaderboard(20242025, &board);
    let ids: Vec<i64> = rows.iter().map(|r| r.player_id).collect();
    assert_eq!(ids, vec![1, 2, 3, 4]);

    let leon = &rows[0];
    assert_eq!((leon.first_name.as_str(), leon.team.as_str()), ("Leon", "EDM"));
    assert_eq!((leon.goals, leon.assists, leon.points), (50, 60, 110));
    assert_eq!((leon.plus_minus, leon.toi_per_game), (None, None));
    assert_eq!(leon.headshot_url, "https://assets.nhle.com/mugs/nhl/20242025/EDM/1.png");

    let auston = &rows[1];
    assert_eq!((auston.goals, auston.assists, auston.points), (45, 0, 0));
    assert_eq!(auston.plus_minus, Some(-3));

    let connor = &rows[2];
    assert_eq!((connor.goals, connor.assists, connor.points), (0, 90, 130));
    assert_eq!(connor.toi_per_game, Some(1310));

    let sid = &rows[3];
    assert_eq!((sid.goals, sid.assists, sid.points, sid.plus_minus), (0, 0, 0, None));
    assert_eq!(sid.headshot_url, "https://assets.nhle.com/mugs/nhl/20242025/PIT/4.png");
}

#[test]
fn empty_leaderboard_gives_no_rows() {
    let board = SkaterLeaderboard {
        goals: vec![],
        assists: vec![],
        points: vec![],
        plus_minus: vec![],
        faceoff_leaders: vec![],
        toi: vec![],
    };
    assert!(merge_skater_leaderboard(20242025, &board).is_empty());
}

#[test]
fn draft_pool_lists_each_player_once_from_his_first_entry() {
    let lists = vec![
        vec![e(1, "Leon", "EDM", 50), e(2, "Auston", "TOR", 45)],
        vec![],
        vec![e(2, "Auston-later", "XXX", 0), e(3, "Cale", "COL", 0)],
    ];
    let pool = pool_players(&lists);
    let ids: Vec<i64> = pool.iter().map(|p| p.player_id).collect();
    assert_eq!(ids, vec![1, 2, 3]);
    assert_eq!(pool[1].name, "Auston Last2");
    assert_eq!(pool[1].team_abbrev, "TOR");
    assert_eq!(pool[2].headshot_url, "https://assets.nhle.com/mugs/nhl/latest/3.png");
    assert_eq!(pool[0].position, "C");
    assert!(pool_players(&vec![]).is_empty());
}

use fantasy_hockey::infra::db::teams::{group_by_fantasy_team, team_placeholders, FantasyRosterRow};

fn roster_row(team_id: i64, team: &str, player_id: i64, nhl_team: &str) -> FantasyRosterRow {
    FantasyRosterRow {
        fantasy_team_id: team_id,
        fantasy_team_name: team.to_string(),
        player_id,
        nhl_id: player_id * 100,
        player_name: format!("Player {player_id}"),
        nhl_team: nhl_team.to_string(),
        position: "D".to_string(),
    }
}

#[test]
fn roster_rows_group_by_fantasy_team_in_order() {
    let rows = vec![
        roster_row(5, "Hat Tricks", 1, "EDM"),
        roster_row(2, "Five Holes", 2, "FLA"),
        roster_row(5, "Hat Tricks (renamed)", 3, "FLA"),
    ];
    let teams = group_by_fantasy_team(&rows);
    assert_eq!(teams.len(), 2);
    assert_eq!((teams[0].team_id, teams[0].team_name.as_str()), (5, "Hat Tricks"));
    let p: Vec<i64> = teams[0].players.iter().map(|p| p.player_id).collect();
    assert_eq!(p, vec![1, 3]);
    assert_eq!(teams[0].players[1].nhl_id, 300);
    assert_eq!(teams[0].players[1].nhl_team, "FLA");
    assert_eq!((teams[1].team_id, teams[1].players.len()), (2, 1));
    assert!(group_by_fantasy_team(&vec![]).is_empty());
}

#[test]
fn placeholders_follow_the_league_parameter() {
    assert_eq!(team_placeholders(0), "");
    assert_eq!(team_placeholders(1), "$2");
    assert_eq!(team_placeholders(3), "$2,$3,$4");
    assert_eq!(team_placeholders(10).split(',').last(), Some("$11"));
}

use fantasy_hockey::infra::db::teams::pad_sparklines;

#[test]
fn sparklines_are_zero_padded_and_keep_the_first_row_per_day() {
    let rows = vec![
        (4i64, "2025-04-20".to_string(), 3),
        (4, "2025-04-22".to_string(), 5),
        (4, "2025-04-22".to_string(), 9),
        (1, "2025-04-21".to_string(), 2),
    ];
    let expected: Vec<String> = ["2025-04-20", "2025-04-21", "2025-04-22"]
        .iter()
        .map(|d| d.to_string())
        .collect();
    let lines = pad_sparklines(&rows, &expected);
    assert_eq!(lines, vec![(4, vec![3, 0, 5]), (1, vec![0, 2, 0])]);
    assert!(pad_sparklines(&vec![], &expected).is_empty());
    assert_eq!(pad_sparklines(&rows, &vec![]), vec![(4, vec![]), (1, vec![])]);
}

use fantasy_hockey::infra::db::teams::daily_finish_stats;

#[test]
fn daily_finishes_count_wins_and_podiums_separately() {
    let ranks = vec![
        ("2025-04-20".to_string(), 1i64, 1i64),
        ("2025-04-20".to_string(), 2, 2),
        ("2025-04-20".to_string(), 3, 4),
        ("2025-04-21".to_string(), 2, 1),
        ("2025-04-21".to_string(), 1, 3),
        ("2025-04-21".to_string(), 9, 1),
    ];
    let stats = daily_finish_stats(&vec![1, 2, 3, 2], &ranks);
    assert_eq!(stats.len(), 3);
    assert_eq!((stats[0].team_id, stats[0].wins, stats[0].top_three), (1, 1, 1));
    assert_eq!(stats[0].win_dates, vec!["2025-04-20"]);
    assert_eq!(stats[0].top_three_dates, vec!["2025-04-21"]);
    assert_eq!((stats[1].team_id, stats[1].wins, stats[1].top_three), (2, 1, 1));
    assert_eq!((stats[2].team_id, stats[2].wins, stats[2].top_three), (3, 0, 0));
    assert!(daily_finish_stats(&vec![], &ranks).is_empty());
}

use fantasy_hockey::infra::db::teams::{teams_with_players, TeamPlayerRow};

fn tp(team_id: i64, name: &str, player: Option<i64>) -> TeamPlayerRow {
    TeamPlayerRow {
        team_id,
        team_name: name.to_string(),
        player_id: player,
        nhl_id: player.map(|p| p + 1000),
        player_name: player.map(|p| format!("Player {p}")),
        nhl_team: player.map(|_| "TOR".to_string()),
        position: player.map(|_| "LW".to_string()),
    }
}

#[test]
fn league_teams_come_by_id_with_their_players() {
    let mut partial = tp(3, "Gamma", Some(9));
    partial.position = None;
    let rows = vec![
        tp(7, "Seven", Some(1)),
        tp(3, "Gamma", None),
        tp(7, "Seven again", Some(2)),
        partial,
        tp(5, "Five", Some(4)),
    ];
    let teams = teams_with_players(&rows);
    let ids: Vec<i64> = teams.iter().map(|t| t.team_id).collect();
    assert_eq!(ids, vec![3, 5, 7]);
    assert_eq!(teams[0].team_name, "Gamma");
    assert!(teams[0].players.is_empty());
    assert_eq!(teams[2].team_name, "Seven");
    let p: Vec<i64> = teams[2].players.iter().map(|p| p.player_id).collect();
    assert_eq!(p, vec![1, 2]);
    assert_eq!(teams[2].players[0].nhl_id, 1001);
    assert_eq!(teams[1].players[0].position, "LW");
    assert!(teams_with_players(&vec![]).is_empty());
}

use fantasy_hockey::nhl_api::search::{occurs, search_by_name};

#[test]
fn substring_search_finds_runs_anywhere() {
    assert!(occurs("", ""));
    assert!(occurs("", "abc"));
    assert!(occurs("abc", "abc"));
    assert!(occurs("bc", "abcd"));
    assert!(occurs("cd", "abcd"));
    assert!(!occurs("abcd", "abc"));
    assert!(!occurs("ac", "abc"));
}

#[test]
fn name_search_ignores_case_and_spans_the_space() {
    let mut connor = e(1, "Connor", "EDM", 0);
    connor.last_name = "McDavid".to_string();
    let mut leon = e(2, "Leon", "EDM", 0);
    leon.last_name = "Draisaitl".to_string();
    let roster = vec![connor, leon];
    let hits = search_by_name(&roster, "mcdavid");
    assert_eq!(hits.iter().map(|p| p.player_id).collect::<Vec<_>>(), vec![1]);
    assert_eq!(search_by_name(&roster, "OR MCD").len(), 1);
    assert_eq!(search_by_name(&roster, "n").len(), 2);
    assert_eq!(search_by_name(&roster, "").len(), 2);
    assert!(search_by_name(&roster, "gretzky").is_empty());
}

fn g(id: Option<i64>, first: &str, last: &str, team: &str, value: Option<i32>) -> GoalieLeaderEntry {
    GoalieLeaderEntry {
        player_id: id,
        first_name: first.to_string(),
        last_name: last.to_string(),
        team: team.to_string(),
        value,
    }
}

#[test]
fn goalie_categories_merge_into_one_row_per_goalie() {
    let board = GoalieLeaderboard {
        wins: vec![g(Some(30), "Igor", "Shesterkin", "NYR", Some(36)), g(None, "No", "Id", "XXX", Some(1))],
        save_pctg: vec![g(Some(31), "", "Hellebuyck", "WPG", Some(0)), g(Some(30), "Dup", "Dup", "ZZZ", Some(0))],
        goals_against_average: vec![
            g(Some(31), "Connor", "Hellebuyck", "WPG", Some(2)),
            g(Some(30), "Igor", "Shesterkin", "NYR", None),
            g(Some(31), "Connor", "Hellebuyck", "WPG", Some(1)),
        ],
        shutouts: vec![g(Some(32), "  Jake ", " Oettinger  ", "DAL", Some(6)), g(Some(30), "Igor", "Shesterkin", "NYR", Some(4))],
    };
    let rows = merge_goalie_leaderboard(&board);
    let ids: Vec<i64> = rows.iter().map(|r| r.player_id).collect();
    assert_eq!(ids, vec![30, 31, 32]);

    let igor = &rows[0];
    assert_eq!((igor.name.as_str(), igor.team.as_str()), ("Igor Shesterkin", "NYR"));
    assert_eq!((igor.gaa_at, igor.save_pctg_at, igor.shutouts), (None, Some(1), Some(4)));

    let connor = &rows[1];
    assert_eq!((connor.name.as_str(), connor.team.as_str()), ("Hellebuyck", "WPG"));
    assert_eq!((connor.gaa_at, connor.save_pctg_at, connor.shutouts), (Some(2), Some(0), None));

    let jake = &rows[2];
    assert_eq!(jake.name, "Jake   Oettinger");
    assert_eq!((jake.gaa_at, jake.save_pctg_at, jake.shutouts), (None, None, Some(6)));
}

use fantasy_hockey::domain::models::db::TeamNhlCount;
use fantasy_hockey::infra::db::teams::group_bets;

fn count(team_id: i64, name: &str, nhl_team: &str, n: i64) -> TeamNhlCount {
    TeamNhlCount { team_id, team_name: name.to_string(), nhl_team: nhl_team.to_string(), num_players: n }
}

#[test]
fn bets_group_by_team_and_come_by_team_id() {
    let rows = vec![
        count(9, "Nine", "EDM", 3),
        count(2, "Two", "TOR", 1),
        count(9, "Nine", "FLA", 2),
        count(2, "Two", "DAL", 4),
        count(5, "Five", "EDM", 1),
    ];
    let groups = group_bets(&rows);
    let ids: Vec<i64> = groups.iter().map(|g| g.team_id).collect();
    assert_eq!(ids, vec![2, 5, 9]);
    assert_eq!(groups[0].team_name, "Two");
    let two: Vec<(&str, i64)> = groups[0].bets.iter().map(|b| (b.nhl_team.as_str(), b.num_players)).collect();
    assert_eq!(two, vec![("TOR", 1), ("DAL", 4)]);
    let nine: Vec<(&str, i64)> = groups[2].bets.iter().map(|b| (b.nhl_team.as_str(), b.num_players)).collect();
    assert_eq!(nine, vec![("EDM", 3), ("FLA", 2)]);
    assert!(group_bets(&Vec::new()).is_empty());
}
