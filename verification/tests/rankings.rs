use fantasy_hockey::domain::models::db::{FantasyPlayer, FantasyTeamWithPlayers};
use fantasy_hockey::domain::models::fantasy::{DailyRanking, PlayerGamePerformance, TeamDailyPerformance};
use fantasy_hockey::utils::scheduler::{daily_rankings_from_games, merge_team_performances};
use fantasy_hockey::domain::services::rankings::{
    build_daily_rankings, calculate_team_rankings, DailyPlayerStat, SeasonSkaterStat,
};

fn mk_player(nhl_id: i64, name: &str) -> FantasyPlayer {
    FantasyPlayer {
        id: nhl_id,
        team_id: 0,
        nhl_id,
        name: name.to_string(),
        position: String::new(),
        nhl_team: String::new(),
    }
}

#[test]
fn team_ranking_sums_goals_and_assists_from_leaderboard() {
    let team_a = FantasyTeamWithPlayers {
        id: 1,
        name: "A".into(),
        players: vec![mk_player(10, "Ovi"), mk_player(20, "McDavid")],
    };
    let team_b = FantasyTeamWithPlayers { id: 2, name: "B".into(), players: vec![mk_player(30, "Crosby")] };
    let stats = vec![
        SeasonSkaterStat { nhl_id: 10, goals: 5, assists: 3 },
        SeasonSkaterStat { nhl_id: 20, goals: 2, assists: 4 },
        SeasonSkaterStat { nhl_id: 30, goals: 1, assists: 1 },
    ];
    let r = calculate_team_rankings(vec![team_a, team_b], &stats);
    assert_eq!(r[0].team_id, 1);
    assert_eq!(r[0].goals, 7);
    assert_eq!(r[0].assists, 7);
    assert_eq!(r[0].total_points, 14);
    assert_eq!(r[0].rank, 1);
    assert_eq!(r[1].rank, 2);
}

#[test]
fn team_ranking_deduplicates_repeat_nhl_ids() {
    let team = FantasyTeamWithPlayers {
        id: 1,
        name: "A".into(),
        players: vec![mk_player(10, "Ovi"), mk_player(10, "Ovi dup")],
    };
    let stats = vec![SeasonSkaterStat { nhl_id: 10, goals: 5, assists: 3 }];
    let r = calculate_team_rankings(vec![team], &stats);
    assert_eq!(r[0].total_points, 8);
}

#[test]
fn daily_rankings_filter_zero_point_players_from_highlights_but_sum_totals() {
    let rows = vec![
        DailyPlayerStat {
            team_id: 1,
            team_name: "A".into(),
            nhl_id: 10,
            player_name: "Ovi".into(),
            nhl_team: "WSH".into(),
            goals: 1,
            assists: 1,
            points: 2,
        },
        DailyPlayerStat {
            team_id: 1,
            team_name: "A".into(),
            nhl_id: 11,
            player_name: "Backstrom".into(),
            nhl_team: "WSH".into(),
            goals: 0,
            assists: 0,
            points: 0,
        },
    ];
    let r = build_daily_rankings(rows);
    assert_eq!(r[0].daily_points, 2);
    assert_eq!(r[0].player_highlights.len(), 1, "zero-point players not in highlights");
    assert_eq!(r[0].player_highlights[0].nhl_id, 10);
}

#[test]
fn team_ranking_ties_keep_input_order_and_unknown_players_add_nothing() {
    let teams = vec![
        FantasyTeamWithPlayers { id: 7, name: "Low".into(), players: vec![mk_player(99, "Nobody")] },
        FantasyTeamWithPlayers { id: 8, name: "Tie1".into(), players: vec![mk_player(1, "X")] },
        FantasyTeamWithPlayers { id: 9, name: "Tie2".into(), players: vec![mk_player(2, "Y")] },
    ];
    let stats = vec![
        SeasonSkaterStat { nhl_id: 1, goals: 1, assists: 0 },
        SeasonSkaterStat { nhl_id: 2, goals: 0, assists: 1 },
        SeasonSkaterStat { nhl_id: 1, goals: 2, assists: 0 },
    ];
    let r = calculate_team_rankings(teams, &stats);
    // The last leaderboard line per player counts: player 1 has 2 goals.
    assert_eq!(r.iter().map(|t| t.team_id).collect::<Vec<_>>(), vec![8, 9, 7]);
    assert_eq!(r[0].total_points, 2);
    assert_eq!(r[1].total_points, 1);
    assert_eq!(r[2].total_points, 0);
    assert_eq!(r.iter().map(|t| t.rank).collect::<Vec<_>>(), vec![1, 2, 3]);
}

fn perf(nhl_id: i64, points: i32) -> PlayerGamePerformance {
    PlayerGamePerformance {
        player_id: nhl_id,
        nhl_id,
        player_name: format!("P{}", nhl_id),
        nhl_team: "EDM".into(),
        goals: points,
        assists: 0,
        points,
    }
}

#[test]
fn build_rankings_keeps_three_best_scorers_and_sorts_teams() {
    let a = TeamDailyPerformance {
        team_id: 1,
        team_name: "A".into(),
        player_performances: vec![perf(1, 1), perf(2, 3), perf(3, 2), perf(4, 3)],
        total_points: 9,
        total_goals: 9,
        total_assists: 0,
    };
    let b = TeamDailyPerformance {
        team_id: 2,
        team_name: "B".into(),
        player_performances: vec![perf(5, 12)],
        total_points: 12,
        total_goals: 12,
        total_assists: 0,
    };
    let r = DailyRanking::build_rankings(vec![a, b]);
    assert_eq!(r[0].team_id, 2);
    assert_eq!(r[0].rank, 1);
    assert_eq!(r[1].rank, 2);
    let ids: Vec<i64> = r[1].player_highlights.iter().map(|h| h.nhl_id).collect();
    assert_eq!(ids, vec![2, 4, 3]);
}

#[test]
fn daily_rankings_group_rows_by_team() {
    let mk = |team_id: i64, nhl_id: i64, goals: i32, assists: i32| DailyPlayerStat {
        team_id,
        team_name: format!("T{}", team_id),
        nhl_id,
        player_name: format!("P{}", nhl_id),
        nhl_team: "TOR".into(),
        goals,
        assists,
        points: goals + assists,
    };
    let rows = vec![mk(1, 10, 1, 0), mk(2, 20, 2, 2), mk(1, 11, 0, 1), mk(2, 21, 0, 0)];
    let r = build_daily_rankings(rows);
    assert_eq!(r.len(), 2);
    assert_eq!(r[0].team_id, 2);
    assert_eq!((r[0].daily_goals, r[0].daily_assists, r[0].daily_points), (2, 2, 4));
    assert_eq!(r[1].team_name, "T1");
    assert_eq!((r[1].daily_goals, r[1].daily_assists, r[1].daily_points), (1, 1, 2));
    assert_eq!(r[1].player_highlights.len(), 2);
}

fn team_day(team_id: i64, lines: Vec<PlayerGamePerformance>) -> TeamDailyPerformance {
    let points: i32 = lines.iter().map(|l| l.points).sum();
    TeamDailyPerformance {
        team_id,
        team_name: format!("T{}", team_id),
        player_performances: lines,
        total_points: points,
        total_goals: points,
        total_assists: 1,
    }
}

#[test]
fn game_performances_merge_into_one_line_per_team() {
    let mut acc = vec![team_day(7, vec![perf(1, 2)])];
    merge_team_performances(&mut acc, vec![team_day(8, vec![perf(5, 1)]), team_day(7, vec![perf(2, 3)])]);
    assert_eq!(acc.len(), 2);
    assert_eq!(acc[0].team_id, 7);
    assert_eq!((acc[0].total_points, acc[0].total_goals, acc[0].total_assists), (5, 5, 2));
    let ids: Vec<i64> = acc[0].player_performances.iter().map(|p| p.nhl_id).collect();
    assert_eq!(ids, vec![1, 2]);
    assert_eq!(acc[1].team_id, 8);
    assert_eq!(acc[1].total_points, 1);
}

#[test]
fn daily_rankings_from_games_sum_each_team_over_its_games() {
    let game1 = vec![team_day(1, vec![perf(1, 1)]), team_day(2, vec![perf(5, 2)])];
    let game2 = vec![team_day(1, vec![perf(2, 3)])];
    let r = daily_rankings_from_games(vec![game1, game2]);
    assert_eq!(r.len(), 2);
    assert_eq!((r[0].rank, r[0].team_id, r[0].daily_points, r[0].daily_assists), (1, 1, 4, 2));
    let ids: Vec<i64> = r[0].player_highlights.iter().map(|h| h.nhl_id).collect();
    assert_eq!(ids, vec![2, 1]);
    assert_eq!((r[1].rank, r[1].team_id, r[1].daily_points), (2, 2, 2));
    assert!(daily_rankings_from_games(Vec::new()).is_empty());
}
