use fantasy_hockey::domain::prediction::backtest::{reconstruct_bracket_from_results, ResultRow};
use fantasy_hockey::domain::prediction::race_sim::SeriesState;
use fantasy_hockey::utils::backtest as by_round;

fn row(date: &str, home: &str, away: &str, hs: i32, as_: i32) -> ResultRow {
    ResultRow {
        game_date: date.into(),
        home_team: home.into(),
        away_team: away.into(),
        home_score: hs,
        away_score: as_,
        round: None,
    }
}

#[test]
fn reconstruct_single_completed_series_as_completed() {
    let rows = vec![
        row("2023-04-17", "BOS", "BUF", 4, 2),
        row("2023-04-19", "BUF", "BOS", 3, 2),
        row("2023-04-21", "BOS", "BUF", 5, 4),
        row("2023-04-23", "BUF", "BOS", 1, 3),
        row("2023-04-25", "BOS", "BUF", 4, 1),
    ];
    let bracket = reconstruct_bracket_from_results(&rows);
    match &bracket.rounds[0][0] {
        SeriesState::Completed { winner, loser, total_games } => {
            assert_eq!(winner, "BOS");
            assert_eq!(loser, "BUF");
            assert_eq!(*total_games, 5);
        }
        other => panic!("expected Completed, got {:?}", other),
    }
}

#[test]
fn reconstruct_partial_series_as_in_progress() {
    let rows = vec![row("2023-04-17", "BOS", "BUF", 4, 2), row("2023-04-19", "BUF", "BOS", 3, 2)];
    let bracket = reconstruct_bracket_from_results(&rows);
    match &bracket.rounds[0][0] {
        SeriesState::InProgress { top_team, top_wins, bottom_team, bottom_wins } => {
            assert_eq!(top_team, "BOS");
            assert_eq!(*top_wins, 1);
            assert_eq!(bottom_team, "BUF");
            assert_eq!(*bottom_wins, 1);
        }
        other => panic!("expected InProgress, got {:?}", other),
    }
}

#[test]
fn reconstruct_pads_missing_slots() {
    let rows = vec![row("2023-04-17", "BOS", "BUF", 4, 1)];
    let bracket = reconstruct_bracket_from_results(&rows);
    assert_eq!(bracket.rounds.len(), 4);
    assert_eq!(bracket.rounds[0].len(), 8);
    for slot in &bracket.rounds[0][1..] {
        assert!(matches!(slot, SeriesState::Future));
    }
    for round in &bracket.rounds[1..] {
        for slot in round {
            assert!(matches!(slot, SeriesState::Future));
        }
    }
}

#[test]
fn reconstruct_assigns_rounds_topologically_even_when_column_lies() {
    let mut rows = Vec::new();
    for d in ["2023-04-17", "2023-04-19", "2023-04-21", "2023-04-23"] {
        rows.push(row(d, "A", "B", 4, 2));
    }
    for d in ["2023-04-18", "2023-04-20", "2023-04-22", "2023-04-24"] {
        rows.push(row(d, "C", "D", 5, 1));
    }
    for d in ["2023-05-01", "2023-05-03", "2023-05-05", "2023-05-07"] {
        let mut r = row(d, "A", "C", 3, 1);
        r.round = Some(99);
        rows.push(r);
    }
    let bracket = reconstruct_bracket_from_results(&rows);
    match &bracket.rounds[0][0] {
        SeriesState::Completed { winner, .. } => assert_eq!(winner, "A"),
        other => panic!("expected A-B Completed, got {:?}", other),
    }
    match &bracket.rounds[0][1] {
        SeriesState::Completed { winner, .. } => assert_eq!(winner, "C"),
        other => panic!("expected C-D Completed, got {:?}", other),
    }
    match &bracket.rounds[1][0] {
        SeriesState::Completed { winner, loser, .. } => {
            assert_eq!(winner, "A");
            assert_eq!(loser, "C");
        }
        other => panic!("expected A-C Completed in R2, got {:?}", other),
    }
}

#[test]
fn reconstruct_promotes_cup_final_from_r3_winners() {
    let mut rows = Vec::new();
    let r1_pairs = [
        ("AA", "AB"),
        ("AC", "AD"),
        ("AE", "AF"),
        ("AG", "AH"),
        ("BA", "BB"),
        ("BC", "BD"),
        ("BE", "BF"),
        ("BG", "BH"),
    ];
    for (i, (w, l)) in r1_pairs.iter().enumerate() {
        for g in 0..4 {
            rows.push(row(&format!("2023-04-{:02}", 15 + i * 2 + g), w, l, 4, 0));
        }
    }
    let r2_pairs = [("AA", "AC"), ("AE", "AG"), ("BA", "BC"), ("BE", "BG")];
    for (i, (w, l)) in r2_pairs.iter().enumerate() {
        for g in 0..4 {
            rows.push(row(&format!("2023-05-{:02}", 1 + i * 2 + g), w, l, 4, 0));
        }
    }
    for (i, (w, l)) in [("AA", "AE"), ("BA", "BE")].iter().enumerate() {
        for g in 0..4 {
            rows.push(row(&format!("2023-05-{:02}", 15 + i * 2 + g), w, l, 4, 0));
        }
    }
    for g in 0..4 {
        rows.push(row(&format!("2023-06-{:02}", 5 + g), "AA", "BA", 4, 0));
    }
    let bracket = reconstruct_bracket_from_results(&rows);
    match &bracket.rounds[3][0] {
        SeriesState::Completed { winner, loser, .. } => {
            assert_eq!(winner, "AA");
            assert_eq!(loser, "BA");
        }
        other => panic!("expected AA-BA Cup Final Completed, got {:?}", other),
    }
}

#[test]
fn reconstruct_orders_series_by_first_game_date() {
    // The C-D series is seen first in the input but starts later.
    let rows = vec![
        row("2023-04-20", "C", "D", 2, 1),
        row("2023-04-17", "B", "A", 3, 0),
    ];
    let bracket = reconstruct_bracket_from_results(&rows);
    match &bracket.rounds[0][0] {
        SeriesState::InProgress { top_team, top_wins, bottom_team, bottom_wins } => {
            assert_eq!(top_team, "A");
            assert_eq!(*top_wins, 0);
            assert_eq!(bottom_team, "B");
            assert_eq!(*bottom_wins, 1);
        }
        other => panic!("expected A-B InProgress, got {:?}", other),
    }
    match &bracket.rounds[0][1] {
        SeriesState::InProgress { top_team, .. } => assert_eq!(top_team, "C"),
        other => panic!("expected C-D InProgress, got {:?}", other),
    }
}

#[test]
fn reconstruct_caps_first_round_at_eight() {
    let mut rows = Vec::new();
    for i in 0..9 {
        let a = format!("T{}A", i);
        let b = format!("T{}B", i);
        rows.push(row(&format!("2023-04-{:02}", 10 + i), &a, &b, 1, 0));
    }
    let bracket = reconstruct_bracket_from_results(&rows);
    assert_eq!(bracket.rounds[0].len(), 8);
    assert!(bracket.rounds[0].iter().all(|s| !matches!(s, SeriesState::Future)));
    assert!(bracket.rounds[1].iter().all(|s| matches!(s, SeriesState::Future)));
}

#[test]
fn reconstruct_of_no_games_is_all_future() {
    let bracket = reconstruct_bracket_from_results(&Vec::new());
    let sizes: Vec<usize> = bracket.rounds.iter().map(|r| r.len()).collect();
    assert_eq!(sizes, vec![8, 4, 2, 1]);
    assert!(bracket.rounds.iter().flatten().all(|s| matches!(s, SeriesState::Future)));
}

fn lrow(home: &str, away: &str, hs: i32, as_: i32, round: Option<u8>) -> by_round::ResultRow {
    by_round::ResultRow {
        home_team: home.into(),
        away_team: away.into(),
        home_score: hs,
        away_score: as_,
        round,
    }
}

#[test]
fn backtest_reconstruct_single_completed_series_as_completed() {
    let rows = vec![
        lrow("BOS", "BUF", 4, 2, Some(1)),
        lrow("BUF", "BOS", 3, 2, Some(1)),
        lrow("BOS", "BUF", 5, 4, Some(1)),
        lrow("BUF", "BOS", 1, 3, Some(1)),
        lrow("BOS", "BUF", 4, 1, Some(1)),
    ];
    let bracket = by_round::reconstruct_bracket_from_results(&rows);
    match &bracket.rounds[0][0] {
        SeriesState::Completed { winner, loser, total_games } => {
            assert_eq!(winner, "BOS");
            assert_eq!(loser, "BUF");
            assert_eq!(*total_games, 5);
        }
        other => panic!("expected Completed, got {:?}", other),
    }
}

#[test]
fn backtest_reconstruct_partial_series_as_in_progress() {
    let rows = vec![lrow("BOS", "BUF", 4, 2, Some(1)), lrow("BUF", "BOS", 3, 2, Some(1))];
    let bracket = by_round::reconstruct_bracket_from_results(&rows);
    match &bracket.rounds[0][0] {
        SeriesState::InProgress { top_team, top_wins, bottom_team, bottom_wins } => {
            assert_eq!(top_team, "BOS");
            assert_eq!(*top_wins, 1);
            assert_eq!(bottom_team, "BUF");
            assert_eq!(*bottom_wins, 1);
        }
        other => panic!("expected InProgress, got {:?}", other),
    }
}

#[test]
fn backtest_reconstruct_pads_missing_slots() {
    let rows = vec![lrow("BOS", "BUF", 4, 1, Some(1))];
    let bracket = by_round::reconstruct_bracket_from_results(&rows);
    assert_eq!(bracket.rounds.len(), 4);
    assert_eq!(bracket.rounds[0].len(), 8);
    for slot in &bracket.rounds[0][1..] {
        assert!(matches!(slot, SeriesState::Future));
    }
    for round in &bracket.rounds[1..] {
        for slot in round {
            assert!(matches!(slot, SeriesState::Future));
        }
    }
}

#[test]
fn declared_round_bracket_buckets_games_by_round() {
    let rows = vec![
        lrow("A", "B", 2, 1, Some(2)),
        lrow("C", "D", 2, 1, None),
        lrow("E", "F", 2, 1, Some(0)),
        lrow("G", "H", 2, 1, Some(7)),
    ];
    let bracket = by_round::reconstruct_bracket_from_results(&rows);
    match &bracket.rounds[1][0] {
        SeriesState::InProgress { top_team, top_wins, .. } => {
            assert_eq!(top_team, "A");
            assert_eq!(*top_wins, 1);
        }
        other => panic!("expected A-B in round 2, got {:?}", other),
    }
    match (&bracket.rounds[0][0], &bracket.rounds[0][1], &bracket.rounds[0][2]) {
        (
            SeriesState::InProgress { top_team: a, .. },
            SeriesState::InProgress { top_team: b, .. },
            SeriesState::Future,
        ) => {
            assert_eq!(a, "C");
            assert_eq!(b, "E");
        }
        other => panic!("unexpected round 1: {:?}", other),
    }
    assert!(bracket.rounds.iter().flatten().all(|s| match s {
        SeriesState::InProgress { top_team, .. } => top_team != "G",
        _ => true,
    }));
}
