use fantasy_hockey::domain::prediction::race_sim::{
    add_games, already_played_by_team, finish_series, slot_matchup, BracketState, SeriesOutcome,
    SeriesState, SlotMatchup,
};
use fantasy_hockey::infra::calibrate::{build_day1_bracket, extract_realized_outcomes};
use fantasy_hockey::tally::TeamTally;

fn done(w: &str, l: &str, games: u32) -> SeriesState {
    SeriesState::Completed { winner: w.to_string(), loser: l.to_string(), total_games: games }
}

fn live(t: &str, tw: u32, b: &str, bw: u32) -> SeriesState {
    SeriesState::InProgress {
        top_team: t.to_string(),
        top_wins: tw,
        bottom_team: b.to_string(),
        bottom_wins: bw,
    }
}

fn sample() -> BracketState {
    BracketState {
        rounds: vec![
            vec![done("FLA", "TBL", 5), done("TOR", "OTT", 6), live("WSH", 3, "MTL", 1), done("CAR", "NJD", 5)],
            vec![done("FLA", "TOR", 7), SeriesState::Future],
            vec![live("FLA", 2, "CAR", 0)],
            vec![SeriesState::Future],
        ],
    }
}

#[test]
fn known_teams_list_first_round_teams_once_in_order() {
    let b = sample();
    assert_eq!(b.depth(), 4);
    assert_eq!(
        b.known_teams(),
        vec!["FLA", "TBL", "TOR", "OTT", "WSH", "MTL", "CAR", "NJD"]
    );
    let repeated = BracketState {
        rounds: vec![vec![live("EDM", 0, "LAK", 0), live("LAK", 1, "EDM", 1), SeriesState::Future]],
    };
    assert_eq!(repeated.known_teams(), vec!["EDM", "LAK"]);
    assert!(BracketState { rounds: vec![] }.known_teams().is_empty());
}

#[test]
fn games_played_add_up_over_every_round() {
    let t = already_played_by_team(&sample());
    assert_eq!(t.get("FLA"), Some(5 + 7 + 2));
    assert_eq!(t.get("TOR"), Some(6 + 7));
    assert_eq!(t.get("CAR"), Some(5 + 2));
    assert_eq!(t.get("WSH"), Some(4));
    assert_eq!(t.get("MTL"), Some(4));
    assert_eq!(t.get("TBL"), Some(5));
    assert_eq!(t.get("BOS"), None);
    assert_eq!(t.len(), 8);
}

#[test]
fn tally_adds_into_existing_entries() {
    let mut t = TeamTally::new();
    assert!(t.is_empty());
    add_games(&mut t, "EDM", 4);
    add_games(&mut t, "DAL", 6);
    add_games(&mut t, "EDM", 5);
    assert_eq!(t.get("EDM"), Some(9));
    assert_eq!(t.get("DAL"), Some(6));
    assert_eq!(t.len(), 2);
    assert!(!t.is_empty());
    t.add("VGK", 0);
    assert_eq!(t.get("VGK"), Some(0));
    assert_eq!(t.len(), 3);
}

#[test]
fn series_outcome_counts_both_sides() {
    assert_eq!(SeriesOutcome { top_wins: 4, bot_wins: 3 }.total_games(), 7);
    assert_eq!(SeriesOutcome { top_wins: 0, bot_wins: 0 }.total_games(), 0);
}

#[test]
fn realized_outcomes_follow_each_team_through_the_rounds() {
    let mut b = sample();
    b.rounds[2] = vec![done("FLA", "CAR", 5)];
    b.rounds[3] = vec![done("FLA", "EDM", 6)];
    let out = extract_realized_outcomes(&b);
    assert_eq!(out.len(), 8);
    assert_eq!(out[0].abbrev, "FLA");
    assert!(out[0].advanced_r1 && out[0].advanced_r2 && out[0].advanced_r3 && out[0].won_cup);
    assert_eq!(out[2].abbrev, "TOR");
    assert!(out[2].advanced_r1 && !out[2].advanced_r2 && !out[2].won_cup);
    assert_eq!(out[4].abbrev, "WSH");
    assert!(!out[4].advanced_r1);
    assert_eq!(out[6].abbrev, "CAR");
    assert!(out[6].advanced_r1 && !out[6].advanced_r2 && !out[6].advanced_r3);
    assert_eq!(out[1].abbrev, "TBL");
    assert!(!out[1].advanced_r1);
}

#[test]
fn day_one_bracket_resets_the_first_round() {
    let d = build_day1_bracket(&sample());
    assert_eq!(d.rounds.len(), 4);
    assert_eq!(d.rounds[0].len(), 4);
    assert_eq!(d.rounds[1].len(), 4);
    assert_eq!(d.rounds[2].len(), 2);
    assert_eq!(d.rounds[3].len(), 1);
    match &d.rounds[0][0] {
        SeriesState::InProgress { top_team, top_wins, bottom_team, bottom_wins } => {
            assert_eq!(top_team, "FLA");
            assert_eq!(bottom_team, "TBL");
            assert_eq!((*top_wins, *bottom_wins), (0, 0));
        }
        other => panic!("unexpected {:?}", other),
    }
    match &d.rounds[0][2] {
        SeriesState::InProgress { top_team, top_wins, bottom_team, bottom_wins } => {
            assert_eq!(top_team, "WSH");
            assert_eq!(bottom_team, "MTL");
            assert_eq!((*top_wins, *bottom_wins), (0, 0));
        }
        other => panic!("unexpected {:?}", other),
    }
    assert!(d.rounds[1].iter().all(|s| matches!(s, SeriesState::Future)));
    let empty = build_day1_bracket(&BracketState { rounds: vec![] });
    assert_eq!(empty.rounds.len(), 4);
    assert!(empty.rounds[0].is_empty());
}

#[test]
fn slot_matchups_follow_the_feeder_slots() {
    let winners = vec!["FLA".to_string(), "TOR".to_string(), "WSH".to_string(), "CAR".to_string()];
    match slot_matchup(&SeriesState::Future, Some(&winners), 1) {
        SlotMatchup::Play { top, bottom, top_wins, bottom_wins } => {
            assert_eq!((top.as_str(), bottom.as_str(), top_wins, bottom_wins), ("WSH", "CAR", 0, 0));
        }
        other => panic!("unexpected {:?}", other),
    }
    assert!(matches!(slot_matchup(&SeriesState::Future, Some(&winners), 2), SlotMatchup::Unfilled));
    assert!(matches!(slot_matchup(&SeriesState::Future, None, 0), SlotMatchup::Unfilled));
    let three = vec!["A".to_string(), "B".to_string(), "C".to_string()];
    assert!(matches!(slot_matchup(&SeriesState::Future, Some(&three), 1), SlotMatchup::Unfilled));
    match slot_matchup(&done("FLA", "TBL", 5), None, 0) {
        SlotMatchup::Decided { winner, loser } => assert_eq!((winner.as_str(), loser.as_str()), ("FLA", "TBL")),
        other => panic!("unexpected {:?}", other),
    }
    match slot_matchup(&live("WSH", 3, "MTL", 1), Some(&winners), 0) {
        SlotMatchup::Play { top, bottom, top_wins, bottom_wins } => {
            assert_eq!((top.as_str(), bottom.as_str(), top_wins, bottom_wins), ("WSH", "MTL", 3, 1));
        }
        other => panic!("unexpected {:?}", other),
    }
}

#[test]
fn finished_series_report_the_winner_and_new_games() {
    assert_eq!(finish_series(3, 1, SeriesOutcome { top_wins: 4, bot_wins: 2 }), (true, 2));
    assert_eq!(finish_series(0, 0, SeriesOutcome { top_wins: 3, bot_wins: 4 }), (false, 7));
    assert_eq!(finish_series(4, 3, SeriesOutcome { top_wins: 1, bot_wins: 1 }), (false, 0));
}

#[test]
fn depth_counts_only_rounds_with_slots() {
    assert_eq!(BracketState { rounds: vec![vec![]] }.depth(), 0);
    assert_eq!(BracketState { rounds: vec![] }.depth(), 0);
    let b = BracketState { rounds: vec![vec![SeriesState::Future], vec![], vec![SeriesState::Future]] };
    assert_eq!(b.depth(), 2);
}
