use fantasy_hockey::domain::models::nhl::{BottomSeed, PlayoffCarousel, Round, Series, TopSeed};
use fantasy_hockey::domain::prediction::season_phase::SeasonPhase;

fn series(round: i64, top: &str, tw: i64, bottom: &str, bw: i64) -> Series {
    Series {
        series_letter: "A".into(),
        round_number: round,
        series_label: String::new(),
        series_link: String::new(),
        bottom_seed: BottomSeed { abbrev: bottom.into(), wins: bw, ..Default::default() },
        top_seed: TopSeed { abbrev: top.into(), wins: tw, ..Default::default() },
        needed_to_win: 4,
    }
}

fn round(number: i64, label: &str, series: Vec<Series>) -> Round {
    Round { round_number: number, round_label: label.into(), round_abbrev: String::new(), series }
}

fn carousel(rounds: Vec<Round>) -> PlayoffCarousel {
    PlayoffCarousel {
        season_id: 20252026,
        current_round: rounds.iter().map(|r| r.round_number).max().unwrap_or(1),
        rounds,
    }
}

#[test]
fn detects_champion_from_clinched_final() {
    let phase = SeasonPhase::from_carousel(&carousel(vec![round(
        4,
        "Stanley-Cup-Final",
        vec![series(4, "FLA", 4, "EDM", 2)],
    )]));
    assert_eq!(
        phase,
        SeasonPhase::Over { champion: "FLA".into(), runner_up: "EDM".into(), series_label: "4-2".into() }
    );
    assert!(phase.is_over());
}

#[test]
fn final_in_progress_is_not_over() {
    let phase = SeasonPhase::from_carousel(&carousel(vec![round(
        4,
        "Stanley-Cup-Final",
        vec![series(4, "FLA", 3, "EDM", 2)],
    )]));
    assert_eq!(
        phase,
        SeasonPhase::InProgress {
            round_label: "Stanley Cup Final".into(),
            summary: "FLA leads EDM 3-2".into(),
        }
    );
    assert!(!phase.is_over());
}

#[test]
fn tbd_final_falls_back_to_deepest_seeded_round() {
    let phase = SeasonPhase::from_carousel(&carousel(vec![
        round(3, "Conference-Finals", vec![series(3, "FLA", 2, "CAR", 2)]),
        round(4, "Stanley-Cup-Final", vec![series(4, "TBD", 0, "TBD", 0)]),
    ]));
    assert_eq!(
        phase,
        SeasonPhase::InProgress { round_label: "Conference Finals".into(), summary: "FLA and CAR tied 2-2".into() }
    );
}

#[test]
fn summary_joins_series_and_prompt_lines_read_naturally() {
    let phase = SeasonPhase::from_carousel(&carousel(vec![
        round(
            2,
            "",
            vec![series(2, "NYR", 4, "CAR", 1), series(2, "tbd", 0, "BOS", 0), series(2, "DAL", 1, "COL", 3)],
        ),
        round(3, "Conference-Finals", vec![series(3, "NYR", 0, " ", 0)]),
    ]));
    assert_eq!(
        phase,
        SeasonPhase::InProgress { round_label: "Round 2".into(), summary: "NYR beat CAR 4-1; COL leads DAL 3-1".into() }
    );
    assert_eq!(phase.prompt_line(), "Round 2 in progress. NYR beat CAR 4-1; COL leads DAL 3-1.");
    let over = SeasonPhase::Over { champion: "FLA".into(), runner_up: "EDM".into(), series_label: "4-3".into() };
    assert_eq!(over.prompt_line(), "Season complete. FLA won the Stanley Cup over EDM (4-3).");
    let empty = SeasonPhase::from_carousel(&carousel(vec![]));
    assert_eq!(empty.prompt_line(), "Playoffs in progress.");
}

#[test]
fn zero_needed_to_win_counts_as_four() {
    let mut s = series(4, "FLA", 1, "EDM", 0);
    s.needed_to_win = 0;
    let phase = SeasonPhase::from_carousel(&carousel(vec![round(4, "Final", vec![s])]));
    assert!(!phase.is_over());
}
