use fantasy_hockey::domain::models::nhl::{BottomSeed, PlayoffCarousel, Round, Series, TopSeed};
use fantasy_hockey::domain::prediction::carousel::games_played_from_carousel;

fn s(top: &str, top_wins: i64, bot: &str, bot_wins: i64) -> Series {
    Series {
        series_letter: "A".into(),
        round_number: 1,
        series_label: String::new(),
        series_link: String::new(),
        top_seed: TopSeed {
            id: 0,
            abbrev: top.into(),
            wins: top_wins,
            logo: String::new(),
            dark_logo: String::new(),
        },
        bottom_seed: BottomSeed {
            id: 0,
            abbrev: bot.into(),
            wins: bot_wins,
            logo: String::new(),
            dark_logo: String::new(),
        },
        needed_to_win: 4,
    }
}

#[test]
fn empty_carousel_returns_empty_map() {
    assert!(games_played_from_carousel(None).is_empty());
}

#[test]
fn sums_series_games_per_team() {
    let carousel = PlayoffCarousel {
        season_id: 20252026,
        current_round: 1,
        rounds: vec![Round {
            round_number: 1,
            round_label: String::new(),
            round_abbrev: String::new(),
            series: vec![s("BUF", 2, "BOS", 1), s("EDM", 1, "ANA", 0)],
        }],
    };
    let m = games_played_from_carousel(Some(&carousel));
    assert_eq!(m.get("BUF"), Some(3));
    assert_eq!(m.get("BOS"), Some(3));
    assert_eq!(m.get("EDM"), Some(1));
    assert_eq!(m.get("ANA"), Some(1));
}

#[test]
fn team_appearing_in_multiple_rounds_accumulates() {
    let carousel = PlayoffCarousel {
        season_id: 20252026,
        current_round: 2,
        rounds: vec![
            Round {
                round_number: 1,
                round_label: String::new(),
                round_abbrev: String::new(),
                series: vec![s("BUF", 4, "BOS", 2)],
            },
            Round {
                round_number: 2,
                round_label: String::new(),
                round_abbrev: String::new(),
                series: vec![s("BUF", 1, "TOR", 2)],
            },
        ],
    };
    let m = games_played_from_carousel(Some(&carousel));
    assert_eq!(m.get("BUF"), Some(6 + 3));
}

#[test]
fn negative_win_totals_count_as_zero_games() {
    let carousel = PlayoffCarousel {
        season_id: 20252026,
        current_round: 1,
        rounds: vec![Round {
            round_number: 1,
            round_label: String::new(),
            round_abbrev: String::new(),
            series: vec![s("AAA", -3, "BBB", 1)],
        }],
    };
    let m = games_played_from_carousel(Some(&carousel));
    assert_eq!(m.get("AAA"), Some(0));
    assert_eq!(m.get("CCC"), None);
    assert_eq!(m.len(), 2);
}
