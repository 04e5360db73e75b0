use fantasy_hockey::domain::prediction::grade::{Grade, PlayerBucket};
use fantasy_hockey::infra::prediction::claude::{
    team_diagnosis_headline, DiagnosisConcentration, DiagnosisPlayer, DiagnosisPlayerDay, DiagnosisTeam,
    DiagnosisTeamDay, DiagnosisView, DiagnosisYesterday, RecentGameLine, RosterBreakdown,
};

fn view(my_players: Vec<DiagnosisPlayerDay>, source: &str, concentration: usize) -> DiagnosisView {
    DiagnosisView {
        league_rank: 2,
        league_size: 8,
        gap_to_first: 5,
        gap_to_third: 3,
        concentration_by_team: (0..concentration)
            .map(|i| DiagnosisConcentration { nhl_team: format!("T{i}"), rostered: 2, team_playoff_points: i as i64 })
            .collect(),
        yesterday: DiagnosisYesterday {
            date: "2025-04-20".to_string(),
            nhl_games: 3,
            completed_games: 3,
            my_goals: 1,
            my_assists: 2,
            my_points: 3,
            my_players,
            league_top_three_source: source.to_string(),
            league_top_three: vec![
                DiagnosisTeamDay { team_name: "Apple Pickers".to_string(), goals: 4, assists: 5, points: 9 },
                DiagnosisTeamDay { team_name: "Zamboni Drivers".to_string(), goals: 1, assists: 2, points: 3 },
            ],
        },
    }
}

fn team() -> DiagnosisTeam {
    DiagnosisTeam {
        team_name: "Zamboni Drivers".to_string(),
        total_points: 41,
        players: vec![
            DiagnosisPlayer {
                name: "Connor McDavid".to_string(),
                nhl_team: "EDM".to_string(),
                position: "C".to_string(),
                goals: 3,
                assists: 9,
                total_points: 12,
                breakdown: Some(RosterBreakdown {
                    games_played: 6,
                    sog: 21,
                    plus_minus: 4,
                    toi_seconds_per_game: 1325,
                    projected_ppg: "1.45".to_string(),
                    grade: Grade::A,
                    scratch_risk: false,
                    remaining_points: "14.2".to_string(),
                    bucket: PlayerBucket::Outperforming,
                    recent_games: vec![
                        RecentGameLine { opponent: "LAK".to_string(), points: 2, toi_seconds: Some(1265) },
                        RecentGameLine { opponent: "VGK".to_string(), points: 0, toi_seconds: None },
                    ],
                }),
            },
            DiagnosisPlayer {
                name: "No Breakdown".to_string(),
                nhl_team: "TOR".to_string(),
                position: "D".to_string(),
                goals: 0,
                assists: 0,
                total_points: 0,
                breakdown: None,
            },
            DiagnosisPlayer {
                name: "Evan Bouchard".to_string(),
                nhl_team: "EDM".to_string(),
                position: "D".to_string(),
                goals: 0,
                assists: 1,
                total_points: 1,
                breakdown: Some(RosterBreakdown {
                    games_played: 1,
                    sog: 2,
                    plus_minus: -2,
                    toi_seconds_per_game: 605,
                    projected_ppg: "0.50".to_string(),
                    grade: Grade::NotEnoughData,
                    scratch_risk: true,
                    remaining_points: "3.0".to_string(),
                    bucket: PlayerBucket::TooEarly,
                    recent_games: vec![],
                }),
            },
        ],
    }
}

#[test]
fn diagnosis_headline_lays_out_every_block() {
    let mine = vec![DiagnosisPlayerDay {
        name: "Connor McDavid".to_string(),
        nhl_team: "EDM".to_string(),
        goals: 1,
        assists: 2,
        points: 3,
    }];
    let text = team_diagnosis_headline(&team(), &view(mine, "yesterday", 2));
    let expected = [
        "Caller's team: Zamboni Drivers · Rank #2 of 8 · 41 total pts · 5 behind 1st · 3 ahead of 3rd.\n",
        "\nConcentration (rostered per NHL team, playoff pts from that team):\n",
        "  T0 · 2 players · 0 pts\n",
        "  T1 · 2 players · 1 pts\n",
        "\nYesterday:\n",
        "  date 2025-04-20 · NHL games 3 (3 completed) · caller 1G 2A 3P\n",
        "  caller players:\n",
        "    Connor McDavid (EDM) · 1G 2A 3P\n",
        "  yesterday fantasy top 3:\n",
        "    #1 Apple Pickers · 4G 5A 9P\n",
        "    #2 Zamboni Drivers · 1G 2A 3P\n",
        "\nRoster lines:\n",
        "  [OUTPERFORMING] Connor McDavid (EDM · C) · 6 GP · 3G 9A 12P · SOG 21 · +/- +4 · TOI/gm 22:05 · proj 1.45 PPG · grade A · remP 14.2\n",
        "    recent: vs LAK 2P TOI 21:05 | vs VGK 0P TOI --\n",
        "  [TOO EARLY] Evan Bouchard (EDM · D) · 1 GP · 0G 1A 1P · SOG 2 · +/- -2 · TOI/gm 10:05 · proj 0.50 PPG · grade – (scratch risk) · remP 3.0\n",
    ]
    .concat();
    assert_eq!(text, expected);
}

#[test]
fn diagnosis_headline_caps_concentration_and_notes_empty_days() {
    let text = team_diagnosis_headline(&team(), &view(vec![], "playoffs", 15));
    assert!(text.contains("  caller players: none appeared\n"));
    assert!(text.contains("  current playoff top 3 fallback:\n"));
    assert!(text.contains("  T11 · 2 players · 11 pts\n"));
    assert!(!text.contains("  T12 ·"));
}
