use fantasy_hockey::error::Error;
use fantasy_hockey::infra::nhl::urls::parse_date_param;
use fantasy_hockey::infra::prediction::race_odds_cache::{cache_key, CACHE_KEY_PREFIX};
use fantasy_hockey::nhl_api::nhl_constants::edge::skater_detail;
use fantasy_hockey::nhl_api::nhl_constants::games::{
    game_boxscore, game_center, schedule_by_date, today_schedule_url,
};
use fantasy_hockey::nhl_api::nhl_constants::players::{
    player_details, player_game_log, player_image, team_roster,
};
use fantasy_hockey::nhl_api::nhl_constants::playoffs::{carousel_for_season, series_games};
use fantasy_hockey::nhl_api::nhl_constants::scores::scores_by_date;
use fantasy_hockey::nhl_api::nhl_constants::stats::skater_stats_leaders;
use fantasy_hockey::nhl_api::nhl_constants::team_names::{get_team_name, get_team_names};
use fantasy_hockey::nhl_api::nhl_constants::teams::{standings_url, team_logo};
use fantasy_hockey::utils::player_pool::headshot_url;

#[test]
fn player_endpoints_embed_ids_and_abbreviations() {
    assert_eq!(
        player_details(8478402),
        "https://api-web.nhle.com/v1/player/8478402/landing"
    );
    assert_eq!(
        player_image(8478402),
        "https://assets.nhle.com/mugs/nhl/latest/8478402.png"
    );
    assert_eq!(
        team_roster("EDM"),
        "https://api-web.nhle.com/v1/roster/EDM/current"
    );
    assert_eq!(
        player_game_log(8478402, &20242025, 3),
        "https://api-web.nhle.com/v1/player/8478402/game-log/20242025/3"
    );
    assert_eq!(player_details(-7), "https://api-web.nhle.com/v1/player/-7/landing");
}

#[test]
fn game_and_schedule_endpoints() {
    assert_eq!(today_schedule_url(), "https://api-web.nhle.com/v1/schedule/now");
    assert_eq!(
        schedule_by_date("2025-04-19"),
        "https://api-web.nhle.com/v1/schedule/2025-04-19"
    );
    assert_eq!(
        game_center(2024030111),
        "https://api-web.nhle.com/v1/gamecenter/2024030111/landing"
    );
    assert_eq!(
        game_boxscore(2024030111),
        "https://api-web.nhle.com/v1/gamecenter/2024030111/boxscore"
    );
    assert_eq!(
        scores_by_date("2025-04-19"),
        "https://api-web.nhle.com/v1/score/2025-04-19"
    );
    assert_eq!(
        skater_detail(8478402),
        "https://api-web.nhle.com/v1/edge/skater-detail/8478402/now"
    );
    assert_eq!(
        skater_stats_leaders(&20242025, 2),
        "https://api-web.nhle.com/v1/skater-stats-leaders/20242025/2?limit=1000"
    );
}

#[test]
fn team_and_playoff_endpoints() {
    assert_eq!(
        team_logo("TOR"),
        "https://assets.nhle.com/logos/nhl/svg/TOR_light.svg"
    );
    assert_eq!(standings_url(), "https://api-web.nhle.com/v1/standings/now");
    assert_eq!(
        carousel_for_season("20242025".to_string()),
        "https://api-web.nhle.com/v1/playoff-series/carousel/20242025"
    );
}

#[test]
fn series_games_lowercases_the_letter() {
    assert_eq!(
        series_games(2023, "A"),
        "https://api-web.nhle.com/v1/schedule/playoff-series/2023/a"
    );
    assert_eq!(
        series_games(2025, "m"),
        "https://api-web.nhle.com/v1/schedule/playoff-series/2025/m"
    );
}

#[test]
fn headshot_url_matches_player_image() {
    assert_eq!(headshot_url(8471214), player_image(8471214));
    assert_eq!(
        headshot_url(8471214),
        "https://assets.nhle.com/mugs/nhl/latest/8471214.png"
    );
}

#[test]
fn team_names_cover_the_league() {
    let names = get_team_names();
    assert_eq!(names.len(), 32);
    assert_eq!(get_team_name("EDM"), "Edmonton Oilers");
    assert_eq!(get_team_name("UTA"), "Utah Mammoth");
    assert_eq!(get_team_name("WPG"), "Winnipeg Jets");
    assert_eq!(get_team_name("ARI"), "Unknown Team");
    assert_eq!(get_team_name("edm"), "Unknown Team");
    for (abbrev, name) in names.iter() {
        assert_eq!(get_team_name(abbrev), *name);
    }
}

#[test]
fn cache_key_uses_global_for_an_empty_league() {
    assert_eq!(CACHE_KEY_PREFIX, "race_odds:v4");
    assert_eq!(
        cache_key("", 20242025, 3, "2025-05-01"),
        "race_odds:v4:global:20242025:3:2025-05-01"
    );
    assert_eq!(
        cache_key("league-7", 20242025, 2, "2025-01-02"),
        "race_odds:v4:league-7:20242025:2:2025-01-02"
    );
}

#[test]
fn date_param_accepts_ten_digit_or_dash_characters() {
    assert_eq!(parse_date_param("2025-04-19".to_string()).unwrap(), "2025-04-19");
    assert_eq!(parse_date_param("----------".to_string()).unwrap(), "----------");
    match parse_date_param("2025-4-19".to_string()) {
        Err(Error::Validation(msg)) => assert_eq!(msg, "Invalid date format. Use YYYY-MM-DD"),
        other => panic!("unexpected: {:?}", other),
    }
    assert!(matches!(
        parse_date_param("2025/04/19".to_string()),
        Err(Error::Validation(_))
    ));
    assert!(matches!(parse_date_param(String::new()), Err(Error::Validation(_))));
}

use fantasy_hockey::domain::models::nhl::GameState;
use fantasy_hockey::nhl_api::game_center::{game_center_state, period_label};

#[test]
fn game_center_states_read_warm_up_as_preview() {
    assert_eq!(game_center_state(Some("LIVE")), GameState::Live);
    assert_eq!(game_center_state(Some("FINAL")), GameState::Final);
    assert_eq!(game_center_state(Some("OFF")), GameState::Off);
    assert_eq!(game_center_state(Some("CRIT")), GameState::Crit);
    assert_eq!(game_center_state(Some("PRE")), GameState::Preview);
    assert_eq!(game_center_state(Some("FUT")), GameState::Fut);
    assert_eq!(game_center_state(Some("live")), GameState::Unknown);
    assert_eq!(game_center_state(None), GameState::Unknown);
}

#[test]
fn period_labels_name_the_period_type() {
    assert_eq!(period_label(Some(2), Some("REG")), "2 Period");
    assert_eq!(period_label(Some(4), Some("OT")), "4 OT");
    assert_eq!(period_label(Some(5), Some("SO")), "5 Shootout");
    assert_eq!(period_label(Some(3), Some("XYZ")), "3 XYZ");
    assert_eq!(period_label(None, None), "0 ");
}

use fantasy_hockey::text::char_is_whitespace;

#[test]
fn whitespace_table_agrees_with_std_on_every_char() {
    for u in 0u32..=0x10ffff {
        if let Some(c) = char::from_u32(u) {
            assert_eq!(char_is_whitespace(c), c.is_whitespace(), "U+{:04X}", u);
        }
    }
}
