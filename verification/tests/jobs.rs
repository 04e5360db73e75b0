use fantasy_hockey::domain::models::nhl::GameState;
use fantasy_hockey::infra::db::draft::shuffled_draft_order;
use fantasy_hockey::infra::jobs::meta_poller::{
    plan_meta_tick, MetaStaleness, MetaTickPlan, TickCounter, TickWork,
};
use fantasy_hockey::infra::jobs::rehydrate::{game_row_steps, GameRowSteps};
use fantasy_hockey::infra::jobs::scheduler::{daily_snapshot_rows, DailyRankingSnapshotRow};

fn all_stale() -> MetaStaleness {
    MetaStaleness {
        today_schedule: true,
        tomorrow_schedule: true,
        skater_leaderboard: true,
        goalie_leaderboard: true,
        standings: true,
        playoff_bracket: true,
        rosters: true,
    }
}

#[test]
fn draft_order_is_a_permutation_of_the_slots() {
    for n in [0usize, 1, 2, 7, 12] {
        let mut order = shuffled_draft_order(n);
        assert_eq!(order.len(), n);
        order.sort();
        assert_eq!(order, (0..n).collect::<Vec<_>>());
    }
}

#[test]
fn tick_counter_cadences() {
    let mut c = TickCounter::new();
    let first = c.next_work();
    assert_eq!(c.count, 1);
    assert_eq!(first, TickWork { refresh_aggregates: true, refresh_rosters: true });
    let mut aggregate_ticks = vec![];
    let mut roster_ticks = vec![];
    for _ in 2..=600 {
        let w = c.next_work();
        if w.refresh_aggregates {
            aggregate_ticks.push(c.count);
        }
        if w.refresh_rosters {
            roster_ticks.push(c.count);
            assert!(w.refresh_aggregates);
        }
    }
    assert_eq!(&aggregate_ticks[..3], &[7, 13, 19]);
    assert_eq!(roster_ticks, vec![289, 577]);
    let mut wrap = TickCounter { count: u32::MAX };
    let w = wrap.next_work();
    assert_eq!(wrap.count, 0);
    assert_eq!(w, TickWork { refresh_aggregates: false, refresh_rosters: false });
}

#[test]
fn meta_plan_gates_sources_on_cadence_and_freshness() {
    let quiet = TickWork { refresh_aggregates: false, refresh_rosters: false };
    let p = plan_meta_tick(quiet, true, all_stale());
    assert_eq!(
        p,
        MetaTickPlan {
            fetch_today_schedule: true,
            capture_landings: true,
            fetch_tomorrow_schedule: false,
            fetch_skater_leaderboard: false,
            fetch_goalie_leaderboard: false,
            fetch_standings: false,
            fetch_playoff_bracket: false,
            fetch_rosters: false,
        }
    );
    let agg = TickWork { refresh_aggregates: true, refresh_rosters: false };
    let mut stale = all_stale();
    stale.standings = false;
    let p = plan_meta_tick(agg, false, stale);
    assert!(p.fetch_tomorrow_schedule && p.fetch_skater_leaderboard && p.fetch_goalie_leaderboard);
    assert!(!p.fetch_standings && !p.fetch_playoff_bracket && !p.fetch_rosters);
    let full = TickWork { refresh_aggregates: true, refresh_rosters: true };
    let p = plan_meta_tick(full, true, all_stale());
    assert!(p.fetch_playoff_bracket && p.fetch_rosters);
    let mut fresh = all_stale();
    fresh.today_schedule = false;
    fresh.rosters = false;
    let p = plan_meta_tick(full, true, fresh);
    assert!(!p.fetch_today_schedule && p.capture_landings && !p.fetch_rosters);
}

#[test]
fn rehydrate_steps_by_game_state() {
    assert_eq!(game_row_steps("FUT"), GameRowSteps { capture_landing: true, fetch_boxscore: false });
    assert_eq!(game_row_steps("PRE"), GameRowSteps { capture_landing: true, fetch_boxscore: true });
    assert_eq!(game_row_steps("LIVE"), GameRowSteps { capture_landing: false, fetch_boxscore: true });
    assert_eq!(game_row_steps("OFF"), GameRowSteps { capture_landing: false, fetch_boxscore: true });
    assert_eq!(game_row_steps("fut"), GameRowSteps { capture_landing: false, fetch_boxscore: true });
}

#[test]
fn wire_names_read_back_to_the_same_state() {
    let all = [
        GameState::Live,
        GameState::Final,
        GameState::Off,
        GameState::Crit,
        GameState::Preview,
        GameState::Pre,
        GameState::Fut,
        GameState::Unknown,
    ];
    let names: Vec<&str> = all.iter().map(|s| s.wire_name()).collect();
    assert_eq!(names, vec!["LIVE", "FINAL", "OFF", "CRIT", "PREVIEW", "PRE", "FUT", "UNKNOWN"]);
    for s in all {
        assert_eq!(GameState::parse(s.wire_name()), s);
    }
}

#[test]
fn daily_snapshot_waits_for_live_games_and_ranks_in_order() {
    let totals = [(7i64, 2, 3, 5), (3, 1, 1, 2), (9, 0, 2, 2)];
    assert!(daily_snapshot_rows(1, &totals).is_empty());
    let rows = daily_snapshot_rows(0, &totals);
    assert_eq!(
        rows,
        vec![
            DailyRankingSnapshotRow { team_id: 7, rank: 1, points: 5, goals: 2, assists: 3 },
            DailyRankingSnapshotRow { team_id: 3, rank: 2, points: 2, goals: 1, assists: 1 },
            DailyRankingSnapshotRow { team_id: 9, rank: 3, points: 2, goals: 0, assists: 2 },
        ]
    );
    assert!(daily_snapshot_rows(0, &[]).is_empty());
}

use fantasy_hockey::infra::db::draft::bulk_values_placeholders;

#[test]
fn bulk_insert_values_number_five_parameters_per_player() {
    assert_eq!(bulk_values_placeholders(0), "");
    assert_eq!(bulk_values_placeholders(1), "($1, $2, $3, $4, $5)");
    assert_eq!(
        bulk_values_placeholders(2),
        "($1, $2, $3, $4, $5), ($6, $7, $8, $9, $10)"
    );
}
