//! Decisions of the metadata poller: which tick refreshes what, and which
//! sources a tick fetches given how fresh the mirror tables are. The
//! poller loop itself (timer, advisory lock, fetches, writes) performs
//! the plan and reports nothing back.
use vstd::prelude::*;

verus! {

/// Aggregates (tomorrow's schedule, leaderboards, standings, carousel)
/// refresh on every this-many-th tick, starting with the first.
pub const AGGREGATES_REFRESH_EVERY_N_META_TICKS: u32 = 6;

/// Team rosters refresh on every this-many-th tick, starting with the
/// first.
pub const ROSTER_REFRESH_EVERY_N_META_TICKS: u32 = 288;

/// Which subsets of the poller's work a tick runs. Every tick refreshes
/// today's schedule.
#[derive(Debug, Clone, Copy, PartialEq, Eq, Structural)]
pub struct TickWork {
    pub refresh_aggregates: bool,
    pub refresh_rosters: bool,
}

/// The work of the tick numbered `counter`.
pub open spec fn work_for(counter: u32) -> TickWork {
    TickWork {
        refresh_aggregates: counter % AGGREGATES_REFRESH_EVERY_N_META_TICKS == 1,
        refresh_rosters: counter % ROSTER_REFRESH_EVERY_N_META_TICKS == 1,
    }
}

/// The tick number after `c`, wrapping to 0 after `u32::MAX`.
pub open spec fn next_count(c: u32) -> u32 {
    if c == u32::MAX {
        0
    } else {
        (c + 1) as u32
    }
}

/// The poller's tick counter, started at 0 when the process boots.
#[derive(Debug)]
pub struct TickCounter {
    pub count: u32,
}

impl TickCounter {
    /// A counter that has not ticked yet.
    pub fn new() -> (r: TickCounter)
        ensures
            r.count == 0,
    {
        TickCounter { count: 0 }
    }

    /// Advances the counter (wrapping) and returns the new tick's work.
    pub fn next_work(&mut self) -> (w: TickWork)
        ensures
            final(self).count == next_count(old(self).count),
            w == work_for(final(self).count),
    {
        self.count = if self.count == u32::MAX {
            0
        } else {
            self.count + 1
        };
        TickWork {
            refresh_aggregates: self.count % AGGREGATES_REFRESH_EVERY_N_META_TICKS == 1,
            refresh_rosters: self.count % ROSTER_REFRESH_EVERY_N_META_TICKS == 1,
        }
    }
}

/// Which mirror tables are older than their refresh threshold.
#[derive(Debug, Clone, Copy)]
pub struct MetaStaleness {
    pub today_schedule: bool,
    pub tomorrow_schedule: bool,
    pub skater_leaderboard: bool,
    pub goalie_leaderboard: bool,
    pub standings: bool,
    pub playoff_bracket: bool,
    pub rosters: bool,
}

/// The steps one tick performs.
#[derive(Debug, Clone, Copy, PartialEq, Eq, Structural)]
pub struct MetaTickPlan {
    pub fetch_today_schedule: bool,
    /// Landing capture of today's new FUT/PRE games runs on every tick.
    pub capture_landings: bool,
    pub fetch_tomorrow_schedule: bool,
    pub fetch_skater_leaderboard: bool,
    pub fetch_goalie_leaderboard: bool,
    pub fetch_standings: bool,
    pub fetch_playoff_bracket: bool,
    pub fetch_rosters: bool,
}

/// The plan of a tick: today's schedule when stale, landings always;
/// the rest only on an aggregates tick, each source when stale, the
/// carousel only in the playoffs, the rosters only on a roster tick.
pub open spec fn meta_plan_spec(work: TickWork, playoffs: bool, stale: MetaStaleness) -> MetaTickPlan {
    let agg = work.refresh_aggregates;
    MetaTickPlan {
        fetch_today_schedule: stale.today_schedule,
        capture_landings: true,
        fetch_tomorrow_schedule: agg && stale.tomorrow_schedule,
        fetch_skater_leaderboard: agg && stale.skater_leaderboard,
        fetch_goalie_leaderboard: agg && stale.goalie_leaderboard,
        fetch_standings: agg && stale.standings,
        fetch_playoff_bracket: agg && playoffs && stale.playoff_bracket,
        fetch_rosters: agg && work.refresh_rosters && stale.rosters,
    }
}

/// What a metadata tick fetches. `playoffs` is whether the configured
/// game type is the playoffs.
pub fn plan_meta_tick(work: TickWork, playoffs: bool, stale: MetaStaleness) -> (r: MetaTickPlan)
    ensures
        r == meta_plan_spec(work, playoffs, stale),
{
    let agg = work.refresh_aggregates;
    MetaTickPlan {
        fetch_today_schedule: stale.today_schedule,
        capture_landings: true,
        fetch_tomorrow_schedule: agg && stale.tomorrow_schedule,
        fetch_skater_leaderboard: agg && stale.skater_leaderboard,
        fetch_goalie_leaderboard: agg && stale.goalie_leaderboard,
        fetch_standings: agg && stale.standings,
        fetch_playoff_bracket: agg && playoffs && stale.playoff_bracket,
        fetch_rosters: agg && work.refresh_rosters && stale.rosters,
    }
}

/// Every roster tick is also an aggregates tick, so the rosters are never
/// cut off by the aggregates gate; and the first tick after boot
/// refreshes both.
pub proof fn lemma_roster_ticks_refresh_aggregates(counter: u32)
    ensures
        work_for(counter).refresh_rosters ==> work_for(counter).refresh_aggregates,
        work_for(1) == (TickWork { refresh_aggregates: true, refresh_rosters: true }),
{
    let c = counter as int;
    assert(c % 288 == 1 ==> c % 6 == 1) by (nonlinear_arith);
}

/// Aggregates come back every sixth tick: the tick six after an
/// aggregates tick is one too, unless the counter wrapped in between.
pub proof fn lemma_aggregates_cadence(counter: u32)
    requires
        counter <= u32::MAX - 6,
    ensures
        work_for(counter).refresh_aggregates == work_for((counter + 6) as u32).refresh_aggregates,
{
    let c = counter as int;
    assert((c + 6) % 6 == c % 6) by (nonlinear_arith);
}

} // verus!
