//! Decisions of the daily rankings job.
use vstd::prelude::*;

verus! {

/// One row of the daily rankings snapshot of a league.
#[derive(Debug, Clone, Copy, PartialEq, Eq, Structural)]
pub struct DailyRankingSnapshotRow {
    pub team_id: i64,
    pub rank: i64,
    pub points: i32,
    pub goals: i32,
    pub assists: i32,
}

/// The snapshot written for a date. Nothing while any game of the date is
/// still live (the totals are still moving); otherwise one row per team
/// total, in the order given (the totals view returns scoring teams, best
/// first), ranked 1, 2, 3, … in that order. `totals` holds
/// `(team_id, goals, assists, points)`.
pub fn daily_snapshot_rows(live_games: usize, totals: &[(i64, i32, i32, i32)]) -> (r: Vec<
    DailyRankingSnapshotRow,
>)
    requires
        totals@.len() < i64::MAX,
    ensures
        live_games > 0 ==> r@.len() == 0,
        live_games == 0 ==> r@.len() == totals@.len() && forall|i: int|
            0 <= i < r@.len() ==> #[trigger] r@[i] == (DailyRankingSnapshotRow {
                team_id: totals@[i].0,
                rank: (i + 1) as i64,
                points: totals@[i].3,
                goals: totals@[i].1,
                assists: totals@[i].2,
            }),
{
    let mut out: Vec<DailyRankingSnapshotRow> = Vec::new();
    if live_games > 0 {
        return out;
    }
    let mut i: usize = 0;
    let mut rank: i64 = 1;
    while i < totals.len()
        invariant
            i <= totals@.len(),
            totals@.len() < i64::MAX,
            rank == i + 1,
            out@.len() == i,
            forall|j: int|
                0 <= j < i ==> #[trigger] out@[j] == (DailyRankingSnapshotRow {
                    team_id: totals@[j].0,
                    rank: (j + 1) as i64,
                    points: totals@[j].3,
                    goals: totals@[j].1,
                    assists: totals@[j].2,
                }),
        decreases totals@.len() - i,
    {
        let (team_id, goals, assists, points) = totals[i];
        out.push(DailyRankingSnapshotRow { team_id, rank, points, goals, assists });
        i = i + 1;
        rank = rank + 1;
    }
    out
}

} // verus!
