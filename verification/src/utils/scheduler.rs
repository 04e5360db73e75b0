//! A day's rankings run: whether the day's games can be scored, the
//! merge of the per-game team performances into one line per team, and
//! the date range of a historical run.
use vstd::prelude::*;

use crate::calendar::{day_run, day_texts, parse_day, views, ymd_parse};
use crate::domain::models::fantasy::{
    daily_rankings_of, DailyRanking, PlayerGamePerformance, TeamDailyPerformance,
};
use crate::domain::models::nhl::{games_on, GameState, TodayGame, TodaySchedule};
use crate::error::Error;
use crate::text::concat2;

verus! {

/// The dates a historical rankings run visits, as `YYYY-MM-DD` texts:
/// every day from `start_date` through `end_date`, both included, in
/// order. A start that does not parse is a validation error
/// `Invalid start date: ` followed by chrono's message, and an end that
/// does not parse (the start being fine) is one `Invalid end date: `
/// followed by chrono's message.
pub fn historical_ranking_dates(start_date: &str, end_date: &str) -> (r: Result<Vec<String>, Error>)
    ensures
        match (ymd_parse(start_date@), ymd_parse(end_date@)) {
            (Err(reason), _) => r matches Err(Error::Validation(m)) && m@ == "Invalid start date: "@
                + reason,
            (Ok(_), Err(reason)) => r matches Err(Error::Validation(m)) && m@
                == "Invalid end date: "@ + reason,
            (Ok(s), Ok(e)) => r matches Ok(dates) && day_run(views(dates@), s as int, e as int),
        },
{
    let start = match parse_day(start_date) {
        Ok(d) => d,
        Err(reason) => {
            return Err(Error::Validation(concat2("Invalid start date: ", reason.as_str())));
        },
    };
    let end = match parse_day(end_date) {
        Ok(d) => d,
        Err(reason) => {
            return Err(Error::Validation(concat2("Invalid end date: ", reason.as_str())));
        },
    };
    Ok(day_texts(start, end))
}


// ---------------------------------------------------------------------------
// Which games a day's rankings score
// ---------------------------------------------------------------------------

/// What a day's rankings run does with the day's schedule.
#[derive(Debug)]
pub enum RankingsPlan {
    /// No games are scheduled on the date.
    NoGames,
    /// Some game of the date is still being played.
    GamesInProgress,
    /// No game of the date is over.
    NoCompletedGames,
    /// Score these games: the date's completed ones, in schedule order.
    Score(Vec<TodayGame>),
}

/// The game is over (`FINAL` or `OFF`).
pub open spec fn game_over(g: TodayGame) -> bool {
    g.game_state == GameState::Final || g.game_state == GameState::Off
}

/// The game is being played (`LIVE` or `CRIT`).
pub open spec fn game_live(g: TodayGame) -> bool {
    g.game_state == GameState::Live || g.game_state == GameState::Crit
}

/// The completed games of `gs`, in order.
pub open spec fn completed_games(gs: Seq<TodayGame>) -> Seq<TodayGame>
    decreases gs.len(),
{
    if gs.len() == 0 {
        Seq::empty()
    } else if game_over(gs.last()) {
        completed_games(gs.drop_last()).push(gs.last())
    } else {
        completed_games(gs.drop_last())
    }
}

/// Some game of `gs` is being played.
pub open spec fn any_live(gs: Seq<TodayGame>) -> bool {
    exists|i: int| 0 <= i < gs.len() && game_live(#[trigger] gs[i])
}

/// What the rankings run of `date` does: nothing when the date has no
/// games, while any of them is live, or when none is over; otherwise it
/// scores the completed games.
pub fn plan_daily_rankings(schedule: &TodaySchedule, date: &str) -> (r: RankingsPlan)
    ensures
        ({
            let gs = games_on(schedule.game_week@, date@);
            &&& gs.len() == 0 ==> r is NoGames
            &&& gs.len() > 0 && any_live(gs) ==> r is GamesInProgress
            &&& gs.len() > 0 && !any_live(gs) && completed_games(gs).len() == 0
                ==> r is NoCompletedGames
            &&& gs.len() > 0 && !any_live(gs) && completed_games(gs).len() > 0 ==> (r matches RankingsPlan::Score(v)
                && v@ == completed_games(gs))
        }),
{
    let games = schedule.games_for_date(date);
    if games.len() == 0 {
        return RankingsPlan::NoGames;
    }
    let mut i: usize = 0;
    while i < games.len()
        invariant
            games@ == games_on(schedule.game_week@, date@),
            games@.len() > 0,
            i <= games@.len(),
            forall|j: int| 0 <= j < i ==> !game_live(#[trigger] games@[j]),
        decreases games@.len() - i,
    {
        if games[i].game_state.is_live() {
            assert(game_live(games@[i as int]));
            assert(any_live(games@));
            return RankingsPlan::GamesInProgress;
        }
        i = i + 1;
    }
    let mut done: Vec<TodayGame> = Vec::new();
    let mut k: usize = 0;
    assert(games@.take(0) =~= Seq::<TodayGame>::empty());
    while k < games.len()
        invariant
            k <= games@.len(),
            done@ == completed_games(games@.take(k as int)),
        decreases games@.len() - k,
    {
        proof {
            let t = games@.take(k + 1);
            assert(t.drop_last() =~= games@.take(k as int));
            assert(t.last() == games@[k as int]);
        }
        if games[k].game_state.is_completed() {
            done.push(games[k].clone());
        }
        k = k + 1;
    }
    assert(games@.take(games@.len() as int) =~= games@);
    if done.len() == 0 {
        RankingsPlan::NoCompletedGames
    } else {
        RankingsPlan::Score(done)
    }
}

// ---------------------------------------------------------------------------
// Merging the games' team performances
// ---------------------------------------------------------------------------

/// A team's day as values: who, the scoring lines, and the totals.
pub struct TeamDay {
    pub team_id: i64,
    pub team_name: Seq<char>,
    pub lines: Seq<PlayerGamePerformance>,
    pub points: int,
    pub goals: int,
    pub assists: int,
}

/// The values of a team performance.
pub open spec fn day_of(t: TeamDailyPerformance) -> TeamDay {
    TeamDay {
        team_id: t.team_id,
        team_name: t.team_name@,
        lines: t.player_performances@,
        points: t.total_points as int,
        goals: t.total_goals as int,
        assists: t.total_assists as int,
    }
}

/// The values of a list of team performances.
pub open spec fn days_of(s: Seq<TeamDailyPerformance>) -> Seq<TeamDay> {
    s.map_values(|t: TeamDailyPerformance| day_of(t))
}

/// The position of the first day of team `id` in `acc`, or -1.
pub open spec fn find_team(acc: Seq<TeamDay>, id: i64) -> int
    decreases acc.len(),
{
    if acc.len() == 0 {
        -1
    } else {
        let k = find_team(acc.drop_last(), id);
        if k >= 0 {
            k
        } else if acc.last().team_id == id {
            acc.len() - 1
        } else {
            -1
        }
    }
}

/// Team day `e` with `p`'s lines appended and `p`'s totals added.
pub open spec fn combine(e: TeamDay, p: TeamDay) -> TeamDay {
    TeamDay {
        team_id: e.team_id,
        team_name: e.team_name,
        lines: e.lines + p.lines,
        points: e.points + p.points,
        goals: e.goals + p.goals,
        assists: e.assists + p.assists,
    }
}

/// `acc` with `p` merged in: into its team's day where the team is
/// listed, at the end otherwise.
pub open spec fn merge_day(acc: Seq<TeamDay>, p: TeamDay) -> Seq<TeamDay> {
    let k = find_team(acc, p.team_id);
    if k >= 0 {
        acc.update(k, combine(acc[k], p))
    } else {
        acc.push(p)
    }
}

/// `acc` with the days `ps` merged in, in order.
pub open spec fn merge_days(acc: Seq<TeamDay>, ps: Seq<TeamDay>) -> Seq<TeamDay>
    decreases ps.len(),
{
    if ps.len() == 0 {
        acc
    } else {
        merge_day(merge_days(acc, ps.drop_last()), ps.last())
    }
}

/// The totals of a team day fit in an `i32`.
pub open spec fn day_fits(d: TeamDay) -> bool {
    &&& i32::MIN <= d.points <= i32::MAX
    &&& i32::MIN <= d.goals <= i32::MAX
    &&& i32::MIN <= d.assists <= i32::MAX
}

/// Every team day of `s` fits.
pub open spec fn all_fit(s: Seq<TeamDay>) -> bool {
    forall|j: int| 0 <= j < s.len() ==> day_fits(#[trigger] s[j])
}

/// Every intermediate merge of `ps` into `acc` has totals that fit.
pub open spec fn merges_fit(acc: Seq<TeamDay>, ps: Seq<TeamDay>) -> bool {
    forall|k: int| 0 <= k <= ps.len() ==> all_fit(#[trigger] merge_days(acc, ps.take(k)))
}

proof fn lemma_find_team_none(s: Seq<TeamDay>, id: i64)
    requires
        forall|j: int| 0 <= j < s.len() ==> (#[trigger] s[j]).team_id != id,
    ensures
        find_team(s, id) == -1,
    decreases s.len(),
{
    if s.len() > 0 {
        lemma_find_team_none(s.drop_last(), id);
    }
}

proof fn lemma_find_team_first(s: Seq<TeamDay>, id: i64, i: int)
    requires
        0 <= i < s.len(),
        s[i].team_id == id,
        forall|j: int| 0 <= j < i ==> (#[trigger] s[j]).team_id != id,
    ensures
        find_team(s, id) == i,
    decreases s.len(),
{
    if i == s.len() - 1 {
        lemma_find_team_none(s.drop_last(), id);
    } else {
        lemma_find_team_first(s.drop_last(), id, i);
    }
}

fn find_team_exec(acc: &Vec<TeamDailyPerformance>, id: i64) -> (r: Option<usize>)
    ensures
        match r {
            Some(k) => k < acc@.len() && find_team(days_of(acc@), id) == k,
            None => find_team(days_of(acc@), id) == -1,
        },
{
    let mut i: usize = 0;
    while i < acc.len()
        invariant
            i <= acc@.len(),
            forall|j: int| 0 <= j < i ==> (#[trigger] acc@[j]).team_id != id,
        decreases acc@.len() - i,
    {
        if acc[i].team_id == id {
            proof {
                let d = days_of(acc@);
                assert forall|j: int| 0 <= j < i implies (#[trigger] d[j]).team_id != id by {
                    assert(d[j] == day_of(acc@[j]));
                }
                lemma_find_team_first(d, id, i as int);
            }
            return Some(i);
        }
        i = i + 1;
    }
    proof {
        let d = days_of(acc@);
        assert forall|j: int| 0 <= j < d.len() implies (#[trigger] d[j]).team_id != id by {
            assert(d[j] == day_of(acc@[j]));
        }
        lemma_find_team_none(d, id);
    }
    None
}

/// Merges one game's team performances into the day's: a team already
/// listed gets the game's scoring lines appended and its totals added; a
/// new team is listed at the end.
pub fn merge_team_performances(acc: &mut Vec<TeamDailyPerformance>, perfs: Vec<TeamDailyPerformance>)
    requires
        merges_fit(days_of(old(acc)@), days_of(perfs@)),
    ensures
        days_of(final(acc)@) == merge_days(days_of(old(acc)@), days_of(perfs@)),
{
    let ghost start = days_of(acc@);
    let ghost ps = days_of(perfs@);
    let ghost orig = perfs@;
    let n = perfs.len();
    let mut rest = perfs;
    let mut i: usize = 0;
    assert(ps.take(0) =~= Seq::<TeamDay>::empty());
    while i < n
        invariant
            n == orig.len(),
            ps == days_of(orig),
            i <= n,
            rest@ =~= orig.skip(i as int),
            days_of(acc@) == merge_days(start, ps.take(i as int)),
            merges_fit(start, ps),
        decreases n - i,
    {
        let mut p = rest.remove(0);
        assert(p == orig[i as int]);
        proof {
            let t = ps.take(i + 1);
            assert(t.drop_last() =~= ps.take(i as int));
            assert(t.last() == day_of(p));
            assert(all_fit(merge_days(start, ps.take(i + 1))));
        }
        let ghost before = days_of(acc@);
        let ghost dp = day_of(p);
        match find_team_exec(&acc, p.team_id) {
            Some(k) => {
                let ghost merged = merge_day(before, dp);
                assert(merged[k as int] == combine(before[k as int], dp));
                assert(day_fits(merged[k as int]));
                let ghost old_acc = acc@;
                let mut e = acc.remove(k);
                assert(day_of(e) == before[k as int]);
                e.player_performances.append(&mut p.player_performances);
                e.total_points = e.total_points + p.total_points;
                e.total_goals = e.total_goals + p.total_goals;
                e.total_assists = e.total_assists + p.total_assists;
                assert(day_of(e) == combine(before[k as int], dp));
                acc.insert(k, e);
                proof {
                    assert(acc@ =~= old_acc.update(k as int, e));
                    assert(days_of(acc@) =~= merged);
                }
            },
            None => {
                acc.push(p);
                proof {
                    assert(days_of(acc@) =~= before.push(day_of(p)));
                }
            },
        }
        i = i + 1;
    }
    assert(ps.take(n as int) =~= ps);
}

/// The team days of a list of games' performances, game after game.
pub open spec fn game_days(gs: Seq<Vec<TeamDailyPerformance>>) -> Seq<TeamDay>
    decreases gs.len(),
{
    if gs.len() == 0 {
        Seq::empty()
    } else {
        game_days(gs.drop_last()) + days_of(gs.last()@)
    }
}

/// Merging `a` then `b` is merging `a + b`.
pub proof fn lemma_merge_days_concat(acc: Seq<TeamDay>, a: Seq<TeamDay>, b: Seq<TeamDay>)
    ensures
        merge_days(acc, a + b) == merge_days(merge_days(acc, a), b),
    decreases b.len(),
{
    if b.len() == 0 {
        assert(a + b =~= a);
    } else {
        lemma_merge_days_concat(acc, a, b.drop_last());
        assert((a + b).drop_last() =~= a + b.drop_last());
        assert((a + b).last() == b.last());
    }
}

proof fn lemma_merges_fit_split(acc: Seq<TeamDay>, a: Seq<TeamDay>, b: Seq<TeamDay>)
    requires
        merges_fit(acc, a + b),
    ensures
        merges_fit(merge_days(acc, a), b),
{
    assert forall|k: int| 0 <= k <= b.len() implies all_fit(
        #[trigger] merge_days(merge_days(acc, a), b.take(k)),
    ) by {
        lemma_merge_days_concat(acc, a, b.take(k));
        assert((a + b).take(a.len() + k) =~= a + b.take(k));
        assert(all_fit(merge_days(acc, (a + b).take(a.len() + k))));
    }
}

/// A day's rankings from its completed games' team performances: the
/// games' performances merged into one line per team (lines appended and
/// totals added in game order), then ranked by daily points.
pub fn daily_rankings_from_games(game_perfs: Vec<Vec<TeamDailyPerformance>>) -> (r: Vec<DailyRanking>)
    requires
        merges_fit(Seq::empty(), game_days(game_perfs@)),
    ensures
        exists|merged: Seq<TeamDailyPerformance>|
            days_of(merged) == merge_days(Seq::empty(), game_days(game_perfs@)) && daily_rankings_of(
                r@,
                merged,
            ),
{
    let ghost all = game_days(game_perfs@);
    let ghost orig = game_perfs@;
    let n = game_perfs.len();
    let mut rest = game_perfs;
    let mut acc: Vec<TeamDailyPerformance> = Vec::new();
    let mut i: usize = 0;
    assert(days_of(acc@) =~= Seq::<TeamDay>::empty());
    assert(orig.take(0) =~= Seq::<Vec<TeamDailyPerformance>>::empty());
    while i < n
        invariant
            n == orig.len(),
            all == game_days(orig),
            i <= n,
            rest@ =~= orig.skip(i as int),
            days_of(acc@) == merge_days(Seq::empty(), game_days(orig.take(i as int))),
            merges_fit(Seq::empty(), all),
        decreases n - i,
    {
        let g = rest.remove(0);
        assert(g == orig[i as int]);
        proof {
            let t = orig.take(i + 1);
            assert(t.drop_last() =~= orig.take(i as int));
            assert(game_days(t) == game_days(orig.take(i as int)) + days_of(g@));
            lemma_game_days_prefix(orig, i + 1);
            let a = game_days(t);
            let rest_days = all.subrange(a.len() as int, all.len() as int);
            assert(all =~= a + rest_days);
            let pre = game_days(orig.take(i as int));
            let cur = days_of(g@);
            lemma_merge_days_concat(Seq::empty(), pre, cur);
            assert(pre + (cur + rest_days) =~= all);
            lemma_merges_fit_split(Seq::empty(), pre, cur + rest_days);
            lemma_merges_fit_prefix(merge_days(Seq::empty(), pre), cur, rest_days);
        }
        merge_team_performances(&mut acc, g);
        proof {
            let t = orig.take(i + 1);
            assert(t.drop_last() =~= orig.take(i as int));
            lemma_merge_days_concat(Seq::empty(), game_days(orig.take(i as int)), days_of(orig[i as int]@));
        }
        i = i + 1;
    }
    assert(orig.take(n as int) =~= orig);
    let ghost merged = acc@;
    let r = DailyRanking::build_rankings(acc);
    assert(days_of(merged) == merge_days(Seq::empty(), all) && daily_rankings_of(r@, merged));
    r
}

proof fn lemma_game_days_prefix(gs: Seq<Vec<TeamDailyPerformance>>, k: int)
    requires
        0 <= k <= gs.len(),
    ensures
        game_days(gs.take(k)) == game_days(gs).take(game_days(gs.take(k)).len() as int),
        game_days(gs.take(k)).len() <= game_days(gs).len(),
    decreases gs.len() - k,
{
    if k == gs.len() {
        assert(gs.take(k) =~= gs);
        assert(game_days(gs).take(game_days(gs).len() as int) =~= game_days(gs));
    } else {
        let p = gs.drop_last();
        lemma_game_days_prefix(p, k);
        assert(p.take(k) =~= gs.take(k));
        let a = game_days(gs.take(k));
        assert(game_days(gs) == game_days(p) + days_of(gs.last()@));
        assert(game_days(gs).take(a.len() as int) =~= game_days(p).take(a.len() as int));
    }
}

proof fn lemma_merges_fit_prefix(acc: Seq<TeamDay>, a: Seq<TeamDay>, b: Seq<TeamDay>)
    requires
        merges_fit(acc, a + b),
    ensures
        merges_fit(acc, a),
{
    assert forall|k: int| 0 <= k <= a.len() implies all_fit(#[trigger] merge_days(acc, a.take(k))) by {
        assert((a + b).take(k) =~= a.take(k));
        assert(all_fit(merge_days(acc, (a + b).take(k))));
    }
}

/// No team is listed twice.
pub open spec fn distinct_teams(s: Seq<TeamDay>) -> bool {
    forall|i: int, j: int| 0 <= i < j < s.len() ==> #[trigger] s[i].team_id != #[trigger] s[j].team_id
}

/// A team day's points (`which` 0), goals (1) or assists (2).
pub open spec fn stat(d: TeamDay, which: int) -> int {
    if which == 0 {
        d.points
    } else if which == 1 {
        d.goals
    } else {
        d.assists
    }
}

/// What team day `d` adds to team `id`'s total of `which`.
pub open spec fn share(d: TeamDay, id: i64, which: int) -> int {
    if d.team_id == id {
        stat(d, which)
    } else {
        0
    }
}

/// Team `id`'s total of `which` over the days of `s`.
pub open spec fn team_total(s: Seq<TeamDay>, id: i64, which: int) -> int
    decreases s.len(),
{
    if s.len() == 0 {
        0
    } else {
        team_total(s.drop_last(), id, which) + share(s.last(), id, which)
    }
}

proof fn lemma_find_team_found(s: Seq<TeamDay>, id: i64)
    ensures
        -1 <= find_team(s, id) < s.len(),
        find_team(s, id) >= 0 ==> s[find_team(s, id)].team_id == id,
        find_team(s, id) == -1 ==> forall|j: int| 0 <= j < s.len() ==> (#[trigger] s[j]).team_id != id,
    decreases s.len(),
{
    if s.len() > 0 {
        lemma_find_team_found(s.drop_last(), id);
        let p = s.drop_last();
        if find_team(s, id) == -1 {
            assert forall|j: int| 0 <= j < s.len() implies (#[trigger] s[j]).team_id != id by {
                if j < p.len() {
                    assert(p[j] == s[j]);
                }
            }
        }
    }
}

proof fn lemma_team_total_update(s: Seq<TeamDay>, k: int, x: TeamDay, id: i64, which: int)
    requires
        0 <= k < s.len(),
    ensures
        team_total(s.update(k, x), id, which) == team_total(s, id, which) - share(s[k], id, which)
            + share(x, id, which),
    decreases s.len(),
{
    let u = s.update(k, x);
    if k == s.len() - 1 {
        assert(u.drop_last() =~= s.drop_last());
    } else {
        assert(u.drop_last() =~= s.drop_last().update(k, x));
        lemma_team_total_update(s.drop_last(), k, x, id, which);
    }
}

/// Merging keeps every team's totals: after the merge, a team's points,
/// goals and assists over the listed days are what they were before plus
/// its totals over the merged-in days. Nothing is lost or counted twice.
pub proof fn lemma_merge_days_totals(acc: Seq<TeamDay>, ps: Seq<TeamDay>, id: i64, which: int)
    ensures
        team_total(merge_days(acc, ps), id, which) == team_total(acc, id, which) + team_total(
            ps,
            id,
            which,
        ),
    decreases ps.len(),
{
    if ps.len() > 0 {
        lemma_merge_days_totals(acc, ps.drop_last(), id, which);
        let m = merge_days(acc, ps.drop_last());
        let p = ps.last();
        lemma_find_team_found(m, p.team_id);
        let k = find_team(m, p.team_id);
        if k >= 0 {
            lemma_team_total_update(m, k, combine(m[k], p), id, which);
        } else {
            assert(m.push(p).drop_last() =~= m);
        }
    }
}

/// Merging keeps teams apart: if `acc` lists each team once, so does the
/// merge, whatever days are merged in.
pub proof fn lemma_merge_days_distinct(acc: Seq<TeamDay>, ps: Seq<TeamDay>)
    requires
        distinct_teams(acc),
    ensures
        distinct_teams(merge_days(acc, ps)),
    decreases ps.len(),
{
    if ps.len() > 0 {
        lemma_merge_days_distinct(acc, ps.drop_last());
        let m = merge_days(acc, ps.drop_last());
        let p = ps.last();
        lemma_find_team_found(m, p.team_id);
        let k = find_team(m, p.team_id);
        if k >= 0 {
            let u = m.update(k, combine(m[k], p));
            assert forall|i: int, j: int| 0 <= i < j < u.len() implies #[trigger] u[i].team_id
                != #[trigger] u[j].team_id by {
                assert(u[i].team_id == m[i].team_id);
                assert(u[j].team_id == m[j].team_id);
            }
        } else {
            let u = m.push(p);
            assert forall|i: int, j: int| 0 <= i < j < u.len() implies #[trigger] u[i].team_id
                != #[trigger] u[j].team_id by {
                assert(u[i] == m[i]);
                if j < m.len() {
                    assert(u[j] == m[j]);
                }
            }
        }
    }
}

} // verus!
