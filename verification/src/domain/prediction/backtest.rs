//! Bracket reconstruction from completed playoff games.
//!
//! Games are folded into series by canonical (alphabetical) team pair;
//! rounds are then assigned by bracket topology and chronology rather than
//! by the rows' declared round, which historical data fills unreliably.
use vstd::prelude::*;

use crate::domain::prediction::race_sim::{BracketState, SeriesState};
use crate::sorting::{stable_sort, stable_sorted, Precedes};
use crate::text::{seq_le, seq_lt, str_eq, str_le, str_lt};

verus! {

/// One completed game.
#[derive(Debug)]
pub struct ResultRow {
    pub game_date: String,
    pub home_team: String,
    pub away_team: String,
    pub home_score: i32,
    pub away_score: i32,
    /// Declared playoff round, if the ingest recorded one. Not consulted:
    /// rounds are inferred from the bracket's topology.
    pub round: Option<u8>,
}

/// A series folded from its games: the alphabetically first team is
/// `team_a`; `first_date` is the earliest game date seen.
#[derive(Debug)]
pub struct SeriesAgg {
    pub team_a: String,
    pub team_b: String,
    pub wins_a: u32,
    pub wins_b: u32,
    pub first_date: String,
}

impl Clone for SeriesAgg {
    fn clone(&self) -> (r: Self)
        ensures
            r == *self,
    {
        SeriesAgg {
            team_a: self.team_a.clone(),
            team_b: self.team_b.clone(),
            wins_a: self.wins_a,
            wins_b: self.wins_b,
            first_date: self.first_date.clone(),
        }
    }
}

/// Earlier first game goes first.
impl Precedes for SeriesAgg {
    open spec fn precedes(&self, other: &Self) -> bool {
        seq_lt(self.first_date@, other.first_date@)
    }

    fn precedes_exec(&self, other: &Self) -> (r: bool) {
        str_lt(self.first_date.as_str(), other.first_date.as_str())
    }
}

// ---------------------------------------------------------------------------
// Specification
// ---------------------------------------------------------------------------

/// The alphabetically first team of a game.
pub open spec fn canon_a(g: ResultRow) -> String {
    if seq_le(g.home_team@, g.away_team@) {
        g.home_team
    } else {
        g.away_team
    }
}

/// The alphabetically second team of a game.
pub open spec fn canon_b(g: ResultRow) -> String {
    if seq_le(g.home_team@, g.away_team@) {
        g.away_team
    } else {
        g.home_team
    }
}

/// The team that won a game: the home team when it outscored the away
/// team, the away team otherwise.
pub open spec fn game_winner(g: ResultRow) -> Seq<char> {
    if g.home_score > g.away_score {
        g.home_team@
    } else {
        g.away_team@
    }
}

/// A series after one more game.
pub open spec fn agg_add(a: SeriesAgg, g: ResultRow) -> SeriesAgg {
    let a_won = game_winner(g) == a.team_a@;
    SeriesAgg {
        team_a: a.team_a,
        team_b: a.team_b,
        wins_a: if a_won {
            (a.wins_a + 1) as u32
        } else {
            a.wins_a
        },
        wins_b: if a_won {
            a.wins_b
        } else {
            (a.wins_b + 1) as u32
        },
        first_date: if seq_lt(g.game_date@, a.first_date@) {
            g.game_date
        } else {
            a.first_date
        },
    }
}

/// Index of the series between `a` and `b`, or -1.
pub open spec fn find_series(aggs: Seq<SeriesAgg>, a: Seq<char>, b: Seq<char>) -> int
    decreases aggs.len(),
{
    if aggs.len() == 0 {
        -1
    } else if aggs.last().team_a@ == a && aggs.last().team_b@ == b {
        aggs.len() - 1
    } else {
        find_series(aggs.drop_last(), a, b)
    }
}

/// The series of a list of games, in order of first appearance.
pub open spec fn aggregate(rs: Seq<ResultRow>) -> Seq<SeriesAgg>
    decreases rs.len(),
{
    if rs.len() == 0 {
        Seq::empty()
    } else {
        let prev = aggregate(rs.drop_last());
        let g = rs.last();
        let i = find_series(prev, canon_a(g)@, canon_b(g)@);
        if i >= 0 {
            prev.update(i, agg_add(prev[i], g))
        } else {
            prev.push(
                agg_add(
                    SeriesAgg {
                        team_a: canon_a(g),
                        team_b: canon_b(g),
                        wins_a: 0,
                        wins_b: 0,
                        first_date: g.game_date,
                    },
                    g,
                ),
            )
        }
    }
}

/// The state a series stands for: completed once a side has four wins
/// (`team_a` checked first), in progress otherwise.
pub open spec fn agg_state(a: SeriesAgg) -> SeriesState {
    if a.wins_a >= 4 {
        SeriesState::Completed {
            winner: a.team_a,
            loser: a.team_b,
            total_games: (a.wins_a + a.wins_b) as u32,
        }
    } else if a.wins_b >= 4 {
        SeriesState::Completed {
            winner: a.team_b,
            loser: a.team_a,
            total_games: (a.wins_a + a.wins_b) as u32,
        }
    } else {
        SeriesState::InProgress {
            top_team: a.team_a,
            top_wins: a.wins_a,
            bottom_team: a.team_b,
            bottom_wins: a.wins_b,
        }
    }
}

/// The winner of a series, if a side has four wins.
pub open spec fn agg_winner(a: SeriesAgg) -> Option<Seq<char>> {
    if a.wins_a >= 4 {
        Some(a.team_a@)
    } else if a.wins_b >= 4 {
        Some(a.team_b@)
    } else {
        None
    }
}

/// First-round selection over the first `k` series: `(picked indices,
/// teams seen)`. A series is picked while fewer than eight are, when it
/// brings a team not seen before.
pub open spec fn r1_state(ss: Seq<SeriesAgg>, k: int) -> (Seq<int>, Seq<Seq<char>>)
    decreases k,
{
    if k <= 0 {
        (Seq::empty(), Seq::empty())
    } else {
        let (p, seen) = r1_state(ss, k - 1);
        let s = ss[k - 1];
        if p.len() >= 8 {
            (p, seen)
        } else if !seen.contains(s.team_a@) || !seen.contains(s.team_b@) {
            (p.push(k - 1), seen.push(s.team_a@).push(s.team_b@))
        } else {
            (p, seen)
        }
    }
}

/// A series is eligible for a later round: not yet placed, and both of its
/// teams won a series of the previous round.
pub open spec fn eligible(
    s: SeriesAgg,
    i: int,
    consumed: Seq<int>,
    winners: Seq<Seq<char>>,
) -> bool {
    !consumed.contains(i) && winners.contains(s.team_a@) && winners.contains(s.team_b@)
}

/// The first `cap` eligible series among the first `k`, in order.
pub open spec fn round_picks(
    ss: Seq<SeriesAgg>,
    consumed: Seq<int>,
    winners: Seq<Seq<char>>,
    cap: nat,
    k: int,
) -> Seq<int>
    decreases k,
{
    if k <= 0 {
        Seq::empty()
    } else {
        let p = round_picks(ss, consumed, winners, cap, k - 1);
        if p.len() < cap && eligible(ss[k - 1], k - 1, consumed, winners) {
            p.push(k - 1)
        } else {
            p
        }
    }
}

/// Winners of the picked series, in pick order.
pub open spec fn winners_of(ss: Seq<SeriesAgg>, picks: Seq<int>) -> Seq<Seq<char>>
    decreases picks.len(),
{
    if picks.len() == 0 {
        Seq::empty()
    } else {
        let w = winners_of(ss, picks.drop_last());
        match agg_winner(ss[picks.last()]) {
            Some(t) => w.push(t),
            None => w,
        }
    }
}

/// A round's slots: the picked series' states, then `Future` up to
/// `slots`.
pub open spec fn materialize(ss: Seq<SeriesAgg>, picks: Seq<int>, slots: nat) -> Seq<SeriesState> {
    let states = picks.map_values(|i: int| agg_state(ss[i]));
    let padded = if states.len() < slots {
        states + Seq::new((slots - states.len()) as nat, |j: int| SeriesState::Future)
    } else {
        states
    };
    padded.take(slots as int)
}

/// The four rounds' picked indices into the sorted series.
pub open spec fn bracket_picks(ss: Seq<SeriesAgg>) -> (Seq<int>, Seq<int>, Seq<int>, Seq<int>) {
    let p1 = r1_state(ss, ss.len() as int).0;
    let p2 = round_picks(ss, p1, winners_of(ss, p1), 4, ss.len() as int);
    let c2 = p1 + p2;
    let p3 = round_picks(ss, c2, winners_of(ss, p2), 2, ss.len() as int);
    let c3 = c2 + p3;
    let p4 = round_picks(ss, c3, winners_of(ss, p3), 1, ss.len() as int);
    (p1, p2, p3, p4)
}

/// The series of the games, sorted by first game date (ties in order of
/// first appearance).
pub open spec fn sorted_series(rs: Seq<ResultRow>) -> Seq<SeriesAgg> {
    stable_sorted(aggregate(rs))
}

/// The bracket implied by a list of completed games: round 1 holds eight
/// slots, round 2 four, round 3 two and the final one.
pub open spec fn reconstruct_spec(rs: Seq<ResultRow>) -> Seq<Seq<SeriesState>> {
    let ss = sorted_series(rs);
    let (p1, p2, p3, p4) = bracket_picks(ss);
    seq![materialize(ss, p1, 8), materialize(ss, p2, 4), materialize(ss, p3, 2), materialize(ss, p4, 1)]
}

/// Views of the rounds of a bracket.
pub open spec fn rounds_view(b: BracketState) -> Seq<Seq<SeriesState>> {
    b.rounds@.map_values(|r: Vec<SeriesState>| r@)
}

// ---------------------------------------------------------------------------
// Implementation
// ---------------------------------------------------------------------------

/// The two teams in alphabetical order.
pub fn canonical_pair(a: &str, b: &str) -> (r: (String, String))
    ensures
        seq_le(a@, b@) ==> r.0@ == a@ && r.1@ == b@,
        !seq_le(a@, b@) ==> r.0@ == b@ && r.1@ == a@,
{
    if str_le(a, b) {
        (String::from_str(a), String::from_str(b))
    } else {
        (String::from_str(b), String::from_str(a))
    }
}

fn canonical_row_pair(g: &ResultRow) -> (r: (String, String))
    ensures
        r.0 == canon_a(*g),
        r.1 == canon_b(*g),
{
    if str_le(g.home_team.as_str(), g.away_team.as_str()) {
        (g.home_team.clone(), g.away_team.clone())
    } else {
        (g.away_team.clone(), g.home_team.clone())
    }
}

impl SeriesAgg {
    /// A series with no game counted yet.
    pub fn new(team_a: String, team_b: String, first_date: String) -> (r: SeriesAgg)
        ensures
            r == (SeriesAgg { team_a, team_b, wins_a: 0, wins_b: 0, first_date }),
    {
        SeriesAgg { team_a, team_b, wins_a: 0, wins_b: 0, first_date }
    }

    /// Counts one more game of the series. The winner is read from the
    /// scores and names, not from home/away.
    pub fn add_game(&mut self, g: &ResultRow)
        requires
            old(self).wins_a < u32::MAX,
            old(self).wins_b < u32::MAX,
        ensures
            *final(self) == agg_add(*old(self), *g),
    {
        let a_won = if g.home_score > g.away_score {
            str_eq(g.home_team.as_str(), self.team_a.as_str())
        } else {
            str_eq(g.away_team.as_str(), self.team_a.as_str())
        };
        if a_won {
            self.wins_a = self.wins_a + 1;
        } else {
            self.wins_b = self.wins_b + 1;
        }
        if str_lt(g.game_date.as_str(), self.first_date.as_str()) {
            self.first_date = g.game_date.clone();
        }
    }

    /// The bracket state the series stands for.
    pub fn to_state(&self) -> (r: SeriesState)
        requires
            self.wins_a + self.wins_b <= u32::MAX,
        ensures
            r == agg_state(*self),
    {
        if self.wins_a >= 4 {
            SeriesState::Completed {
                winner: self.team_a.clone(),
                loser: self.team_b.clone(),
                total_games: self.wins_a + self.wins_b,
            }
        } else if self.wins_b >= 4 {
            SeriesState::Completed {
                winner: self.team_b.clone(),
                loser: self.team_a.clone(),
                total_games: self.wins_a + self.wins_b,
            }
        } else {
            SeriesState::InProgress {
                top_team: self.team_a.clone(),
                top_wins: self.wins_a,
                bottom_team: self.team_b.clone(),
                bottom_wins: self.wins_b,
            }
        }
    }

    /// The winner, once a side has four wins.
    pub fn winner(&self) -> (r: Option<String>)
        ensures
            match r {
                Some(t) => agg_winner(*self) == Some(t@),
                None => agg_winner(*self) is None,
            },
    {
        if self.wins_a >= 4 {
            Some(self.team_a.clone())
        } else if self.wins_b >= 4 {
            Some(self.team_b.clone())
        } else {
            None
        }
    }
}

/// Views of a list of strings.
pub open spec fn views(v: Seq<String>) -> Seq<Seq<char>> {
    v.map_values(|s: String| s@)
}

/// Indices as integers.
pub open spec fn ints(v: Seq<usize>) -> Seq<int> {
    v.map_values(|i: usize| i as int)
}

fn contains_name(v: &Vec<String>, t: &str) -> (r: bool)
    ensures
        r == views(v@).contains(t@),
{
    let mut i: usize = 0;
    while i < v.len()
        invariant
            i <= v.len(),
            forall|j: int| 0 <= j < i ==> #[trigger] v@[j]@ != t@,
        decreases v.len() - i,
    {
        if str_eq(v[i].as_str(), t) {
            assert(views(v@)[i as int] == t@);
            return true;
        }
        i = i + 1;
    }
    proof {
        if views(v@).contains(t@) {
            let j = choose|j: int| 0 <= j < views(v@).len() && views(v@)[j] == t@;
            assert(v@[j]@ == t@);
        }
    }
    false
}

/// Every series has at most as many wins as there were games.
pub open spec fn aggs_bounded(aggs: Seq<SeriesAgg>, n: nat) -> bool {
    forall|i: int| 0 <= i < aggs.len() ==> #[trigger] aggs[i].wins_a + aggs[i].wins_b <= n
}

fn find_agg(aggs: &Vec<SeriesAgg>, a: &String, b: &String) -> (r: Option<usize>)
    ensures
        match r {
            Some(i) => i as int == find_series(aggs@, a@, b@) && i < aggs@.len(),
            None => find_series(aggs@, a@, b@) == -1,
        },
{
    let mut k: usize = aggs.len();
    assert(aggs@.take(k as int) =~= aggs@);
    while k > 0
        invariant
            k <= aggs@.len(),
            find_series(aggs@, a@, b@) == find_series(aggs@.take(k as int), a@, b@),
        decreases k,
    {
        let ghost t = aggs@.take(k as int);
        proof {
            assert(t.last() == aggs@[k - 1]);
            assert(t.drop_last() =~= aggs@.take(k - 1));
        }
        if str_eq(aggs[k - 1].team_a.as_str(), a.as_str()) && str_eq(
            aggs[k - 1].team_b.as_str(),
            b.as_str(),
        ) {
            return Some(k - 1);
        }
        k = k - 1;
    }
    None
}

proof fn lemma_find_series_range(aggs: Seq<SeriesAgg>, a: Seq<char>, b: Seq<char>)
    ensures
        -1 <= find_series(aggs, a, b) < aggs.len(),
    decreases aggs.len(),
{
    if aggs.len() > 0 {
        lemma_find_series_range(aggs.drop_last(), a, b);
    }
}

proof fn lemma_aggregate_bounded(rs: Seq<ResultRow>)
    ensures
        aggs_bounded(aggregate(rs), rs.len()),
    decreases rs.len(),
{
    if rs.len() > 0 {
        lemma_aggregate_bounded(rs.drop_last());
        let prev = aggregate(rs.drop_last());
        let g = rs.last();
        lemma_find_series_range(prev, canon_a(g)@, canon_b(g)@);
    }
}

/// Folds the games into series, in order of first appearance.
fn aggregate_exec(results: &Vec<ResultRow>) -> (r: Vec<SeriesAgg>)
    requires
        results@.len() < u32::MAX,
    ensures
        r@ == aggregate(results@),
{
    let mut aggs: Vec<SeriesAgg> = Vec::new();
    let mut k: usize = 0;
    assert(results@.take(0) =~= Seq::<ResultRow>::empty());
    while k < results.len()
        invariant
            k <= results@.len(),
            results@.len() < u32::MAX,
            aggs@ == aggregate(results@.take(k as int)),
        decreases results@.len() - k,
    {
        let g = &results[k];
        let ghost t = results@.take(k + 1);
        proof {
            assert(t.drop_last() =~= results@.take(k as int));
            assert(t.last() == *g);
            lemma_aggregate_bounded(results@.take(k as int));
        }
        let (a, b) = canonical_row_pair(g);
        match find_agg(&aggs, &a, &b) {
            Some(i) => {
                proof {
                    assert(aggs@[i as int].wins_a + aggs@[i as int].wins_b <= k);
                }
                let mut cur = aggs[i].clone();
                cur.add_game(g);
                aggs.set(i, cur);
            },
            None => {
                let mut fresh = SeriesAgg::new(a, b, g.game_date.clone());
                fresh.add_game(g);
                aggs.push(fresh);
            },
        }
        k = k + 1;
    }
    assert(results@.take(results@.len() as int) =~= results@);
    aggs
}

/// Winners of the picked series, in pick order.
pub fn collect_winners(series: &Vec<SeriesAgg>, indices: &Vec<usize>) -> (r: Vec<String>)
    requires
        forall|k: int| 0 <= k < indices@.len() ==> #[trigger] indices@[k] < series@.len(),
    ensures
        views(r@) == winners_of(series@, ints(indices@)),
{
    let mut out: Vec<String> = Vec::new();
    let mut k: usize = 0;
    assert(ints(indices@).take(0) =~= Seq::<int>::empty());
    while k < indices.len()
        invariant
            k <= indices@.len(),
            forall|q: int| 0 <= q < indices@.len() ==> #[trigger] indices@[q] < series@.len(),
            views(out@) == winners_of(series@, ints(indices@).take(k as int)),
        decreases indices@.len() - k,
    {
        let ghost t = ints(indices@).take(k + 1);
        proof {
            assert(t.drop_last() =~= ints(indices@).take(k as int));
            assert(t.last() == indices@[k as int] as int);
        }
        match series[indices[k]].winner() {
            Some(w) => {
                out.push(w);
                assert(views(out@) =~= winners_of(series@, ints(indices@).take(k as int)).push(
                    out@.last()@,
                ));
            },
            None => {},
        }
        k = k + 1;
    }
    assert(ints(indices@).take(indices@.len() as int) =~= ints(indices@));
    out
}

/// A round's slots: the picked series' states, padded with `Future` up to
/// `slot_count` and cut at `slot_count`.
pub fn materialize_round(series: &Vec<SeriesAgg>, indices: &Vec<usize>, slot_count: usize) -> (r:
    Vec<SeriesState>)
    requires
        forall|k: int| 0 <= k < indices@.len() ==> #[trigger] indices@[k] < series@.len(),
        forall|k: int|
            0 <= k < series@.len() ==> #[trigger] series@[k].wins_a + series@[k].wins_b
                <= u32::MAX,
    ensures
        r@ == materialize(series@, ints(indices@), slot_count as nat),
{
    let ghost states = ints(indices@).map_values(|i: int| agg_state(series@[i]));
    let mut out: Vec<SeriesState> = Vec::new();
    let mut k: usize = 0;
    while k < indices.len()
        invariant
            k <= indices@.len(),
            states == ints(indices@).map_values(|i: int| agg_state(series@[i])),
            forall|q: int| 0 <= q < indices@.len() ==> #[trigger] indices@[q] < series@.len(),
            forall|q: int|
                0 <= q < series@.len() ==> #[trigger] series@[q].wins_a + series@[q].wins_b
                    <= u32::MAX,
            out@ =~= states.take(k as int),
        decreases indices@.len() - k,
    {
        let st = series[indices[k]].to_state();
        out.push(st);
        assert(states.take(k + 1) =~= states.take(k as int).push(states[k as int]));
        k = k + 1;
    }
    assert(out@ =~= states);
    let ghost base = out@;
    while out.len() < slot_count
        invariant
            base == states,
            out@.len() >= base.len(),
            out@.take(base.len() as int) == base,
            forall|q: int| base.len() <= q < out@.len() ==> #[trigger] out@[q] == SeriesState::Future,
        decreases slot_count - out@.len(),
    {
        out.push(SeriesState::Future);
        assert(out@.take(base.len() as int) =~= base);
    }
    out.truncate(slot_count);
    proof {
        let m = materialize(series@, ints(indices@), slot_count as nat);
        if states.len() < slot_count {
            let padded = states + Seq::new(
                (slot_count - states.len()) as nat,
                |j: int| SeriesState::Future,
            );
            assert(out@ =~= padded.take(slot_count as int));
        } else {
            assert(out@ =~= states.take(slot_count as int));
        }
    }
    out
}

proof fn lemma_r1_bounds(ss: Seq<SeriesAgg>, k: int)
    requires
        0 <= k <= ss.len(),
    ensures
        r1_state(ss, k).0.len() <= 8,
        forall|q: int| 0 <= q < r1_state(ss, k).0.len() ==> 0 <= #[trigger] r1_state(ss, k).0[q] < k,
    decreases k,
{
    if k > 0 {
        lemma_r1_bounds(ss, k - 1);
    }
}

proof fn lemma_round_picks_bounds(
    ss: Seq<SeriesAgg>,
    consumed: Seq<int>,
    winners: Seq<Seq<char>>,
    cap: nat,
    k: int,
)
    requires
        0 <= k <= ss.len(),
    ensures
        round_picks(ss, consumed, winners, cap, k).len() <= cap,
        forall|q: int|
            0 <= q < round_picks(ss, consumed, winners, cap, k).len() ==> 0 <= #[trigger] round_picks(
                ss,
                consumed,
                winners,
                cap,
                k,
            )[q] < k,
    decreases k,
{
    if k > 0 {
        lemma_round_picks_bounds(ss, consumed, winners, cap, k - 1);
    }
}

/// First-round picks: series in date order that bring a new team, at most
/// eight.
fn first_round_picks(ss: &Vec<SeriesAgg>) -> (r: Vec<usize>)
    ensures
        ints(r@) == r1_state(ss@, ss@.len() as int).0,
{
    let n = ss.len();
    let mut picks: Vec<usize> = Vec::new();
    let mut seen: Vec<String> = Vec::new();
    let mut i: usize = 0;
    while i < n
        invariant
            n == ss@.len(),
            i <= n,
            ints(picks@) == r1_state(ss@, i as int).0,
            views(seen@) == r1_state(ss@, i as int).1,
        decreases n - i,
    {
        let s = &ss[i];
        if picks.len() < 8 {
            let new_a = !contains_name(&seen, s.team_a.as_str());
            let new_b = !contains_name(&seen, s.team_b.as_str());
            if new_a || new_b {
                picks.push(i);
                seen.push(s.team_a.clone());
                seen.push(s.team_b.clone());
                proof {
                    assert(ints(picks@) =~= r1_state(ss@, i as int).0.push(i as int));
                    assert(views(seen@) =~= r1_state(ss@, i as int).1.push(s.team_a@).push(
                        s.team_b@,
                    ));
                }
            }
        }
        i = i + 1;
    }
    picks
}

/// Later-round picks: the first `cap` series in date order not placed yet
/// whose two teams both won a series of the previous round.
fn later_round_picks(
    ss: &Vec<SeriesAgg>,
    consumed: &Vec<bool>,
    winners: &Vec<String>,
    cap: usize,
    Ghost(consumed_idx): Ghost<Seq<int>>,
) -> (r: Vec<usize>)
    requires
        consumed@.len() == ss@.len(),
        forall|i: int| 0 <= i < ss@.len() ==> #[trigger] consumed@[i] == consumed_idx.contains(i),
    ensures
        ints(r@) == round_picks(ss@, consumed_idx, views(winners@), cap as nat, ss@.len() as int),
{
    let n = ss.len();
    let mut picks: Vec<usize> = Vec::new();
    let mut i: usize = 0;
    while i < n
        invariant
            n == ss@.len(),
            consumed@.len() == n,
            forall|j: int| 0 <= j < n ==> #[trigger] consumed@[j] == consumed_idx.contains(j),
            i <= n,
            ints(picks@) == round_picks(ss@, consumed_idx, views(winners@), cap as nat, i as int),
        decreases n - i,
    {
        let s = &ss[i];
        if picks.len() < cap && !consumed[i] && contains_name(winners, s.team_a.as_str())
            && contains_name(winners, s.team_b.as_str()) {
            picks.push(i);
            assert(ints(picks@) =~= round_picks(
                ss@,
                consumed_idx,
                views(winners@),
                cap as nat,
                i as int,
            ).push(i as int));
        }
        i = i + 1;
    }
    picks
}

fn mark_consumed(consumed: &mut Vec<bool>, picks: &Vec<usize>, Ghost(idx): Ghost<Seq<int>>)
    requires
        forall|k: int| 0 <= k < picks@.len() ==> #[trigger] picks@[k] < old(consumed)@.len(),
        forall|i: int|
            0 <= i < old(consumed)@.len() ==> #[trigger] old(consumed)@[i] == idx.contains(i),
    ensures
        final(consumed)@.len() == old(consumed)@.len(),
        forall|i: int|
            0 <= i < final(consumed)@.len() ==> #[trigger] final(consumed)@[i] == (idx + ints(
                picks@,
            )).contains(i),
{
    let mut k: usize = 0;
    while k < picks.len()
        invariant
            k <= picks@.len(),
            consumed@.len() == old(consumed)@.len(),
            forall|q: int| 0 <= q < picks@.len() ==> #[trigger] picks@[q] < consumed@.len(),
            forall|i: int|
                0 <= i < consumed@.len() ==> #[trigger] consumed@[i] == (idx + ints(picks@).take(
                    k as int,
                )).contains(i),
        decreases picks@.len() - k,
    {
        let p = picks[k];
        consumed.set(p, true);
        proof {
            let before = idx + ints(picks@).take(k as int);
            let after = idx + ints(picks@).take(k + 1);
            assert(after =~= before.push(p as int));
            assert forall|i: int| 0 <= i < consumed@.len() implies #[trigger] consumed@[i]
                == after.contains(i) by {
                if i == p as int {
                    assert(after[after.len() - 1] == i);
                } else {
                    if after.contains(i) {
                        let j = choose|j: int| 0 <= j < after.len() && after[j] == i;
                        assert(before[j] == i);
                    }
                    if before.contains(i) {
                        let j = choose|j: int| 0 <= j < before.len() && before[j] == i;
                        assert(after[j] == i);
                    }
                }
            }
        }
        k = k + 1;
    }
    assert(ints(picks@).take(picks@.len() as int) =~= ints(picks@));
}

/// Reconstructs the bracket implied by a list of completed playoff games.
///
/// Games are grouped into series by canonical team pair and the series
/// sorted by first-game date. Round 1 takes, in date order, series that
/// bring a team not seen before (at most eight). Each later round takes
/// the next series in date order, not yet placed, whose two teams both
/// won a series of the previous round (four, two, then one). Rounds are
/// padded with `Future` to 8, 4, 2 and 1 slots. The rows' declared round
/// is ignored.
pub fn reconstruct_bracket_from_results(results: &Vec<ResultRow>) -> (r: BracketState)
    requires
        results@.len() < u32::MAX,
    ensures
        rounds_view(r) == reconstruct_spec(results@),
{
    let aggs = aggregate_exec(results);
    proof {
        lemma_aggregate_bounded(results@);
        crate::sorting::lemma_stable_sorted_multiset(aggregate(results@));
    }
    let series_list = stable_sort(aggs);
    let ghost ss = series_list@;
    proof {
        assert forall|k: int| 0 <= k < ss.len() implies #[trigger] ss[k].wins_a + ss[k].wins_b
            <= u32::MAX by {
            let e = ss[k];
            assert(ss.to_multiset().count(e) > 0) by {
                broadcast use vstd::seq_lib::group_to_multiset_ensures;

                assert(ss.contains(e));
            }
            let a = aggregate(results@);
            assert(a.to_multiset().count(e) > 0);
            assert(a.contains(e)) by {
                broadcast use vstd::seq_lib::group_to_multiset_ensures;

            }
            let j = choose|j: int| 0 <= j < a.len() && a[j] == e;
            assert(a[j].wins_a + a[j].wins_b <= results@.len());
        }
    }
    let n = series_list.len();
    let ghost picks = bracket_picks(ss);
    let ghost p1s = picks.0;
    let ghost p2s = picks.1;
    let ghost p3s = picks.2;

    let r1 = first_round_picks(&series_list);
    proof {
        lemma_r1_bounds(ss, n as int);
        assert forall|k: int| 0 <= k < r1@.len() implies #[trigger] r1@[k] < n by {
            assert(ints(r1@)[k] == r1@[k] as int);
        }
    }
    let mut consumed: Vec<bool> = Vec::new();
    while consumed.len() < n
        invariant
            consumed@.len() <= n,
            forall|i: int| 0 <= i < consumed@.len() ==> #[trigger] consumed@[i] == false,
        decreases n - consumed@.len(),
    {
        consumed.push(false);
    }
    proof {
        assert forall|i: int| 0 <= i < consumed@.len() implies #[trigger] consumed@[i] == Seq::<
            int,
        >::empty().contains(i) by {}
    }
    mark_consumed(&mut consumed, &r1, Ghost(Seq::empty()));
    assert(Seq::<int>::empty() + ints(r1@) =~= p1s);
    let w1 = collect_winners(&series_list, &r1);
    let round1 = materialize_round(&series_list, &r1, 8);

    let r2 = later_round_picks(&series_list, &consumed, &w1, 4, Ghost(p1s));
    proof {
        lemma_round_picks_bounds(ss, p1s, views(w1@), 4, n as int);
        assert forall|k: int| 0 <= k < r2@.len() implies #[trigger] r2@[k] < n by {
            assert(ints(r2@)[k] == r2@[k] as int);
        }
    }
    mark_consumed(&mut consumed, &r2, Ghost(p1s));
    let w2 = collect_winners(&series_list, &r2);
    let round2 = materialize_round(&series_list, &r2, 4);

    let r3 = later_round_picks(&series_list, &consumed, &w2, 2, Ghost(p1s + p2s));
    proof {
        lemma_round_picks_bounds(ss, p1s + p2s, views(w2@), 2, n as int);
        assert forall|k: int| 0 <= k < r3@.len() implies #[trigger] r3@[k] < n by {
            assert(ints(r3@)[k] == r3@[k] as int);
        }
    }
    mark_consumed(&mut consumed, &r3, Ghost(p1s + p2s));
    let w3 = collect_winners(&series_list, &r3);
    let round3 = materialize_round(&series_list, &r3, 2);

    let r4 = later_round_picks(&series_list, &consumed, &w3, 1, Ghost(p1s + p2s + p3s));
    proof {
        lemma_round_picks_bounds(ss, p1s + p2s + p3s, views(w3@), 1, n as int);
        assert forall|k: int| 0 <= k < r4@.len() implies #[trigger] r4@[k] < n by {
            assert(ints(r4@)[k] == r4@[k] as int);
        }
    }
    let round4 = materialize_round(&series_list, &r4, 1);

    let mut rounds: Vec<Vec<SeriesState>> = Vec::new();
    rounds.push(round1);
    rounds.push(round2);
    rounds.push(round3);
    rounds.push(round4);
    let b = BracketState { rounds };
    assert(rounds_view(b) =~= reconstruct_spec(results@));
    b
}


// ---------------------------------------------------------------------------
// Laws
// ---------------------------------------------------------------------------

/// The reconstructed bracket always has four rounds of 8, 4, 2 and 1
/// slots.
pub proof fn lemma_reconstruct_shape(rs: Seq<ResultRow>)
    ensures
        reconstruct_spec(rs).len() == 4,
        reconstruct_spec(rs)[0].len() == 8,
        reconstruct_spec(rs)[1].len() == 4,
        reconstruct_spec(rs)[2].len() == 2,
        reconstruct_spec(rs)[3].len() == 1,
{
    let ss = sorted_series(rs);
    let (p1, p2, p3, p4) = bracket_picks(ss);
    lemma_materialize_len(ss, p1, 8);
    lemma_materialize_len(ss, p2, 4);
    lemma_materialize_len(ss, p3, 2);
    lemma_materialize_len(ss, p4, 1);
}

proof fn lemma_materialize_len(ss: Seq<SeriesAgg>, picks: Seq<int>, slots: nat)
    ensures
        materialize(ss, picks, slots).len() == slots,
{
}

/// Two rows that differ at most in their declared round.
pub open spec fn same_but_round(a: ResultRow, b: ResultRow) -> bool {
    &&& a.game_date == b.game_date
    &&& a.home_team == b.home_team
    &&& a.away_team == b.away_team
    &&& a.home_score == b.home_score
    &&& a.away_score == b.away_score
}

proof fn lemma_aggregate_ignores_round(rs1: Seq<ResultRow>, rs2: Seq<ResultRow>)
    requires
        rs1.len() == rs2.len(),
        forall|i: int| 0 <= i < rs1.len() ==> same_but_round(#[trigger] rs1[i], rs2[i]),
    ensures
        aggregate(rs1) == aggregate(rs2),
    decreases rs1.len(),
{
    if rs1.len() > 0 {
        lemma_aggregate_ignores_round(rs1.drop_last(), rs2.drop_last());
        assert(same_but_round(rs1.last(), rs2.last()));
    }
}

/// The rows' declared round never changes the reconstruction: two game
/// lists that differ only in that column give the same bracket.
pub proof fn lemma_reconstruct_ignores_declared_round(rs1: Seq<ResultRow>, rs2: Seq<ResultRow>)
    requires
        rs1.len() == rs2.len(),
        forall|i: int| 0 <= i < rs1.len() ==> same_but_round(#[trigger] rs1[i], rs2[i]),
    ensures
        reconstruct_spec(rs1) == reconstruct_spec(rs2),
{
    lemma_aggregate_ignores_round(rs1, rs2);
}

proof fn lemma_round_picks_eligible(
    ss: Seq<SeriesAgg>,
    consumed: Seq<int>,
    winners: Seq<Seq<char>>,
    cap: nat,
    k: int,
)
    requires
        0 <= k <= ss.len(),
    ensures
        forall|q: int|
            #![trigger round_picks(ss, consumed, winners, cap, k)[q]]
            0 <= q < round_picks(ss, consumed, winners, cap, k).len() ==> eligible(
                ss[round_picks(ss, consumed, winners, cap, k)[q]],
                round_picks(ss, consumed, winners, cap, k)[q],
                consumed,
                winners,
            ),
        forall|q1: int, q2: int|
            0 <= q1 < q2 < round_picks(ss, consumed, winners, cap, k).len() ==> #[trigger] round_picks(
                ss,
                consumed,
                winners,
                cap,
                k,
            )[q1] < #[trigger] round_picks(ss, consumed, winners, cap, k)[q2],
    decreases k,
{
    if k > 0 {
        lemma_round_picks_eligible(ss, consumed, winners, cap, k - 1);
        lemma_round_picks_bounds(ss, consumed, winners, cap, k - 1);
    }
}

/// Each series placed in rounds 2, 3 and the final is contested by two
/// teams that both won a series of the previous round, and no series is
/// placed in two rounds.
pub proof fn lemma_later_rounds_fed_by_winners(rs: Seq<ResultRow>)
    ensures
        ({
            let ss = sorted_series(rs);
            let (p1, p2, p3, p4) = bracket_picks(ss);
            &&& forall|q: int| #![trigger p2[q]] 0 <= q < p2.len() ==> eligible(ss[p2[q]], p2[q], p1, winners_of(ss, p1))
            &&& forall|q: int| #![trigger p3[q]] 0 <= q < p3.len() ==> eligible(ss[p3[q]], p3[q], p1 + p2, winners_of(ss, p2))
            &&& forall|q: int| #![trigger p4[q]] 0 <= q < p4.len() ==> eligible(ss[p4[q]], p4[q], p1 + p2 + p3, winners_of(ss, p3))
        }),
{
    let ss = sorted_series(rs);
    let (p1, p2, p3, p4) = bracket_picks(ss);
    let n = ss.len() as int;
    lemma_round_picks_eligible(ss, p1, winners_of(ss, p1), 4, n);
    lemma_round_picks_eligible(ss, p1 + p2, winners_of(ss, p2), 2, n);
    lemma_round_picks_eligible(ss, p1 + p2 + p3, winners_of(ss, p3), 1, n);
}

/// Game `g` was played between `x` and `y` (either at home).
pub open spec fn plays(g: ResultRow, x: Seq<char>, y: Seq<char>) -> bool {
    (g.home_team@ == x && g.away_team@ == y) || (g.home_team@ == y && g.away_team@ == x)
}

/// How many games of `rs` between `w` and `l` were won by `w`, counting
/// a game as won by the side that scored more, the away side when the
/// home side did not.
pub open spec fn games_won(rs: Seq<ResultRow>, w: Seq<char>, l: Seq<char>) -> nat
    decreases rs.len(),
{
    if rs.len() == 0 {
        0
    } else {
        let g = rs.last();
        games_won(rs.drop_last(), w, l) + if plays(g, w, l) && ((g.home_team@ == w
            && g.home_score > g.away_score) || (g.away_team@ == w && !(g.home_score
            > g.away_score))) {
            1nat
        } else {
            0nat
        }
    }
}

proof fn lemma_find_series_keys(aggs: Seq<SeriesAgg>, a: Seq<char>, b: Seq<char>)
    ensures
        find_series(aggs, a, b) >= 0 ==> aggs[find_series(aggs, a, b)].team_a@ == a
            && aggs[find_series(aggs, a, b)].team_b@ == b,
    decreases aggs.len(),
{
    if aggs.len() > 0 {
        lemma_find_series_keys(aggs.drop_last(), a, b);
        lemma_find_series_range(aggs.drop_last(), a, b);
    }
}

/// Every series' win counters are backed by games: each side has won at
/// least as many of the pair's games as its counter says.
proof fn lemma_aggregate_wins_backed(rs: Seq<ResultRow>)
    ensures
        forall|i: int|
            0 <= i < aggregate(rs).len() ==> {
                let a = #[trigger] aggregate(rs)[i];
                &&& a.wins_a <= games_won(rs, a.team_a@, a.team_b@)
                &&& a.wins_b <= games_won(rs, a.team_b@, a.team_a@)
            },
    decreases rs.len(),
{
    if rs.len() > 0 {
        let p = rs.drop_last();
        let g = rs.last();
        lemma_aggregate_wins_backed(p);
        let prev = aggregate(p);
        let ka = canon_a(g)@;
        let kb = canon_b(g)@;
        lemma_find_series_range(prev, ka, kb);
        lemma_find_series_keys(prev, ka, kb);
        let i = find_series(prev, ka, kb);
        let cur = aggregate(rs);
        assert forall|j: int| 0 <= j < cur.len() implies {
            let a = #[trigger] cur[j];
            &&& a.wins_a <= games_won(rs, a.team_a@, a.team_b@)
            &&& a.wins_b <= games_won(rs, a.team_b@, a.team_a@)
        } by {
            let a = cur[j];
            if (i >= 0 && j == i) || (i < 0 && j == prev.len()) {
                let old = if i >= 0 {
                    prev[i]
                } else {
                    SeriesAgg {
                        team_a: canon_a(g),
                        team_b: canon_b(g),
                        wins_a: 0,
                        wins_b: 0,
                        first_date: g.game_date,
                    }
                };
                assert(a == agg_add(old, g));
                assert(old.team_a@ == ka && old.team_b@ == kb);
                assert(plays(g, ka, kb));
                assert(plays(g, kb, ka));
                if i >= 0 {
                    assert(old.wins_a <= games_won(p, ka, kb));
                    assert(old.wins_b <= games_won(p, kb, ka));
                }
                if game_winner(g) == ka {
                    assert(games_won(rs, ka, kb) == games_won(p, ka, kb) + 1);
                } else {
                    assert(game_winner(g) == kb);
                    assert(games_won(rs, kb, ka) == games_won(p, kb, ka) + 1);
                }
            } else {
                assert(a == prev[j]);
            }
        }
    }
}

/// A series' state names as winner a side that has won at least four of
/// the pair's games, and the other side as loser.
proof fn lemma_agg_state_winner_backed(rs: Seq<ResultRow>, a: SeriesAgg)
    requires
        a.wins_a <= games_won(rs, a.team_a@, a.team_b@),
        a.wins_b <= games_won(rs, a.team_b@, a.team_a@),
    ensures
        agg_state(a) matches SeriesState::Completed { winner, loser, .. } ==> games_won(
            rs,
            winner@,
            loser@,
        ) >= 4,
{
}

/// A completed series of the rebuilt bracket is won by a team that won
/// at least four of the games between the two teams, the loser being the
/// other team.
pub proof fn lemma_completed_winner_won_four(rs: Seq<ResultRow>)
    ensures
        forall|r: int, k: int|
            0 <= r < reconstruct_spec(rs).len() && 0 <= k < reconstruct_spec(rs)[r].len() ==> (
            #[trigger] reconstruct_spec(rs)[r][k] matches SeriesState::Completed { winner, loser, .. }
                ==> games_won(rs, winner@, loser@) >= 4),
{
    broadcast use vstd::seq_lib::group_to_multiset_ensures;

    let agg = aggregate(rs);
    let ss = sorted_series(rs);
    lemma_aggregate_wins_backed(rs);
    crate::sorting::lemma_stable_sorted_multiset(agg);
    assert forall|i: int| 0 <= i < ss.len() implies {
        let a = #[trigger] ss[i];
        &&& a.wins_a <= games_won(rs, a.team_a@, a.team_b@)
        &&& a.wins_b <= games_won(rs, a.team_b@, a.team_a@)
    } by {
        let e = ss[i];
        assert(ss.contains(e));
        assert(ss.to_multiset().count(e) > 0);
        assert(agg.to_multiset().count(e) > 0);
        assert(agg.contains(e));
        let j = choose|j: int| 0 <= j < agg.len() && agg[j] == e;
        assert(agg[j] == e);
    }
    let (p1, p2, p3, p4) = bracket_picks(ss);
    let n = ss.len() as int;
    lemma_r1_bounds(ss, n);
    lemma_round_picks_bounds(ss, p1, winners_of(ss, p1), 4, n);
    lemma_round_picks_bounds(ss, p1 + p2, winners_of(ss, p2), 2, n);
    lemma_round_picks_bounds(ss, p1 + p2 + p3, winners_of(ss, p3), 1, n);
    assert forall|r: int, k: int|
        0 <= r < reconstruct_spec(rs).len() && 0 <= k < reconstruct_spec(rs)[r].len() implies (
    #[trigger] reconstruct_spec(rs)[r][k] matches SeriesState::Completed { winner, loser, .. }
        ==> games_won(rs, winner@, loser@) >= 4) by {
        let picks = if r == 0 {
            p1
        } else if r == 1 {
            p2
        } else if r == 2 {
            p3
        } else {
            p4
        };
        let slots: nat = if r == 0 {
            8
        } else if r == 1 {
            4
        } else if r == 2 {
            2
        } else {
            1
        };
        assert(reconstruct_spec(rs)[r] == materialize(ss, picks, slots));
        assert(forall|q: int| 0 <= q < picks.len() ==> 0 <= #[trigger] picks[q] < n);
        let states = picks.map_values(|i: int| agg_state(ss[i]));
        if k < states.len() {
            assert(reconstruct_spec(rs)[r][k] == agg_state(ss[picks[k]]));
            let a = ss[picks[k]];
            lemma_agg_state_winner_backed(rs, a);
        } else {
            assert(reconstruct_spec(rs)[r][k] == SeriesState::Future);
        }
    }
}

} // verus!
