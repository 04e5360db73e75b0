//! The playoff bracket as the race simulation sees it, and the pure
//! reductions over it (participants, games already played).
use vstd::prelude::*;

use crate::tally::{fits_u32, map_add, TeamTally};
use crate::text::str_eq;

verus! {

/// Lifecycle state of one playoff series: `Future` → `InProgress` →
/// `Completed`.
#[derive(Debug)]
pub enum SeriesState {
    /// Participants unknown; filled in from the feeder slots.
    Future,
    /// Both teams known; may be 0-0 or live.
    InProgress { top_team: String, top_wins: u32, bottom_team: String, bottom_wins: u32 },
    /// Resolved series; `total_games` is the number of games it took.
    Completed { winner: String, loser: String, total_games: u32 },
}

impl Clone for SeriesState {
    fn clone(&self) -> (r: Self)
        ensures
            r == *self,
    {
        match self {
            SeriesState::Future => SeriesState::Future,
            SeriesState::InProgress { top_team, top_wins, bottom_team, bottom_wins } => {
                SeriesState::InProgress {
                    top_team: top_team.clone(),
                    top_wins: *top_wins,
                    bottom_team: bottom_team.clone(),
                    bottom_wins: *bottom_wins,
                }
            },
            SeriesState::Completed { winner, loser, total_games } => SeriesState::Completed {
                winner: winner.clone(),
                loser: loser.clone(),
                total_games: *total_games,
            },
        }
    }
}

/// The playoff bracket as a positional binary tree: the winners of
/// `rounds[r][2i]` and `rounds[r][2i+1]` meet in `rounds[r+1][i]`.
#[derive(Debug, Default)]
pub struct BracketState {
    pub rounds: Vec<Vec<SeriesState>>,
}

/// The two teams of a series, top (or winner) first; none for `Future`.
pub open spec fn participants(s: SeriesState) -> Seq<Seq<char>> {
    match s {
        SeriesState::Future => Seq::empty(),
        SeriesState::InProgress { top_team, bottom_team, .. } => seq![top_team@, bottom_team@],
        SeriesState::Completed { winner, loser, .. } => seq![winner@, loser@],
    }
}

/// Participants of a run of series, in order.
pub open spec fn participants_of(ss: Seq<SeriesState>) -> Seq<Seq<char>>
    decreases ss.len(),
{
    if ss.len() == 0 {
        Seq::empty()
    } else {
        participants_of(ss.drop_last()) + participants(ss.last())
    }
}

/// `s` with repeats removed, keeping first occurrences in order.
pub open spec fn dedup(s: Seq<Seq<char>>) -> Seq<Seq<char>>
    decreases s.len(),
{
    if s.len() == 0 {
        Seq::empty()
    } else {
        let d = dedup(s.drop_last());
        if d.contains(s.last()) {
            d
        } else {
            d.push(s.last())
        }
    }
}

/// Every series of the bracket, round by round.
pub open spec fn all_series(rounds: Seq<Vec<SeriesState>>) -> Seq<SeriesState>
    decreases rounds.len(),
{
    if rounds.len() == 0 {
        Seq::empty()
    } else {
        all_series(rounds.drop_last()) + rounds.last()@
    }
}

/// Games a series has already seen: the total of a completed series, the
/// sum of both sides' wins of a live one, none for a future one.
pub open spec fn games_seen(s: SeriesState) -> int {
    match s {
        SeriesState::Future => 0,
        SeriesState::InProgress { top_wins, bottom_wins, .. } => top_wins + bottom_wins,
        SeriesState::Completed { total_games, .. } => total_games as int,
    }
}

/// Removing repeats keeps every value once and nothing else.
pub proof fn lemma_dedup(s: Seq<Seq<char>>)
    ensures
        dedup(s).no_duplicates(),
        forall|x: Seq<char>| dedup(s).contains(x) == s.contains(x),
    decreases s.len(),
{
    if s.len() > 0 {
        let p = s.drop_last();
        let d = dedup(p);
        lemma_dedup(p);
        assert(s =~= p.push(s.last()));
        let l = s.last();
        assert forall|x: Seq<char>| s.contains(x) == (p.contains(x) || x == l) by {
            if p.contains(x) {
                let j = choose|j: int| 0 <= j < p.len() && p[j] == x;
                assert(s[j] == x);
            }
            if s.contains(x) && x != l {
                let j = choose|j: int| 0 <= j < s.len() && s[j] == x;
                assert(p[j] == x);
            }
            if x == l {
                assert(s[s.len() - 1] == x);
            }
        }
        if !d.contains(l) {
            let e = d.push(l);
            assert forall|x: Seq<char>| e.contains(x) == (d.contains(x) || x == l) by {
                if d.contains(x) {
                    let j = choose|j: int| 0 <= j < d.len() && d[j] == x;
                    assert(e[j] == x);
                }
                if e.contains(x) && x != l {
                    let j = choose|j: int| 0 <= j < e.len() && e[j] == x;
                    assert(d[j] == x);
                }
                if x == l {
                    assert(e[d.len() as int] == x);
                }
            }
            assert forall|i: int, j: int| 0 <= i < e.len() && 0 <= j < e.len() && i != j implies e[i]
                != e[j] by {
                if i < d.len() && j < d.len() {
                    assert(e[i] == d[i] && e[j] == d[j]);
                } else if i < d.len() {
                    assert(e[i] == d[i]);
                } else {
                    assert(e[j] == d[j]);
                }
            }
        }
    }
}

/// The known teams are the first round's participants, each exactly once.
pub proof fn lemma_known_teams_once(b: BracketState)
    ensures
        known_teams_spec(b).no_duplicates(),
        forall|t: Seq<char>|
            known_teams_spec(b).contains(t) == (b.rounds@.len() > 0 && participants_of(
                b.rounds@[0]@,
            ).contains(t)),
{
    if b.rounds@.len() > 0 {
        lemma_dedup(participants_of(b.rounds@[0]@));
    }
}

/// Games already played per team over a run of series: each series adds
/// its games to both of its teams.
pub open spec fn played_tally(ss: Seq<SeriesState>) -> Map<Seq<char>, int>
    decreases ss.len(),
{
    if ss.len() == 0 {
        Map::empty()
    } else {
        let m = played_tally(ss.drop_last());
        let s = ss.last();
        let g = games_seen(s);
        match s {
            SeriesState::Future => m,
            SeriesState::InProgress { top_team, bottom_team, .. } => map_add(
                map_add(m, top_team@, g),
                bottom_team@,
                g,
            ),
            SeriesState::Completed { winner, loser, .. } => map_add(
                map_add(m, winner@, g),
                loser@,
                g,
            ),
        }
    }
}

/// The participants of the first round, each once, in order of
/// appearance; empty for a bracket without rounds.
pub open spec fn known_teams_spec(b: BracketState) -> Seq<Seq<char>> {
    if b.rounds@.len() == 0 {
        Seq::empty()
    } else {
        dedup(participants_of(b.rounds@[0]@))
    }
}

/// Views of a list of strings.
pub open spec fn string_views(v: Seq<String>) -> Seq<Seq<char>> {
    v.map_values(|s: String| s@)
}

fn contains_str(v: &Vec<String>, t: &String) -> (r: bool)
    ensures
        r == string_views(v@).contains(t@),
{
    let mut i: usize = 0;
    while i < v.len()
        invariant
            i <= v.len(),
            forall|j: int| 0 <= j < i ==> #[trigger] v@[j]@ != t@,
        decreases v.len() - i,
    {
        if str_eq(v[i].as_str(), t.as_str()) {
            assert(string_views(v@)[i as int] == t@);
            return true;
        }
        i = i + 1;
    }
    proof {
        if string_views(v@).contains(t@) {
            let j = choose|j: int| 0 <= j < string_views(v@).len() && string_views(v@)[j] == t@;
            assert(v@[j]@ == t@);
        }
    }
    false
}

/// Appends `t` unless it is already present.
fn push_new(out: &mut Vec<String>, t: &String)
    ensures
        string_views(final(out)@) == if string_views(old(out)@).contains(t@) {
            string_views(old(out)@)
        } else {
            string_views(old(out)@).push(t@)
        },
{
    if !contains_str(out, t) {
        out.push(t.clone());
        assert(string_views(out@) =~= string_views(old(out)@).push(t@));
    }
}

proof fn lemma_participants_of_push(ss: Seq<SeriesState>, i: int)
    requires
        0 <= i < ss.len(),
    ensures
        participants_of(ss.take(i + 1)) == participants_of(ss.take(i)) + participants(ss[i]),
{
    assert(ss.take(i + 1).drop_last() =~= ss.take(i));
}

proof fn lemma_dedup_push(s: Seq<Seq<char>>, x: Seq<char>)
    ensures
        dedup(s.push(x)) == if dedup(s).contains(x) {
            dedup(s)
        } else {
            dedup(s).push(x)
        },
{
    assert(s.push(x).drop_last() =~= s);
}

proof fn lemma_all_series_push(rounds: Seq<Vec<SeriesState>>, r: int)
    requires
        0 <= r < rounds.len(),
    ensures
        all_series(rounds.take(r + 1)) == all_series(rounds.take(r)) + rounds[r]@,
{
    assert(rounds.take(r + 1).drop_last() =~= rounds.take(r));
}

/// How many of the rounds have at least one slot.
pub open spec fn nonempty_rounds(rounds: Seq<Vec<SeriesState>>) -> nat
    decreases rounds.len(),
{
    if rounds.len() == 0 {
        0
    } else {
        nonempty_rounds(rounds.drop_last()) + if rounds.last()@.len() > 0 {
            1nat
        } else {
            0nat
        }
    }
}

impl BracketState {
    /// Number of rounds with at least one slot (4 for a full sixteen-team
    /// bracket).
    pub fn depth(&self) -> (r: usize)
        ensures
            r == nonempty_rounds(self.rounds@),
    {
        let mut count: usize = 0;
        let mut i: usize = 0;
        assert(self.rounds@.take(0) =~= Seq::<Vec<SeriesState>>::empty());
        while i < self.rounds.len()
            invariant
                i <= self.rounds@.len(),
                count == nonempty_rounds(self.rounds@.take(i as int)),
                count <= i,
            decreases self.rounds@.len() - i,
        {
            proof {
                let t = self.rounds@.take(i + 1);
                assert(t.drop_last() =~= self.rounds@.take(i as int));
                assert(t.last() == self.rounds@[i as int]);
            }
            if self.rounds[i].len() > 0 {
                count = count + 1;
            }
            i = i + 1;
        }
        assert(self.rounds@.take(self.rounds@.len() as int) =~= self.rounds@);
        count
    }

    /// The teams of the first round (from live and completed series),
    /// each once, in order of appearance.
    pub fn known_teams(&self) -> (r: Vec<String>)
        ensures
            string_views(r@) == known_teams_spec(*self),
    {
        let mut out: Vec<String> = Vec::new();
        if self.rounds.len() == 0 {
            assert(string_views(out@) =~= Seq::<Seq<char>>::empty());
            return out;
        }
        let first = &self.rounds[0];
        let n = first.len();
        let mut i: usize = 0;
        assert(first@.take(0) =~= Seq::<SeriesState>::empty());
        while i < n
            invariant
                n == first@.len(),
                *first == self.rounds@[0],
                i <= n,
                string_views(out@) == dedup(participants_of(first@.take(i as int))),
            decreases n - i,
        {
            proof {
                lemma_participants_of_push(first@, i as int);
            }
            let ghost p0 = participants_of(first@.take(i as int));
            match &first[i] {
                SeriesState::InProgress { top_team, bottom_team, .. } => {
                    push_new(&mut out, top_team);
                    proof {
                        lemma_dedup_push(p0, top_team@);
                    }
                    push_new(&mut out, bottom_team);
                    proof {
                        lemma_dedup_push(p0.push(top_team@), bottom_team@);
                        assert(p0 + participants(first@[i as int]) =~= p0.push(top_team@).push(
                            bottom_team@,
                        ));
                    }
                },
                SeriesState::Completed { winner, loser, .. } => {
                    push_new(&mut out, winner);
                    proof {
                        lemma_dedup_push(p0, winner@);
                    }
                    push_new(&mut out, loser);
                    proof {
                        lemma_dedup_push(p0.push(winner@), loser@);
                        assert(p0 + participants(first@[i as int]) =~= p0.push(winner@).push(
                            loser@,
                        ));
                    }
                },
                SeriesState::Future => {
                    assert(p0 + participants(first@[i as int]) =~= p0);
                },
            }
            i = i + 1;
        }
        assert(first@.take(n as int) =~= first@);
        out
    }
}

/// Adds `games` to the count of `team`.
pub fn add_games(map: &mut TeamTally, team: &str, games: u32)
    requires
        old(map).wf(),
        fits_u32(map_add(old(map).view_map(), team@, games as int)),
    ensures
        final(map).wf(),
        final(map).view_map() == map_add(old(map).view_map(), team@, games as int),
{
    map.add(team, games);
}

/// Intermediate tallies of a run of series stay below the final one.
proof fn lemma_played_tally_prefix_le(ss: Seq<SeriesState>, k: int)
    requires
        0 <= k <= ss.len(),
    ensures
        crate::tally::map_le(played_tally(ss.take(k)), played_tally(ss)),
    decreases ss.len() - k,
{
    if k < ss.len() {
        lemma_played_tally_prefix_le(ss, k + 1);
        let t = ss.take(k + 1);
        assert(t.drop_last() =~= ss.take(k));
        let m = played_tally(ss.take(k));
        let s = t.last();
        let g = games_seen(s);
        assert(g >= 0);
        match s {
            SeriesState::Future => {},
            SeriesState::InProgress { top_team, bottom_team, .. } => {
                crate::tally::lemma_map_add_grows(m, top_team@, g);
                crate::tally::lemma_map_add_grows(map_add(m, top_team@, g), bottom_team@, g);
            },
            SeriesState::Completed { winner, loser, .. } => {
                crate::tally::lemma_map_add_grows(m, winner@, g);
                crate::tally::lemma_map_add_grows(map_add(m, winner@, g), loser@, g);
            },
        }
    } else {
        assert(ss.take(k) =~= ss);
    }
}

proof fn lemma_played_tally_nonneg(ss: Seq<SeriesState>)
    ensures
        forall|k: Seq<char>| #[trigger]
            played_tally(ss).contains_key(k) ==> played_tally(ss)[k] >= 0,
    decreases ss.len(),
{
    if ss.len() > 0 {
        lemma_played_tally_nonneg(ss.drop_last());
        let g = games_seen(ss.last());
        assert(g >= 0);
        let m = played_tally(ss.drop_last());
        assert forall|k: Seq<char>| #[trigger] played_tally(ss).contains_key(k) implies played_tally(
            ss,
        )[k] >= 0 by {
            if m.contains_key(k) {
                assert(m[k] >= 0);
            }
        }
    }
}

/// The bracket's game counts fit the machine counters: every live series'
/// two win counts add up within `u32`, and every team's running total of
/// games stays within `u32`.
pub open spec fn played_fits(b: BracketState) -> bool {
    let ss = all_series(b.rounds@);
    &&& fits_u32(played_tally(ss))
    &&& forall|i: int| 0 <= i < ss.len() ==> games_seen(#[trigger] ss[i]) <= u32::MAX
}

/// Games already played per team across the bracket: completed and live
/// series both count, for both of their teams.
pub fn already_played_by_team(bracket: &BracketState) -> (r: TeamTally)
    requires
        played_fits(*bracket),
    ensures
        r.wf(),
        r.view_map() == played_tally(all_series(bracket.rounds@)),
{
    let ghost all = all_series(bracket.rounds@);
    let mut out = TeamTally::new();
    let nr = bracket.rounds.len();
    let mut r: usize = 0;
    assert(played_tally(Seq::<SeriesState>::empty()) =~= Map::<Seq<char>, int>::empty());
    assert(bracket.rounds@.take(0) =~= Seq::<Vec<SeriesState>>::empty());
    while r < nr
        invariant
            nr == bracket.rounds@.len(),
            all == all_series(bracket.rounds@),
            played_fits(*bracket),
            r <= nr,
            out.wf(),
            out.view_map() == played_tally(all_series(bracket.rounds@.take(r as int))),
            all_series(bracket.rounds@.take(r as int)).len() <= all.len(),
            all_series(bracket.rounds@.take(r as int)) == all.take(
                all_series(bracket.rounds@.take(r as int)).len() as int,
            ),
        decreases nr - r,
    {
        let round = &bracket.rounds[r];
        let ghost before = all_series(bracket.rounds@.take(r as int));
        proof {
            lemma_all_series_push(bracket.rounds@, r as int);
            lemma_all_series_prefix(bracket.rounds@, r + 1);
        }
        let ns = round.len();
        let mut j: usize = 0;
        assert(before + round@.take(0) =~= before);
        while j < ns
            invariant
                ns == round@.len(),
                *round == bracket.rounds@[r as int],
                all == all_series(bracket.rounds@),
                played_fits(*bracket),
                j <= ns,
                before + round@ == all.take((before.len() + ns) as int),
                before.len() + ns <= all.len(),
                out.wf(),
                out.view_map() == played_tally(before + round@.take(j as int)),
            decreases ns - j,
        {
            let ghost cur = before + round@.take(j as int);
            let ghost next = before + round@.take(j + 1);
            proof {
                assert(next.drop_last() =~= cur);
                assert(next.last() == round@[j as int]);
                assert(all[before.len() + j] == round@[j as int]) by {
                    assert((before + round@)[before.len() + j] == round@[j as int]);
                }
                assert(next =~= all.take(before.len() + j + 1));
                lemma_played_tally_prefix_le(all, before.len() + j + 1);
                lemma_played_tally_nonneg(next);
                lemma_played_tally_nonneg(all);
                crate::tally::lemma_fits_below(played_tally(next), played_tally(all));
            }
            match &round[j] {
                SeriesState::Completed { winner, loser, total_games } => {
                    let ghost m = out.view_map();
                    proof {
                        let g = *total_games as int;
                        assert(played_tally(next) == map_add(map_add(m, winner@, g), loser@, g));
                        crate::tally::lemma_map_add_grows(map_add(m, winner@, g), loser@, g);
                        lemma_played_tally_nonneg(cur);
                        crate::tally::lemma_fits_below(
                            map_add(m, winner@, g),
                            map_add(map_add(m, winner@, g), loser@, g),
                        );
                    }
                    out.add(winner.as_str(), *total_games);
                    out.add(loser.as_str(), *total_games);
                },
                SeriesState::InProgress { top_team, top_wins, bottom_team, bottom_wins } => {
                    proof {
                        assert(games_seen(all[before.len() + j]) <= u32::MAX);
                    }
                    let g: u32 = *top_wins + *bottom_wins;
                    let ghost m = out.view_map();
                    proof {
                        let gi = g as int;
                        assert(played_tally(next) == map_add(map_add(m, top_team@, gi), bottom_team@, gi));
                        crate::tally::lemma_map_add_grows(map_add(m, top_team@, gi), bottom_team@, gi);
                        lemma_played_tally_nonneg(cur);
                        crate::tally::lemma_fits_below(
                            map_add(m, top_team@, gi),
                            map_add(map_add(m, top_team@, gi), bottom_team@, gi),
                        );
                    }
                    out.add(top_team.as_str(), g);
                    out.add(bottom_team.as_str(), g);
                },
                SeriesState::Future => {},
            }
            j = j + 1;
        }
        assert(round@.take(ns as int) =~= round@);
        r = r + 1;
    }
    assert(bracket.rounds@.take(nr as int) =~= bracket.rounds@);
    out
}

proof fn lemma_all_series_prefix(rounds: Seq<Vec<SeriesState>>, r: int)
    requires
        0 <= r <= rounds.len(),
    ensures
        all_series(rounds.take(r)).len() <= all_series(rounds).len(),
        all_series(rounds.take(r)) == all_series(rounds).take(
            all_series(rounds.take(r)).len() as int,
        ),
    decreases rounds.len() - r,
{
    if r < rounds.len() {
        lemma_all_series_prefix(rounds, r + 1);
        lemma_all_series_push(rounds, r);
        let a = all_series(rounds.take(r));
        let b = all_series(rounds.take(r + 1));
        assert(b.take(a.len() as int) =~= a);
        assert(all_series(rounds).take(b.len() as int).take(a.len() as int) =~= all_series(
            rounds,
        ).take(a.len() as int));
    } else {
        assert(rounds.take(r) =~= rounds);
        assert(all_series(rounds).take(all_series(rounds).len() as int) =~= all_series(rounds));
    }
}

/// Final score of a simulated series.
#[derive(Debug, Clone, Copy)]
pub struct SeriesOutcome {
    pub top_wins: u32,
    pub bot_wins: u32,
}

impl SeriesOutcome {
    /// Games the series took.
    pub fn total_games(&self) -> (r: u32)
        requires
            self.top_wins + self.bot_wins <= u32::MAX,
        ensures
            r == self.top_wins + self.bot_wins,
    {
        self.top_wins + self.bot_wins
    }
}

/// Who meets in a bracket slot during one simulated trial.
#[derive(Debug)]
pub enum SlotMatchup {
    /// The series is over in real life: its winner advances, no new games.
    Decided { winner: String, loser: String },
    /// The series is (still) to be played from the given score.
    Play { top: String, bottom: String, top_wins: u32, bottom_wins: u32 },
    /// A future slot whose feeder winners are missing in this trial.
    Unfilled,
}

/// The matchup of slot `i` of a round. Started series keep their teams
/// and score; a future slot is played from 0-0 between the winners of
/// slots `2i` and `2i + 1` of the previous round (`prev_winners`, `None`
/// for the first round), and stays unfilled when those winners are
/// missing.
pub fn slot_matchup(slot: &SeriesState, prev_winners: Option<&Vec<String>>, i: usize) -> (r:
    SlotMatchup)
    ensures
        match *slot {
            SeriesState::Completed { winner, loser, .. } => r == (SlotMatchup::Decided {
                winner,
                loser,
            }),
            SeriesState::InProgress { top_team, top_wins, bottom_team, bottom_wins } => r == (
            SlotMatchup::Play { top: top_team, bottom: bottom_team, top_wins, bottom_wins }),
            SeriesState::Future => match prev_winners {
                Some(w) => if 2 * i + 1 < w@.len() {
                    r == (SlotMatchup::Play {
                        top: w@[2 * i],
                        bottom: w@[2 * i + 1],
                        top_wins: 0,
                        bottom_wins: 0,
                    })
                } else {
                    r is Unfilled
                },
                None => r is Unfilled,
            },
        },
{
    match slot {
        SeriesState::Completed { winner, loser, .. } => SlotMatchup::Decided {
            winner: winner.clone(),
            loser: loser.clone(),
        },
        SeriesState::InProgress { top_team, top_wins, bottom_team, bottom_wins } => SlotMatchup::Play {
            top: top_team.clone(),
            bottom: bottom_team.clone(),
            top_wins: *top_wins,
            bottom_wins: *bottom_wins,
        },
        SeriesState::Future => match prev_winners {
            Some(w) => {
                if i < w.len() / 2 {
                    SlotMatchup::Play {
                        top: w[2 * i].clone(),
                        bottom: w[2 * i + 1].clone(),
                        top_wins: 0,
                        bottom_wins: 0,
                    }
                } else {
                    SlotMatchup::Unfilled
                }
            },
            None => SlotMatchup::Unfilled,
        },
    }
}

/// How a played series ends for the bracket walk: whether the top team
/// advanced (it reached four wins) and how many games were added on top
/// of the `top_wins_before + bottom_wins_before` already played, never
/// below zero.
pub fn finish_series(top_wins_before: u32, bottom_wins_before: u32, outcome: SeriesOutcome) -> (r: (
    bool,
    u32,
))
    requires
        outcome.top_wins + outcome.bot_wins <= u32::MAX,
        top_wins_before + bottom_wins_before <= u32::MAX,
    ensures
        r.0 == (outcome.top_wins >= 4),
        r.1 == if outcome.top_wins + outcome.bot_wins >= top_wins_before + bottom_wins_before {
            outcome.top_wins + outcome.bot_wins - (top_wins_before + bottom_wins_before)
        } else {
            0
        },
{
    let total = outcome.total_games();
    let before = top_wins_before + bottom_wins_before;
    let added = if total >= before {
        total - before
    } else {
        0
    };
    (outcome.top_wins >= 4, added)
}

} // verus!
