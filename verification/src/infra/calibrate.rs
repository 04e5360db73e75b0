//! Inputs of the calibration run: the outcomes a finished bracket
//! realized, and the day-one bracket the simulation restarts from.
use vstd::prelude::*;

use crate::domain::prediction::race_sim::{known_teams_spec, string_views, BracketState, SeriesState};

verus! {

/// How far one team went in a finished bracket.
#[derive(Debug)]
pub struct TeamOutcome {
    pub abbrev: String,
    pub advanced_r1: bool,
    pub advanced_r2: bool,
    pub advanced_r3: bool,
    pub won_cup: bool,
}

/// Team `t` won a completed series of round `k`.
pub open spec fn won_round(b: BracketState, k: int, t: Seq<char>) -> bool {
    0 <= k < b.rounds@.len() && exists|j: int|
        0 <= j < b.rounds@[k]@.len() && (#[trigger] b.rounds@[k]@[j] matches SeriesState::Completed {
            winner,
            ..
        } && winner@ == t)
}

/// `o` records team `t`'s realized run through the bracket.
pub open spec fn outcome_of(o: TeamOutcome, b: BracketState, t: Seq<char>) -> bool {
    &&& o.abbrev@ == t
    &&& o.advanced_r1 == won_round(b, 0, t)
    &&& o.advanced_r2 == won_round(b, 1, t)
    &&& o.advanced_r3 == won_round(b, 2, t)
    &&& o.won_cup == won_round(b, 3, t)
}

fn wins_in_round(b: &BracketState, k: usize, t: &String) -> (r: bool)
    ensures
        r == won_round(*b, k as int, t@),
{
    if k >= b.rounds.len() {
        return false;
    }
    let round = &b.rounds[k];
    let mut j: usize = 0;
    while j < round.len()
        invariant
            k < b.rounds@.len(),
            *round == b.rounds@[k as int],
            j <= round@.len(),
            forall|q: int|
                0 <= q < j ==> !(#[trigger] round@[q] matches SeriesState::Completed { winner, .. }
                    && winner@ == t@),
        decreases round@.len() - j,
    {
        match &round[j] {
            SeriesState::Completed { winner, .. } => {
                if crate::text::str_eq(winner.as_str(), t.as_str()) {
                    assert(b.rounds@[k as int]@[j as int] matches SeriesState::Completed {
                        winner,
                        ..
                    } && winner@ == t@);
                    return true;
                }
            },
            _ => {},
        }
        j = j + 1;
    }
    false
}

/// The realized outcome of every team of the first round (each once, in
/// order of appearance): whether it won a completed series in round 1,
/// round 2, round 3 and the final.
pub fn extract_realized_outcomes(bracket: &BracketState) -> (r: Vec<TeamOutcome>)
    ensures
        r@.len() == known_teams_spec(*bracket).len(),
        forall|i: int|
            0 <= i < r@.len() ==> outcome_of(#[trigger] r@[i], *bracket, known_teams_spec(*bracket)[i]),
{
    let teams = bracket.known_teams();
    let mut out: Vec<TeamOutcome> = Vec::new();
    let mut i: usize = 0;
    while i < teams.len()
        invariant
            string_views(teams@) == known_teams_spec(*bracket),
            i <= teams@.len(),
            out@.len() == i,
            forall|q: int|
                0 <= q < i ==> outcome_of(#[trigger] out@[q], *bracket, known_teams_spec(*bracket)[q]),
        decreases teams@.len() - i,
    {
        let t = &teams[i];
        assert(string_views(teams@)[i as int] == t@);
        let o = TeamOutcome {
            abbrev: t.clone(),
            advanced_r1: wins_in_round(bracket, 0, t),
            advanced_r2: wins_in_round(bracket, 1, t),
            advanced_r3: wins_in_round(bracket, 2, t),
            won_cup: wins_in_round(bracket, 3, t),
        };
        out.push(o);
        i = i + 1;
    }
    out
}

/// A first-round slot as it stood on day one: same teams (winner on top
/// for a completed series), both at zero wins.
pub open spec fn day1_slot(s: SeriesState) -> SeriesState {
    match s {
        SeriesState::Completed { winner, loser, .. } => SeriesState::InProgress {
            top_team: winner,
            top_wins: 0,
            bottom_team: loser,
            bottom_wins: 0,
        },
        SeriesState::InProgress { top_team, bottom_team, .. } => SeriesState::InProgress {
            top_team,
            top_wins: 0,
            bottom_team,
            bottom_wins: 0,
        },
        SeriesState::Future => SeriesState::Future,
    }
}

/// The day-one bracket of a realized one: its first round reset to 0-0,
/// then 4, 2 and 1 `Future` slots.
pub open spec fn day1_spec(realized: BracketState) -> Seq<Seq<SeriesState>> {
    let r1 = if realized.rounds@.len() == 0 {
        Seq::empty()
    } else {
        realized.rounds@[0]@.map_values(|s: SeriesState| day1_slot(s))
    };
    seq![
        r1,
        Seq::new(4, |i: int| SeriesState::Future),
        Seq::new(2, |i: int| SeriesState::Future),
        Seq::new(1, |i: int| SeriesState::Future),
    ]
}

fn futures(n: usize) -> (r: Vec<SeriesState>)
    ensures
        r@ == Seq::new(n as nat, |i: int| SeriesState::Future),
{
    let mut v: Vec<SeriesState> = Vec::new();
    while v.len() < n
        invariant
            v@.len() <= n,
            forall|q: int| 0 <= q < v@.len() ==> #[trigger] v@[q] == SeriesState::Future,
        decreases n - v@.len(),
    {
        v.push(SeriesState::Future);
    }
    assert(v@ =~= Seq::new(n as nat, |i: int| SeriesState::Future));
    v
}

/// The bracket as it stood on the first day of the playoffs: the realized
/// first-round pairings at 0-0 and every later round `Future`.
pub fn build_day1_bracket(realized: &BracketState) -> (r: BracketState)
    ensures
        r.rounds@.map_values(|v: Vec<SeriesState>| v@) == day1_spec(*realized),
{
    let mut r1: Vec<SeriesState> = Vec::new();
    if realized.rounds.len() > 0 {
        let first = &realized.rounds[0];
        let mut i: usize = 0;
        while i < first.len()
            invariant
                realized.rounds@.len() > 0,
                *first == realized.rounds@[0],
                i <= first@.len(),
                r1@ =~= first@.take(i as int).map_values(|s: SeriesState| day1_slot(s)),
            decreases first@.len() - i,
        {
            let slot = match &first[i] {
                SeriesState::Completed { winner, loser, .. } => SeriesState::InProgress {
                    top_team: winner.clone(),
                    top_wins: 0,
                    bottom_team: loser.clone(),
                    bottom_wins: 0,
                },
                SeriesState::InProgress { top_team, bottom_team, .. } => SeriesState::InProgress {
                    top_team: top_team.clone(),
                    top_wins: 0,
                    bottom_team: bottom_team.clone(),
                    bottom_wins: 0,
                },
                SeriesState::Future => SeriesState::Future,
            };
            r1.push(slot);
            assert(first@.take(i + 1) =~= first@.take(i as int).push(first@[i as int]));
            i = i + 1;
        }
        assert(first@.take(first@.len() as int) =~= first@);
    }
    let mut rounds: Vec<Vec<SeriesState>> = Vec::new();
    rounds.push(r1);
    rounds.push(futures(4));
    rounds.push(futures(2));
    rounds.push(futures(1));
    let b = BracketState { rounds };
    assert(b.rounds@.map_values(|v: Vec<SeriesState>| v@) =~= day1_spec(*realized));
    b
}

/// The day-one bracket keeps the realized first-round teams and has no
/// game played anywhere.
pub proof fn lemma_day1_keeps_teams_and_resets_games(realized: BracketState)
    ensures
        forall|i: int|
            0 <= i < day1_spec(realized)[0].len() ==> crate::domain::prediction::race_sim::participants(
                #[trigger] day1_spec(realized)[0][i],
            ) == crate::domain::prediction::race_sim::participants(realized.rounds@[0]@[i])
                && crate::domain::prediction::race_sim::games_seen(day1_spec(realized)[0][i]) == 0,
        forall|k: int, i: int|
            1 <= k < 4 && 0 <= i < day1_spec(realized)[k].len() ==> #[trigger] day1_spec(
                realized,
            )[k][i] == SeriesState::Future,
{
}

} // verus!
