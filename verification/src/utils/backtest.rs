//! Bracket rebuild by declared round: games are bucketed by their round
//! column (none counts as round 1) and grouped into series by team pair
//! within each round, in order of first encounter.
use vstd::prelude::*;

use crate::domain::prediction::race_sim::{BracketState, SeriesState};
use crate::text::{seq_le, str_eq, str_le};

verus! {

/// One completed game, without its date.
#[derive(Debug)]
pub struct ResultRow {
    pub home_team: String,
    pub away_team: String,
    pub home_score: i32,
    pub away_score: i32,
    pub round: Option<u8>,
}

/// A series of one round: alphabetical first team `team_a`, both sides'
/// wins.
#[derive(Debug)]
pub struct PairWins {
    pub team_a: String,
    pub team_b: String,
    pub wins_a: u32,
    pub wins_b: u32,
}

/// Round bucket of a row: declared round minus one (saturating), round 1
/// when none is declared.
pub open spec fn bucket_of(r: ResultRow) -> int {
    match r.round {
        Some(x) => if x == 0 {
            0
        } else {
            x - 1
        },
        None => 0,
    }
}

/// The rows falling into bucket `idx`, in order.
pub open spec fn round_rows(rs: Seq<ResultRow>, idx: int) -> Seq<ResultRow>
    decreases rs.len(),
{
    if rs.len() == 0 {
        Seq::empty()
    } else {
        let p = round_rows(rs.drop_last(), idx);
        if bucket_of(rs.last()) == idx {
            p.push(rs.last())
        } else {
            p
        }
    }
}

/// Alphabetically first team of a game.
pub open spec fn first_team(g: ResultRow) -> String {
    if seq_le(g.home_team@, g.away_team@) {
        g.home_team
    } else {
        g.away_team
    }
}

/// Alphabetically second team of a game.
pub open spec fn second_team(g: ResultRow) -> String {
    if seq_le(g.home_team@, g.away_team@) {
        g.away_team
    } else {
        g.home_team
    }
}

/// The team that won a game (home when it scored more, away otherwise).
pub open spec fn winner_of_game(g: ResultRow) -> Seq<char> {
    if g.home_score > g.away_score {
        g.home_team@
    } else {
        g.away_team@
    }
}

/// Index of the pair `(a, b)`, or -1.
pub open spec fn pair_index(ps: Seq<PairWins>, a: Seq<char>, b: Seq<char>) -> int
    decreases ps.len(),
{
    if ps.len() == 0 {
        -1
    } else if ps.last().team_a@ == a && ps.last().team_b@ == b {
        ps.len() - 1
    } else {
        pair_index(ps.drop_last(), a, b)
    }
}

/// A series after one more game.
pub open spec fn pair_add(p: PairWins, g: ResultRow) -> PairWins {
    if winner_of_game(g) == p.team_a@ {
        PairWins { wins_a: (p.wins_a + 1) as u32, ..p }
    } else {
        PairWins { wins_b: (p.wins_b + 1) as u32, ..p }
    }
}

/// The series of a round's games in order of first encounter.
pub open spec fn pair_aggregate(rs: Seq<ResultRow>) -> Seq<PairWins>
    decreases rs.len(),
{
    if rs.len() == 0 {
        Seq::empty()
    } else {
        let prev = pair_aggregate(rs.drop_last());
        let g = rs.last();
        let i = pair_index(prev, first_team(g)@, second_team(g)@);
        if i >= 0 {
            prev.update(i, pair_add(prev[i], g))
        } else {
            prev.push(
                pair_add(
                    PairWins { team_a: first_team(g), team_b: second_team(g), wins_a: 0, wins_b: 0 },
                    g,
                ),
            )
        }
    }
}

/// The state of a series: completed once a side has four wins (the first
/// team checked first), in progress otherwise.
pub open spec fn pair_state(p: PairWins) -> SeriesState {
    if p.wins_a >= 4 {
        SeriesState::Completed {
            winner: p.team_a,
            loser: p.team_b,
            total_games: (p.wins_a + p.wins_b) as u32,
        }
    } else if p.wins_b >= 4 {
        SeriesState::Completed {
            winner: p.team_b,
            loser: p.team_a,
            total_games: (p.wins_a + p.wins_b) as u32,
        }
    } else {
        SeriesState::InProgress {
            top_team: p.team_a,
            top_wins: p.wins_a,
            bottom_team: p.team_b,
            bottom_wins: p.wins_b,
        }
    }
}

/// Slots of round `idx`: its series' states padded with `Future` and cut
/// to `slots`.
pub open spec fn declared_round_slots(rs: Seq<ResultRow>, idx: int, slots: nat) -> Seq<SeriesState> {
    let states = pair_aggregate(round_rows(rs, idx)).map_values(|p: PairWins| pair_state(p));
    let padded = if states.len() < slots {
        states + Seq::new((slots - states.len()) as nat, |j: int| SeriesState::Future)
    } else {
        states
    };
    padded.take(slots as int)
}

/// The bracket: rounds of 8, 4, 2 and 1 slots built from the rows declared
/// for them.
pub open spec fn declared_round_bracket(rs: Seq<ResultRow>) -> Seq<Seq<SeriesState>> {
    seq![declared_round_slots(rs, 0, 8), declared_round_slots(rs, 1, 4), declared_round_slots(rs, 2, 2), declared_round_slots(rs, 3, 1)]
}

fn bucket(r: &ResultRow) -> (b: usize)
    ensures
        b as int == bucket_of(*r),
{
    match r.round {
        Some(x) => if x == 0 {
            0
        } else {
            (x - 1) as usize
        },
        None => 0,
    }
}

proof fn lemma_pair_index_range(ps: Seq<PairWins>, a: Seq<char>, b: Seq<char>)
    ensures
        -1 <= pair_index(ps, a, b) < ps.len(),
        pair_index(ps, a, b) >= 0 ==> ps[pair_index(ps, a, b)].team_a@ == a && ps[pair_index(
            ps,
            a,
            b,
        )].team_b@ == b,
    decreases ps.len(),
{
    if ps.len() > 0 {
        lemma_pair_index_range(ps.drop_last(), a, b);
    }
}

proof fn lemma_pair_aggregate_bounded(rs: Seq<ResultRow>)
    ensures
        forall|i: int|
            0 <= i < pair_aggregate(rs).len() ==> #[trigger] pair_aggregate(rs)[i].wins_a
                + pair_aggregate(rs)[i].wins_b <= rs.len(),
    decreases rs.len(),
{
    if rs.len() > 0 {
        lemma_pair_aggregate_bounded(rs.drop_last());
        let g = rs.last();
        lemma_pair_index_range(pair_aggregate(rs.drop_last()), first_team(g)@, second_team(g)@);
    }
}

proof fn lemma_round_rows_len(rs: Seq<ResultRow>, idx: int)
    ensures
        round_rows(rs, idx).len() <= rs.len(),
    decreases rs.len(),
{
    if rs.len() > 0 {
        lemma_round_rows_len(rs.drop_last(), idx);
    }
}

fn find_pair(ps: &Vec<PairWins>, a: &String, b: &String) -> (r: Option<usize>)
    ensures
        match r {
            Some(i) => i as int == pair_index(ps@, a@, b@) && i < ps@.len(),
            None => pair_index(ps@, a@, b@) == -1,
        },
{
    let mut k: usize = ps.len();
    assert(ps@.take(k as int) =~= ps@);
    while k > 0
        invariant
            k <= ps@.len(),
            pair_index(ps@, a@, b@) == pair_index(ps@.take(k as int), a@, b@),
        decreases k,
    {
        proof {
            assert(ps@.take(k as int).last() == ps@[k - 1]);
            assert(ps@.take(k as int).drop_last() =~= ps@.take(k - 1));
        }
        if str_eq(ps[k - 1].team_a.as_str(), a.as_str()) && str_eq(
            ps[k - 1].team_b.as_str(),
            b.as_str(),
        ) {
            return Some(k - 1);
        }
        k = k - 1;
    }
    None
}

fn pair_state_exec(p: &PairWins) -> (r: SeriesState)
    requires
        p.wins_a + p.wins_b <= u32::MAX,
    ensures
        r == pair_state(*p),
{
    if p.wins_a >= 4 {
        SeriesState::Completed {
            winner: p.team_a.clone(),
            loser: p.team_b.clone(),
            total_games: p.wins_a + p.wins_b,
        }
    } else if p.wins_b >= 4 {
        SeriesState::Completed {
            winner: p.team_b.clone(),
            loser: p.team_a.clone(),
            total_games: p.wins_a + p.wins_b,
        }
    } else {
        SeriesState::InProgress {
            top_team: p.team_a.clone(),
            top_wins: p.wins_a,
            bottom_team: p.team_b.clone(),
            bottom_wins: p.wins_b,
        }
    }
}

fn build_round(results: &Vec<ResultRow>, idx: usize, slots: usize) -> (r: Vec<SeriesState>)
    requires
        results@.len() < u32::MAX,
    ensures
        r@ == declared_round_slots(results@, idx as int, slots as nat),
{
    let mut pairs: Vec<PairWins> = Vec::new();
    let mut k: usize = 0;
    assert(results@.take(0) =~= Seq::<ResultRow>::empty());
    while k < results.len()
        invariant
            k <= results@.len(),
            results@.len() < u32::MAX,
            pairs@ == pair_aggregate(round_rows(results@.take(k as int), idx as int)),
        decreases results@.len() - k,
    {
        let g = &results[k];
        let ghost t = results@.take(k + 1);
        let ghost rows = round_rows(results@.take(k as int), idx as int);
        proof {
            assert(t.drop_last() =~= results@.take(k as int));
            assert(t.last() == *g);
            lemma_round_rows_len(results@.take(k as int), idx as int);
            lemma_pair_aggregate_bounded(rows);
        }
        if bucket(g) == idx {
            proof {
                assert(round_rows(t, idx as int) == rows.push(*g));
                assert(rows.push(*g).drop_last() =~= rows);
            }
            let (a, b) = if str_le(g.home_team.as_str(), g.away_team.as_str()) {
                (g.home_team.clone(), g.away_team.clone())
            } else {
                (g.away_team.clone(), g.home_team.clone())
            };
            let a_won = if g.home_score > g.away_score {
                str_eq(g.home_team.as_str(), a.as_str())
            } else {
                str_eq(g.away_team.as_str(), a.as_str())
            };
            proof {
                assert(a == first_team(*g));
                assert(b == second_team(*g));
                assert(a_won == (winner_of_game(*g) == a@));
                lemma_pair_index_range(pairs@, a@, b@);
            }
            match find_pair(&pairs, &a, &b) {
                Some(i) => {
                    proof {
                        assert(pairs@[i as int].wins_a + pairs@[i as int].wins_b <= rows.len());
                    }
                    let cur = &pairs[i];
                    let updated = if a_won {
                        PairWins {
                            team_a: cur.team_a.clone(),
                            team_b: cur.team_b.clone(),
                            wins_a: cur.wins_a + 1,
                            wins_b: cur.wins_b,
                        }
                    } else {
                        PairWins {
                            team_a: cur.team_a.clone(),
                            team_b: cur.team_b.clone(),
                            wins_a: cur.wins_a,
                            wins_b: cur.wins_b + 1,
                        }
                    };
                    assert(updated == pair_add(pairs@[i as int], *g));
                    pairs.set(i, updated);
                },
                None => {
                    let fresh = if a_won {
                        PairWins { team_a: a, team_b: b, wins_a: 1, wins_b: 0 }
                    } else {
                        PairWins { team_a: a, team_b: b, wins_a: 0, wins_b: 1 }
                    };
                    assert(fresh == pair_add(
                        PairWins {
                            team_a: first_team(*g),
                            team_b: second_team(*g),
                            wins_a: 0,
                            wins_b: 0,
                        },
                        *g,
                    ));
                    pairs.push(fresh);
                },
            }
        } else {
            proof {
                assert(round_rows(t, idx as int) == rows);
            }
        }
        k = k + 1;
    }
    assert(results@.take(results@.len() as int) =~= results@);
    proof {
        lemma_round_rows_len(results@, idx as int);
        lemma_pair_aggregate_bounded(round_rows(results@, idx as int));
    }
    let ghost states = pairs@.map_values(|p: PairWins| pair_state(p));
    let mut out: Vec<SeriesState> = Vec::new();
    let mut j: usize = 0;
    while j < pairs.len()
        invariant
            j <= pairs@.len(),
            states == pairs@.map_values(|p: PairWins| pair_state(p)),
            pairs@ == pair_aggregate(round_rows(results@, idx as int)),
            forall|i: int|
                0 <= i < pairs@.len() ==> #[trigger] pairs@[i].wins_a + pairs@[i].wins_b
                    <= round_rows(results@, idx as int).len(),
            round_rows(results@, idx as int).len() <= results@.len(),
            results@.len() < u32::MAX,
            out@ =~= states.take(j as int),
        decreases pairs@.len() - j,
    {
        out.push(pair_state_exec(&pairs[j]));
        assert(states.take(j + 1) =~= states.take(j as int).push(states[j as int]));
        j = j + 1;
    }
    assert(out@ =~= states);
    let ghost base = out@;
    while out.len() < slots
        invariant
            out@.len() >= base.len(),
            out@.take(base.len() as int) == base,
            forall|q: int| base.len() <= q < out@.len() ==> #[trigger] out@[q] == SeriesState::Future,
        decreases slots - out@.len(),
    {
        out.push(SeriesState::Future);
        assert(out@.take(base.len() as int) =~= base);
    }
    out.truncate(slots);
    proof {
        if states.len() < slots {
            let padded = states + Seq::new((slots - states.len()) as nat, |j: int| SeriesState::Future);
            assert(out@ =~= padded.take(slots as int));
        } else {
            assert(out@ =~= states.take(slots as int));
        }
    }
    out
}

/// Rebuilds the bracket from games grouped by their declared round (none
/// counts as round 1; rounds beyond 4 are dropped). Within a round, games
/// between the same two teams form one series, in order of first
/// encounter; a side with four wins has completed it. Rounds are padded
/// with `Future` to 8, 4, 2 and 1 slots and cut there.
pub fn reconstruct_bracket_from_results(results: &Vec<ResultRow>) -> (r: BracketState)
    requires
        results@.len() < u32::MAX,
    ensures
        r.rounds@.map_values(|v: Vec<SeriesState>| v@) == declared_round_bracket(results@),
{
    let mut rounds: Vec<Vec<SeriesState>> = Vec::new();
    rounds.push(build_round(results, 0, 8));
    rounds.push(build_round(results, 1, 4));
    rounds.push(build_round(results, 2, 2));
    rounds.push(build_round(results, 3, 1));
    let b = BracketState { rounds };
    assert(b.rounds@.map_values(|v: Vec<SeriesState>| v@) =~= declared_round_bracket(results@));
    b
}

} // verus!
