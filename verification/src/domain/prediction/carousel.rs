//! Playoff games played per team, read off the bracket carousel.
use vstd::prelude::*;

use crate::domain::models::nhl::{PlayoffCarousel, Round, Series};
use crate::tally::{fits_u32, map_add, map_le, TeamTally};

verus! {

/// Every series of the carousel, round by round.
pub open spec fn carousel_series(rounds: Seq<Round>) -> Seq<Series>
    decreases rounds.len(),
{
    if rounds.len() == 0 {
        Seq::empty()
    } else {
        carousel_series(rounds.drop_last()) + rounds.last().series@
    }
}

/// Games a series has seen: both seeds' wins summed, negative totals
/// read as zero, then truncated to `u32`.
pub open spec fn series_games(s: Series) -> int {
    let t = s.top_seed.wins + s.bottom_seed.wins;
    (if t < 0 {
        0
    } else {
        t
    }) as u32 as int
}

/// Games per team over a run of series: each series adds its games to
/// both seeds.
pub open spec fn carousel_tally(ss: Seq<Series>) -> Map<Seq<char>, int>
    decreases ss.len(),
{
    if ss.len() == 0 {
        Map::empty()
    } else {
        let m = carousel_tally(ss.drop_last());
        let s = ss.last();
        let g = series_games(s);
        map_add(map_add(m, s.top_seed.abbrev@, g), s.bottom_seed.abbrev@, g)
    }
}

/// The carousel's numbers fit the machine counters: each series' win sum
/// fits in `i64` and each team's running total of games fits in `u32`.
pub open spec fn carousel_fits(c: PlayoffCarousel) -> bool {
    let ss = carousel_series(c.rounds@);
    &&& fits_u32(carousel_tally(ss))
    &&& forall|i: int|
        0 <= i < ss.len() ==> i64::MIN <= #[trigger] ss[i].top_seed.wins + ss[i].bottom_seed.wins
            <= i64::MAX
}

proof fn lemma_carousel_series_push(rounds: Seq<Round>, r: int)
    requires
        0 <= r < rounds.len(),
    ensures
        carousel_series(rounds.take(r + 1)) == carousel_series(rounds.take(r)) + rounds[r].series@,
{
    assert(rounds.take(r + 1).drop_last() =~= rounds.take(r));
}

proof fn lemma_carousel_series_prefix(rounds: Seq<Round>, r: int)
    requires
        0 <= r <= rounds.len(),
    ensures
        carousel_series(rounds.take(r)).len() <= carousel_series(rounds).len(),
        carousel_series(rounds.take(r)) == carousel_series(rounds).take(
            carousel_series(rounds.take(r)).len() as int,
        ),
    decreases rounds.len() - r,
{
    if r < rounds.len() {
        lemma_carousel_series_prefix(rounds, r + 1);
        lemma_carousel_series_push(rounds, r);
        let a = carousel_series(rounds.take(r));
        let b = carousel_series(rounds.take(r + 1));
        assert(b.take(a.len() as int) =~= a);
        assert(carousel_series(rounds).take(b.len() as int).take(a.len() as int) =~= carousel_series(
            rounds,
        ).take(a.len() as int));
    } else {
        assert(rounds.take(r) =~= rounds);
        assert(carousel_series(rounds).take(carousel_series(rounds).len() as int)
            =~= carousel_series(rounds));
    }
}

proof fn lemma_tally_nonneg(ss: Seq<Series>)
    ensures
        forall|k: Seq<char>| #[trigger]
            carousel_tally(ss).contains_key(k) ==> carousel_tally(ss)[k] >= 0,
    decreases ss.len(),
{
    if ss.len() > 0 {
        lemma_tally_nonneg(ss.drop_last());
        let m = carousel_tally(ss.drop_last());
        assert forall|k: Seq<char>| #[trigger] carousel_tally(ss).contains_key(k) implies carousel_tally(
            ss,
        )[k] >= 0 by {
            if m.contains_key(k) {
                assert(m[k] >= 0);
            }
        }
    }
}

proof fn lemma_tally_prefix_le(ss: Seq<Series>, k: int)
    requires
        0 <= k <= ss.len(),
    ensures
        map_le(carousel_tally(ss.take(k)), carousel_tally(ss)),
    decreases ss.len() - k,
{
    if k < ss.len() {
        lemma_tally_prefix_le(ss, k + 1);
        let t = ss.take(k + 1);
        assert(t.drop_last() =~= ss.take(k));
        let m = carousel_tally(ss.take(k));
        let s = t.last();
        let g = series_games(s);
        crate::tally::lemma_map_add_grows(m, s.top_seed.abbrev@, g);
        crate::tally::lemma_map_add_grows(
            map_add(m, s.top_seed.abbrev@, g),
            s.bottom_seed.abbrev@,
            g,
        );
    } else {
        assert(ss.take(k) =~= ss);
    }
}

/// Playoff games played so far per team abbreviation: each series adds
/// `top_wins + bottom_wins` (negative read as zero) to both of its teams,
/// summed over every round; an absent carousel gives an empty tally.
pub fn games_played_from_carousel(carousel: Option<&PlayoffCarousel>) -> (r: TeamTally)
    requires
        match carousel {
            Some(c) => carousel_fits(*c),
            None => true,
        },
    ensures
        r.wf(),
        match carousel {
            Some(c) => r.view_map() == carousel_tally(carousel_series(c.rounds@)),
            None => r.view_map() == Map::<Seq<char>, int>::empty(),
        },
{
    let mut map = TeamTally::new();
    let c = match carousel {
        Some(c) => c,
        None => return map,
    };
    let ghost all = carousel_series(c.rounds@);
    let nr = c.rounds.len();
    let mut r: usize = 0;
    assert(carousel_tally(Seq::<Series>::empty()) =~= Map::<Seq<char>, int>::empty());
    assert(c.rounds@.take(0) =~= Seq::<Round>::empty());
    while r < nr
        invariant
            nr == c.rounds@.len(),
            all == carousel_series(c.rounds@),
            carousel_fits(*c),
            r <= nr,
            map.wf(),
            map.view_map() == carousel_tally(carousel_series(c.rounds@.take(r as int))),
        decreases nr - r,
    {
        let round = &c.rounds[r];
        let ghost before = carousel_series(c.rounds@.take(r as int));
        proof {
            lemma_carousel_series_push(c.rounds@, r as int);
            lemma_carousel_series_prefix(c.rounds@, r + 1);
        }
        let ns = round.series.len();
        let mut j: usize = 0;
        assert(before + round.series@.take(0) =~= before);
        while j < ns
            invariant
                ns == round.series@.len(),
                *round == c.rounds@[r as int],
                all == carousel_series(c.rounds@),
                carousel_fits(*c),
                j <= ns,
                before + round.series@ == all.take((before.len() + ns) as int),
                before.len() + ns <= all.len(),
                map.wf(),
                map.view_map() == carousel_tally(before + round.series@.take(j as int)),
            decreases ns - j,
        {
            let s = &round.series[j];
            let ghost cur = before + round.series@.take(j as int);
            let ghost next = before + round.series@.take(j + 1);
            proof {
                assert(next.drop_last() =~= cur);
                assert(next.last() == *s);
                assert(all[before.len() + j] == *s) by {
                    assert((before + round.series@)[before.len() + j] == round.series@[j as int]);
                }
                assert(next =~= all.take(before.len() + j + 1));
                lemma_tally_prefix_le(all, before.len() + j + 1);
                lemma_tally_nonneg(next);
                lemma_tally_nonneg(cur);
                lemma_tally_nonneg(all);
                crate::tally::lemma_fits_below(carousel_tally(next), carousel_tally(all));
            }
            let total: i64 = s.top_seed.wins + s.bottom_seed.wins;
            let clamped: i64 = if total < 0 {
                0
            } else {
                total
            };
            let games: u32 = clamped as u32;
            let ghost m = map.view_map();
            proof {
                let g = games as int;
                assert(g == series_games(*s));
                assert(carousel_tally(next) == map_add(
                    map_add(m, s.top_seed.abbrev@, g),
                    s.bottom_seed.abbrev@,
                    g,
                ));
                crate::tally::lemma_map_add_grows(
                    map_add(m, s.top_seed.abbrev@, g),
                    s.bottom_seed.abbrev@,
                    g,
                );
                crate::tally::lemma_fits_below(
                    map_add(m, s.top_seed.abbrev@, g),
                    map_add(map_add(m, s.top_seed.abbrev@, g), s.bottom_seed.abbrev@, g),
                );
            }
            map.add(s.top_seed.abbrev.as_str(), games);
            map.add(s.bottom_seed.abbrev.as_str(), games);
            j = j + 1;
        }
        assert(round.series@.take(ns as int) =~= round.series@);
        r = r + 1;
    }
    assert(c.rounds@.take(nr as int) =~= c.rounds@);
    map
}

} // verus!
