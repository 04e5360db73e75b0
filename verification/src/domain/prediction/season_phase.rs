//! Where the playoffs stand, read from the bracket carousel: a clinched
//! final means the season is over, otherwise the deepest round with a
//! known matchup is described.
use vstd::prelude::*;

use crate::domain::models::nhl::{PlayoffCarousel, Round, Series};
use crate::text::{
    all_white, dec_int, eq_ignore_ascii_case, push_char, push_i64, push_str, replace_char,
    replace_char_exec, str_eq_ignore_ascii_case, trim_is_empty,
};

verus! {

/// Phase of the playoffs.
#[derive(Debug)]
pub enum SeasonPhase {
    /// The bracket is still being decided: label of the deepest round with
    /// a known matchup, and a description of its series.
    InProgress { round_label: String, summary: String },
    /// The final is clinched.
    Over { champion: String, runner_up: String, series_label: String },
}

/// A phase as plain values: `(over, first, second, third)`, i.e.
/// `(true, champion, runner_up, series_label)` or `(false, round_label,
/// summary, "")`.
pub open spec fn phase_view(p: SeasonPhase) -> (bool, Seq<char>, Seq<char>, Seq<char>) {
    match p {
        SeasonPhase::InProgress { round_label, summary } => (
            false,
            round_label@,
            summary@,
            Seq::empty(),
        ),
        SeasonPhase::Over { champion, runner_up, series_label } => (
            true,
            champion@,
            runner_up@,
            series_label@,
        ),
    }
}

/// Wins needed to clinch; a missing or non-positive value counts as 4.
pub open spec fn clinch_spec(s: Series) -> int {
    if s.needed_to_win > 0 {
        s.needed_to_win as int
    } else {
        4
    }
}

/// A real team: not blank and not a `TBD` placeholder.
pub open spec fn known_spec(abbrev: Seq<char>) -> bool {
    !all_white(abbrev) && !eq_ignore_ascii_case(abbrev, "tbd"@)
}

/// Both seeds are real teams.
pub open spec fn two_known_spec(s: Series) -> bool {
    known_spec(s.top_seed.abbrev@) && known_spec(s.bottom_seed.abbrev@)
}

/// `"W-L"` from two win counts.
pub open spec fn score_text(a: int, b: int) -> Seq<char> {
    dec_int(a) + seq!['-'] + dec_int(b)
}

/// `(winner, loser, "W-L")` of a clinched known matchup (top seed checked
/// first).
pub open spec fn decided_spec(s: Series) -> Option<(Seq<char>, Seq<char>, Seq<char>)> {
    if !two_known_spec(s) {
        None
    } else if s.top_seed.wins >= clinch_spec(s) {
        Some(
            (
                s.top_seed.abbrev@,
                s.bottom_seed.abbrev@,
                score_text(s.top_seed.wins as int, s.bottom_seed.wins as int),
            ),
        )
    } else if s.bottom_seed.wins >= clinch_spec(s) {
        Some(
            (
                s.bottom_seed.abbrev@,
                s.top_seed.abbrev@,
                score_text(s.bottom_seed.wins as int, s.top_seed.wins as int),
            ),
        )
    } else {
        None
    }
}

/// `"FLA and CAR tied 2-2"`, `"FLA leads CAR 3-2"` or `"FLA beat CAR
/// 4-1"` for a known matchup.
pub open spec fn describe_spec(s: Series) -> Option<Seq<char>> {
    let top = s.top_seed.abbrev@;
    let bottom = s.bottom_seed.abbrev@;
    let tw = s.top_seed.wins as int;
    let bw = s.bottom_seed.wins as int;
    if !two_known_spec(s) {
        None
    } else if tw == bw {
        Some(top + " and "@ + bottom + " tied "@ + score_text(tw, bw))
    } else {
        let (lead, lw, trail, trw) = if tw > bw {
            (top, tw, bottom, bw)
        } else {
            (bottom, bw, top, tw)
        };
        let verb = if lw >= clinch_spec(s) {
            "beat"@
        } else {
            "leads"@
        };
        Some(lead + seq![' '] + verb + seq![' '] + trail + seq![' '] + score_text(lw, trw))
    }
}

/// The descriptions of the known matchups, in order.
pub open spec fn descriptions(ss: Seq<Series>) -> Seq<Seq<char>>
    decreases ss.len(),
{
    if ss.len() == 0 {
        Seq::empty()
    } else {
        let d = descriptions(ss.drop_last());
        match describe_spec(ss.last()) {
            Some(t) => d.push(t),
            None => d,
        }
    }
}

/// The texts joined by `"; "`.
pub open spec fn join_semicolon(l: Seq<Seq<char>>) -> Seq<char>
    decreases l.len(),
{
    if l.len() == 0 {
        Seq::empty()
    } else if l.len() == 1 {
        l[0]
    } else {
        join_semicolon(l.drop_last()) + "; "@ + l.last()
    }
}

/// `"Round N"` for a blank label, otherwise the label with dashes turned
/// into spaces.
pub open spec fn round_label_spec(label: Seq<char>, n: int) -> Seq<char> {
    if all_white(label) {
        "Round "@ + dec_int(n)
    } else {
        replace_char(label, '-', ' ')
    }
}

/// Index of the last round with the highest round number among the rounds
/// accepted by `known_only` (all rounds, or only rounds with a known
/// matchup); -1 when none.
pub open spec fn deepest_round(rounds: Seq<Round>, known_only: bool) -> int
    decreases rounds.len(),
{
    if rounds.len() == 0 {
        -1
    } else {
        let p = deepest_round(rounds.drop_last(), known_only);
        let r = rounds.last();
        if known_only && !has_known_matchup(r.series@) {
            p
        } else if p < 0 || r.round_number >= rounds[p].round_number {
            rounds.len() - 1
        } else {
            p
        }
    }
}

/// Some series of the list has two known teams.
pub open spec fn has_known_matchup(ss: Seq<Series>) -> bool {
    exists|i: int| 0 <= i < ss.len() && two_known_spec(#[trigger] ss[i])
}

/// The first clinched series of the list.
pub open spec fn first_decided(ss: Seq<Series>) -> Option<(Seq<char>, Seq<char>, Seq<char>)>
    decreases ss.len(),
{
    if ss.len() == 0 {
        None
    } else {
        match decided_spec(ss[0]) {
            Some(t) => Some(t),
            None => first_decided(ss.drop_first()),
        }
    }
}

/// The phase the carousel stands for.
pub open spec fn phase_of(c: PlayoffCarousel) -> (bool, Seq<char>, Seq<char>, Seq<char>) {
    let rounds = c.rounds@;
    let f = deepest_round(rounds, false);
    let decided = if f >= 0 {
        first_decided(rounds[f].series@)
    } else {
        None
    };
    match decided {
        Some((w, l, label)) => (true, w, l, label),
        None => {
            let k = deepest_round(rounds, true);
            if k >= 0 {
                (
                    false,
                    round_label_spec(rounds[k].round_label@, rounds[k].round_number as int),
                    join_semicolon(descriptions(rounds[k].series@)),
                    Seq::empty(),
                )
            } else {
                (false, "Playoffs"@, Seq::empty(), Seq::empty())
            }
        },
    }
}

/// The narrator line for a phase.
pub open spec fn prompt_spec(p: (bool, Seq<char>, Seq<char>, Seq<char>)) -> Seq<char> {
    if p.0 {
        "Season complete. "@ + p.1 + " won the Stanley Cup over "@ + p.2 + " ("@ + p.3 + ")."@
    } else if p.2.len() == 0 {
        p.1 + " in progress."@
    } else {
        p.1 + " in progress. "@ + p.2 + seq!['.']
    }
}

/// Wins a series needs to clinch (4 when missing or non-positive).
pub fn games_to_clinch(series: &Series) -> (r: i64)
    ensures
        r == clinch_spec(*series),
{
    if series.needed_to_win > 0 {
        series.needed_to_win
    } else {
        4
    }
}

/// A real team abbreviation: not blank and not `TBD` in any case.
pub fn team_known(abbrev: &str) -> (r: bool)
    ensures
        r == known_spec(abbrev@),
{
    !trim_is_empty(abbrev) && !str_eq_ignore_ascii_case(abbrev, "tbd")
}

/// Both seeds are real teams.
pub fn series_has_two_known_teams(series: &Series) -> (r: bool)
    ensures
        r == two_known_spec(*series),
{
    team_known(series.top_seed.abbrev.as_str()) && team_known(series.bottom_seed.abbrev.as_str())
}

fn score_string(a: i64, b: i64) -> (r: String)
    ensures
        r@ == score_text(a as int, b as int),
{
    let mut s = String::new();
    push_i64(&mut s, a);
    push_char(&mut s, '-');
    push_i64(&mut s, b);
    assert(s@ =~= score_text(a as int, b as int));
    s
}

/// `(winner, loser, "W-L")` when a known matchup has clinched.
pub fn decided_winner(series: &Series) -> (r: Option<(String, String, String)>)
    ensures
        match r {
            Some(t) => decided_spec(*series) == Some((t.0@, t.1@, t.2@)),
            None => decided_spec(*series) is None,
        },
{
    if !series_has_two_known_teams(series) {
        return None;
    }
    let needed = games_to_clinch(series);
    if series.top_seed.wins >= needed {
        Some(
            (
                series.top_seed.abbrev.clone(),
                series.bottom_seed.abbrev.clone(),
                score_string(series.top_seed.wins, series.bottom_seed.wins),
            ),
        )
    } else if series.bottom_seed.wins >= needed {
        Some(
            (
                series.bottom_seed.abbrev.clone(),
                series.top_seed.abbrev.clone(),
                score_string(series.bottom_seed.wins, series.top_seed.wins),
            ),
        )
    } else {
        None
    }
}

/// Describes a known matchup: tied, leading, or beaten.
pub fn describe_series(series: &Series) -> (r: Option<String>)
    ensures
        match r {
            Some(t) => describe_spec(*series) == Some(t@),
            None => describe_spec(*series) is None,
        },
{
    if !series_has_two_known_teams(series) {
        return None;
    }
    let top = &series.top_seed.abbrev;
    let bottom = &series.bottom_seed.abbrev;
    let tw = series.top_seed.wins;
    let bw = series.bottom_seed.wins;
    if tw == bw {
        let mut s = top.clone();
        push_str(&mut s, " and ");
        push_str(&mut s, bottom.as_str());
        push_str(&mut s, " tied ");
        let sc = score_string(tw, bw);
        push_str(&mut s, sc.as_str());
        return Some(s);
    }
    let (lead, lw, trail, trw) = if tw > bw {
        (top, tw, bottom, bw)
    } else {
        (bottom, bw, top, tw)
    };
    let mut s = lead.clone();
    push_char(&mut s, ' ');
    if lw >= games_to_clinch(series) {
        push_str(&mut s, "beat");
    } else {
        push_str(&mut s, "leads");
    }
    push_char(&mut s, ' ');
    push_str(&mut s, trail.as_str());
    push_char(&mut s, ' ');
    let sc = score_string(lw, trw);
    push_str(&mut s, sc.as_str());
    Some(s)
}

/// `"Round N"` for a blank label, else the label with `-` replaced by a
/// space.
pub fn normalize_round_label(label: &str, round_number: i64) -> (r: String)
    ensures
        r@ == round_label_spec(label@, round_number as int),
{
    if trim_is_empty(label) {
        let mut s = String::new();
        push_str(&mut s, "Round ");
        push_i64(&mut s, round_number);
        return s;
    }
    replace_char_exec(label, '-', ' ')
}

fn round_has_known_matchup(round: &Round) -> (r: bool)
    ensures
        r == has_known_matchup(round.series@),
{
    let mut i: usize = 0;
    while i < round.series.len()
        invariant
            i <= round.series@.len(),
            forall|j: int| 0 <= j < i ==> !two_known_spec(#[trigger] round.series@[j]),
        decreases round.series@.len() - i,
    {
        if series_has_two_known_teams(&round.series[i]) {
            return true;
        }
        i = i + 1;
    }
    false
}

fn deepest_round_exec(rounds: &Vec<Round>, known_only: bool) -> (r: Option<usize>)
    ensures
        match r {
            Some(k) => k as int == deepest_round(rounds@, known_only) && k < rounds@.len(),
            None => deepest_round(rounds@, known_only) == -1,
        },
{
    let mut best: Option<usize> = None;
    let mut i: usize = 0;
    assert(rounds@.take(0) =~= Seq::<Round>::empty());
    while i < rounds.len()
        invariant
            i <= rounds@.len(),
            match best {
                Some(k) => k as int == deepest_round(rounds@.take(i as int), known_only) && k < i,
                None => deepest_round(rounds@.take(i as int), known_only) == -1,
            },
        decreases rounds@.len() - i,
    {
        let ghost t = rounds@.take(i + 1);
        proof {
            assert(t.drop_last() =~= rounds@.take(i as int));
            assert(t.last() == rounds@[i as int]);
        }
        let accept = !known_only || round_has_known_matchup(&rounds[i]);
        if accept {
            match best {
                Some(k) => {
                    assert(t[k as int] == rounds@[k as int]);
                    if rounds[i].round_number >= rounds[k].round_number {
                        best = Some(i);
                    }
                },
                None => {
                    best = Some(i);
                },
            }
        }
        i = i + 1;
    }
    assert(rounds@.take(rounds@.len() as int) =~= rounds@);
    best
}

proof fn lemma_join_push(l: Seq<Seq<char>>, d: Seq<char>)
    ensures
        join_semicolon(l.push(d)) == if l.len() == 0 {
            d
        } else {
            join_semicolon(l) + "; "@ + d
        },
{
    assert(l.push(d).drop_last() =~= l);
    if l.len() == 0 {
        assert(l.push(d)[0] == d);
    }
}

fn summary_of(series: &Vec<Series>) -> (r: String)
    ensures
        r@ == join_semicolon(descriptions(series@)),
{
    let mut out = String::new();
    let mut any: bool = false;
    let mut i: usize = 0;
    assert(series@.take(0) =~= Seq::<Series>::empty());
    while i < series.len()
        invariant
            i <= series@.len(),
            any == (descriptions(series@.take(i as int)).len() > 0),
            out@ == join_semicolon(descriptions(series@.take(i as int))),
        decreases series@.len() - i,
    {
        let ghost t = series@.take(i + 1);
        let ghost l = descriptions(series@.take(i as int));
        proof {
            assert(t.drop_last() =~= series@.take(i as int));
            assert(t.last() == series@[i as int]);
        }
        match describe_series(&series[i]) {
            Some(d) => {
                proof {
                    lemma_join_push(l, d@);
                }
                if any {
                    push_str(&mut out, "; ");
                }
                push_str(&mut out, d.as_str());
                proof {
                    if !any {
                        assert(out@ =~= d@);
                    }
                }
                any = true;
            },
            None => {},
        }
        i = i + 1;
    }
    assert(series@.take(series@.len() as int) =~= series@);
    out
}

fn first_decided_exec(series: &Vec<Series>) -> (r: Option<(String, String, String)>)
    ensures
        match r {
            Some(t) => first_decided(series@) == Some((t.0@, t.1@, t.2@)),
            None => first_decided(series@) is None,
        },
{
    let mut i: usize = 0;
    assert(series@.skip(0) =~= series@);
    while i < series.len()
        invariant
            i <= series@.len(),
            first_decided(series@) == first_decided(series@.skip(i as int)),
        decreases series@.len() - i,
    {
        proof {
            assert(series@.skip(i as int)[0] == series@[i as int]);
            assert(series@.skip(i as int).drop_first() =~= series@.skip(i + 1));
        }
        match decided_winner(&series[i]) {
            Some(t) => {
                return Some(t);
            },
            None => {},
        }
        i = i + 1;
    }
    None
}

impl SeasonPhase {
    /// Reads the phase off the carousel. If a series of the deepest round
    /// (the last one with the highest round number) has clinched, the
    /// season is over with that series' winner; otherwise the deepest
    /// round with a known matchup is described, or `"Playoffs"` when there
    /// is none.
    pub fn from_carousel(carousel: &PlayoffCarousel) -> (r: SeasonPhase)
        ensures
            phase_view(r) == phase_of(*carousel),
    {
        match deepest_round_exec(&carousel.rounds, false) {
            Some(f) => {
                match first_decided_exec(&carousel.rounds[f].series) {
                    Some((champion, runner_up, series_label)) => {
                        return SeasonPhase::Over { champion, runner_up, series_label };
                    },
                    None => {},
                }
            },
            None => {},
        }
        match deepest_round_exec(&carousel.rounds, true) {
            Some(k) => {
                let round = &carousel.rounds[k];
                let summary = summary_of(&round.series);
                SeasonPhase::InProgress {
                    round_label: normalize_round_label(
                        round.round_label.as_str(),
                        round.round_number,
                    ),
                    summary,
                }
            },
            None => {
                let s = String::from_str("Playoffs");
                SeasonPhase::InProgress { round_label: s, summary: String::new() }
            },
        }
    }

    /// The season is over.
    pub fn is_over(&self) -> (r: bool)
        ensures
            r == phase_view(*self).0,
    {
        match self {
            SeasonPhase::Over { .. } => true,
            SeasonPhase::InProgress { .. } => false,
        }
    }

    /// One line for the narrator's season-state block.
    pub fn prompt_line(&self) -> (r: String)
        ensures
            r@ == prompt_spec(phase_view(*self)),
    {
        match self {
            SeasonPhase::Over { champion, runner_up, series_label } => {
                let mut s = String::from_str("Season complete. ");
                push_str(&mut s, champion.as_str());
                push_str(&mut s, " won the Stanley Cup over ");
                push_str(&mut s, runner_up.as_str());
                push_str(&mut s, " (");
                push_str(&mut s, series_label.as_str());
                push_str(&mut s, ").");
                s
            },
            SeasonPhase::InProgress { round_label, summary } => {
                let mut s = round_label.clone();
                if summary.as_str().unicode_len() == 0 {
                    push_str(&mut s, " in progress.");
                } else {
                    push_str(&mut s, " in progress. ");
                    push_str(&mut s, summary.as_str());
                    push_char(&mut s, '.');
                }
                s
            },
        }
    }
}

impl PartialEq for SeasonPhase {
    fn eq(&self, other: &Self) -> (r: bool) {
        match (self, other) {
            (
                SeasonPhase::InProgress { round_label: a1, summary: a2 },
                SeasonPhase::InProgress { round_label: b1, summary: b2 },
            ) => *a1 == *b1 && *a2 == *b2,
            (
                SeasonPhase::Over { champion: a1, runner_up: a2, series_label: a3 },
                SeasonPhase::Over { champion: b1, runner_up: b2, series_label: b3 },
            ) => *a1 == *b1 && *a2 == *b2 && *a3 == *b3,
            _ => false,
        }
    }
}

impl vstd::std_specs::cmp::PartialEqSpecImpl for SeasonPhase {
    open spec fn obeys_eq_spec() -> bool {
        true
    }

    open spec fn eq_spec(&self, other: &Self) -> bool {
        phase_view(*self) == phase_view(*other)
    }
}

impl Eq for SeasonPhase {
}

/// When the carousel's deepest round holds a clinched series, the phase
/// is over and names that series' winner and loser.
pub proof fn lemma_clinched_final_is_over(c: PlayoffCarousel)
    requires
        deepest_round(c.rounds@, false) >= 0,
        first_decided(c.rounds@[deepest_round(c.rounds@, false)].series@) is Some,
    ensures
        phase_of(c).0,
        phase_of(c).1 == first_decided(c.rounds@[deepest_round(c.rounds@, false)].series@).unwrap().0,
        phase_of(c).2 == first_decided(c.rounds@[deepest_round(c.rounds@, false)].series@).unwrap().1,
{
}

/// A round full of undecided or unknown series never ends the season.
pub proof fn lemma_no_clinch_not_over(c: PlayoffCarousel)
    requires
        forall|r: int, i: int|
            0 <= r < c.rounds@.len() && 0 <= i < c.rounds@[r].series@.len() ==> decided_spec(
                #[trigger] c.rounds@[r].series@[i],
            ) is None,
    ensures
        !phase_of(c).0,
{
    let f = deepest_round(c.rounds@, false);
    if f >= 0 {
        lemma_deepest_in_range(c.rounds@, false);
        lemma_first_decided_none(c.rounds@[f].series@);
    }
}

proof fn lemma_deepest_in_range(rounds: Seq<Round>, known_only: bool)
    ensures
        -1 <= deepest_round(rounds, known_only) < rounds.len(),
    decreases rounds.len(),
{
    if rounds.len() > 0 {
        lemma_deepest_in_range(rounds.drop_last(), known_only);
    }
}

proof fn lemma_first_decided_none(ss: Seq<Series>)
    requires
        forall|i: int| 0 <= i < ss.len() ==> decided_spec(#[trigger] ss[i]) is None,
    ensures
        first_decided(ss) is None,
    decreases ss.len(),
{
    if ss.len() > 0 {
        assert(decided_spec(ss[0]) is None);
        let t = ss.drop_first();
        assert forall|i: int| 0 <= i < t.len() implies decided_spec(#[trigger] t[i]) is None by {
            assert(t[i] == ss[i + 1]);
        }
        lemma_first_decided_none(t);
    }
}

/// A series between two known teams is decided exactly when a seed has
/// the wins needed (the series' own number, 4 when it gives none); the
/// winner is then that seed (the top seed when both have them), the loser
/// the other seed, and the label the winner's wins, a dash and the
/// loser's wins.
pub proof fn lemma_decided_when_a_seed_clinches(s: Series)
    ensures
        ({
            let needed: int = if s.needed_to_win > 0 {
                s.needed_to_win as int
            } else {
                4
            };
            let top = s.top_seed;
            let bottom = s.bottom_seed;
            &&& (decided_spec(s) is Some) == (two_known_spec(s) && (top.wins >= needed
                || bottom.wins >= needed))
            &&& two_known_spec(s) && top.wins >= needed ==> decided_spec(s) == Some(
                (top.abbrev@, bottom.abbrev@, dec_int(top.wins as int) + seq!['-'] + dec_int(bottom.wins as int)),
            )
            &&& two_known_spec(s) && top.wins < needed && bottom.wins >= needed ==> decided_spec(s)
                == Some(
                (bottom.abbrev@, top.abbrev@, dec_int(bottom.wins as int) + seq!['-'] + dec_int(top.wins as int)),
            )
        }),
{
}

proof fn lemma_first_decided_found(ss: Seq<Series>, i: int)
    requires
        0 <= i < ss.len(),
        decided_spec(ss[i]) is Some,
    ensures
        first_decided(ss) is Some,
        exists|j: int| 0 <= j < ss.len() && first_decided(ss) == decided_spec(#[trigger] ss[j]),
    decreases i,
{
    if decided_spec(ss[0]) is Some {
        assert(first_decided(ss) == decided_spec(ss[0]));
    } else {
        let t = ss.drop_first();
        assert(t[i - 1] == ss[i]);
        lemma_first_decided_found(t, i - 1);
        let j = choose|j: int| 0 <= j < t.len() && first_decided(t) == decided_spec(#[trigger] t[j]);
        assert(t[j] == ss[j + 1]);
    }
}

/// When a series of the deepest round has two known teams and a seed with
/// the wins needed, the season is over, and its champion and runner-up
/// are the two seeds of a series of that round in which the champion has
/// the wins needed.
pub proof fn lemma_clinched_series_ends_season(c: PlayoffCarousel, i: int)
    requires
        deepest_round(c.rounds@, false) >= 0,
        0 <= i < c.rounds@[deepest_round(c.rounds@, false)].series@.len(),
        ({
            let s = c.rounds@[deepest_round(c.rounds@, false)].series@[i];
            let needed: int = if s.needed_to_win > 0 {
                s.needed_to_win as int
            } else {
                4
            };
            two_known_spec(s) && (s.top_seed.wins >= needed || s.bottom_seed.wins >= needed)
        }),
    ensures
        phase_of(c).0,
        exists|j: int|
            0 <= j < c.rounds@[deepest_round(c.rounds@, false)].series@.len() && {
                let s = #[trigger] c.rounds@[deepest_round(c.rounds@, false)].series@[j];
                let needed: int = if s.needed_to_win > 0 {
                    s.needed_to_win as int
                } else {
                    4
                };
                ||| phase_of(c).1 == s.top_seed.abbrev@ && phase_of(c).2 == s.bottom_seed.abbrev@
                    && s.top_seed.wins >= needed
                ||| phase_of(c).1 == s.bottom_seed.abbrev@ && phase_of(c).2 == s.top_seed.abbrev@
                    && s.bottom_seed.wins >= needed
            },
{
    let f = deepest_round(c.rounds@, false);
    let ss = c.rounds@[f].series@;
    lemma_decided_when_a_seed_clinches(ss[i]);
    lemma_first_decided_found(ss, i);
    let j = choose|j: int| 0 <= j < ss.len() && first_decided(ss) == decided_spec(#[trigger] ss[j]);
    lemma_decided_when_a_seed_clinches(ss[j]);
}

} // verus!
