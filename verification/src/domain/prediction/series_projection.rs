//! Best-of-seven series state from one team's point of view.
use vstd::prelude::*;

use crate::text::{dec_nat, push_char, push_str, push_u64};

verus! {

/// Coarse series leverage bucket, from eliminated to advanced.
#[derive(Debug, Clone, Copy, PartialEq, Eq, Structural)]
pub enum SeriesStateCode {
    /// The opponent already has four wins.
    Eliminated,
    /// Down 0-3 or 1-3: one loss from elimination.
    FacingElim,
    /// Trailing but not on the brink (0-1, 0-2, 1-2, 2-3).
    Trailing,
    /// Tied series (0-0, 1-1, 2-2, 3-3).
    Tied,
    /// Leading without being one win away (1-0, 2-0, 2-1, 3-2).
    Leading,
    /// One win from advancing (3-0, 3-1).
    AboutToAdvance,
    /// This team already has four wins.
    Advanced,
}

/// The classification of a series in which this team has `wins` and the
/// opponent `opp_wins`.
pub open spec fn classify_spec(wins: nat, opp_wins: nat) -> SeriesStateCode {
    if wins >= 4 {
        SeriesStateCode::Advanced
    } else if opp_wins >= 4 {
        SeriesStateCode::Eliminated
    } else if wins == 3 && opp_wins < 2 {
        SeriesStateCode::AboutToAdvance
    } else if opp_wins == 3 && wins < 2 {
        SeriesStateCode::FacingElim
    } else if wins == opp_wins {
        SeriesStateCode::Tied
    } else if wins > opp_wins {
        SeriesStateCode::Leading
    } else {
        SeriesStateCode::Trailing
    }
}

/// The same state seen from the opponent's side.
pub open spec fn mirror(c: SeriesStateCode) -> SeriesStateCode {
    match c {
        SeriesStateCode::Eliminated => SeriesStateCode::Advanced,
        SeriesStateCode::FacingElim => SeriesStateCode::AboutToAdvance,
        SeriesStateCode::Trailing => SeriesStateCode::Leading,
        SeriesStateCode::Tied => SeriesStateCode::Tied,
        SeriesStateCode::Leading => SeriesStateCode::Trailing,
        SeriesStateCode::AboutToAdvance => SeriesStateCode::FacingElim,
        SeriesStateCode::Advanced => SeriesStateCode::Eliminated,
    }
}

/// The comma and words that follow the score in a state's label.
pub open spec fn label_words(c: SeriesStateCode) -> Seq<char> {
    match c {
        SeriesStateCode::Advanced => ", advanced"@,
        SeriesStateCode::Eliminated => ", eliminated"@,
        SeriesStateCode::AboutToAdvance => ", closing in"@,
        SeriesStateCode::FacingElim => ", facing elim"@,
        SeriesStateCode::Leading => ", leading"@,
        SeriesStateCode::Trailing => ", trailing"@,
        SeriesStateCode::Tied => ", tied"@,
    }
}

/// Games left at most in a best-of-seven from this score.
pub open spec fn games_remaining_spec(wins: nat, opp_wins: nat) -> nat {
    if wins >= 4 || opp_wins >= 4 {
        0
    } else {
        (7 - wins - opp_wins) as nat
    }
}

impl SeriesStateCode {
    /// Short headline for a cell: `"2-1, leading"`, `"1-3, facing elim"`, …
    pub fn label(&self, wins: u32, opp_wins: u32) -> (r: String)
        ensures
            r@ == dec_nat(wins as nat) + seq!['-'] + dec_nat(opp_wins as nat) + label_words(*self),
    {
        let mut s = String::new();
        push_u64(&mut s, wins as u64);
        push_char(&mut s, '-');
        push_u64(&mut s, opp_wins as u64);
        match self {
            SeriesStateCode::Advanced => push_str(&mut s, ", advanced"),
            SeriesStateCode::Eliminated => push_str(&mut s, ", eliminated"),
            SeriesStateCode::AboutToAdvance => push_str(&mut s, ", closing in"),
            SeriesStateCode::FacingElim => push_str(&mut s, ", facing elim"),
            SeriesStateCode::Leading => push_str(&mut s, ", leading"),
            SeriesStateCode::Trailing => push_str(&mut s, ", trailing"),
            SeriesStateCode::Tied => push_str(&mut s, ", tied"),
        }
        assert(s@ =~= dec_nat(wins as nat) + seq!['-'] + dec_nat(opp_wins as nat) + label_words(
            *self,
        ));
        s
    }
}

/// Classifies a best-of-seven series state from this team's perspective.
pub fn classify(wins: u32, opp_wins: u32) -> (r: SeriesStateCode)
    ensures
        r == classify_spec(wins as nat, opp_wins as nat),
{
    if wins >= 4 {
        return SeriesStateCode::Advanced;
    }
    if opp_wins >= 4 {
        return SeriesStateCode::Eliminated;
    }
    if wins == 3 && opp_wins < 2 {
        return SeriesStateCode::AboutToAdvance;
    }
    if opp_wins == 3 && wins < 2 {
        return SeriesStateCode::FacingElim;
    }
    if wins == opp_wins {
        SeriesStateCode::Tied
    } else if wins > opp_wins {
        SeriesStateCode::Leading
    } else {
        SeriesStateCode::Trailing
    }
}

/// Games remaining in a best-of-seven series from the current state: the
/// most that can still be played (the series may end sooner).
pub fn games_remaining(wins: u32, opp_wins: u32) -> (r: u32)
    ensures
        r == games_remaining_spec(wins as nat, opp_wins as nat),
{
    if wins >= 4 || opp_wins >= 4 {
        return 0;
    }
    7u32 - wins - opp_wins
}

/// Swapping the two sides swaps the classification (Advanced and
/// Eliminated, About-to-advance and Facing-elimination, Leading and
/// Trailing; Tied stays Tied), unless both sides claim four wins.
pub proof fn lemma_classify_mirror(wins: nat, opp_wins: nat)
    requires
        !(wins >= 4 && opp_wins >= 4),
    ensures
        classify_spec(opp_wins, wins) == mirror(classify_spec(wins, opp_wins)),
{
}

/// The games left do not depend on which side is asking.
pub proof fn lemma_games_remaining_symmetric(wins: nat, opp_wins: nat)
    ensures
        games_remaining_spec(wins, opp_wins) == games_remaining_spec(opp_wins, wins),
{
}

/// No game is left exactly when the series is decided, i.e. when the
/// classification is Advanced or Eliminated; a live series has between one
/// and seven games left, and never more than it has lost so far from seven.
pub proof fn lemma_games_remaining_decided(wins: nat, opp_wins: nat)
    ensures
        (games_remaining_spec(wins, opp_wins) == 0) == (classify_spec(wins, opp_wins)
            == SeriesStateCode::Advanced || classify_spec(wins, opp_wins)
            == SeriesStateCode::Eliminated),
        games_remaining_spec(wins, opp_wins) <= 7,
        games_remaining_spec(wins, opp_wins) + wins + opp_wins <= 7 || wins >= 4 || opp_wins >= 4,
{
}

} // verus!
