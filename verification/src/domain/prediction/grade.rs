//! Grades and roster buckets of a player's playoff output.
use vstd::prelude::*;

use crate::domain::prediction::series_projection::SeriesStateCode;

verus! {

/// Minimum playoff games played before a player gets a letter grade.
pub const MIN_GAMES_FOR_GRADE: u32 = 2;

/// Letter grade of a player's output against projection.
#[derive(Debug, Clone, Copy, PartialEq, Eq, Structural)]
pub enum Grade {
    A,
    B,
    C,
    D,
    F,
    NotEnoughData,
}

/// The pill a roster shows for a player.
#[derive(Debug, Clone, Copy, PartialEq, Eq, Structural)]
pub enum PlayerBucket {
    /// Too few playoff games to grade.
    TooEarly,
    /// Role strong, finishing slump.
    KeepFaith,
    /// Grade C, series alive, role stable.
    OnPace,
    /// Grade A or B.
    Outperforming,
    /// Moderate grade with a merely adequate role.
    FineButFragile,
    /// Bad grade plus a demoted role.
    NeedMiracle,
    /// Scratched, injured, or demoted off the depth chart.
    ProblemAsset,
    /// The NHL team is out.
    TeamEliminated,
}

/// What the roster pill shows, given the grade, the NHL series state and
/// three role signals read off the projection: `fully_active` (the player
/// is expected to dress every game), `demoted` (ice time well below his
/// earlier playoff games) and `role_intact` (ice time close to his earlier
/// level).
pub open spec fn bucket_spec(
    grade: Grade,
    series_state: SeriesStateCode,
    fully_active: bool,
    demoted: bool,
    role_intact: bool,
) -> PlayerBucket {
    if series_state == SeriesStateCode::Eliminated {
        PlayerBucket::TeamEliminated
    } else if !fully_active || demoted {
        PlayerBucket::ProblemAsset
    } else {
        match grade {
            Grade::NotEnoughData => PlayerBucket::TooEarly,
            Grade::A | Grade::B => PlayerBucket::Outperforming,
            Grade::D | Grade::F => if role_intact && (series_state == SeriesStateCode::FacingElim
                || series_state == SeriesStateCode::Trailing) {
                PlayerBucket::KeepFaith
            } else if grade == Grade::F {
                PlayerBucket::NeedMiracle
            } else {
                PlayerBucket::FineButFragile
            },
            Grade::C => PlayerBucket::OnPace,
        }
    }
}

/// Map the grade, the series state and the role signals to a pill.
/// Priority order matters: a player on an eliminated team is always
/// `TeamEliminated`, whatever his grade, and a scratch or a demoted
/// player is `ProblemAsset` whatever his series state, unless his team is
/// out.
pub fn bucket_from_signals(
    grade: Grade,
    series_state: SeriesStateCode,
    fully_active: bool,
    demoted: bool,
    role_intact: bool,
) -> (r: PlayerBucket)
    ensures
        r == bucket_spec(grade, series_state, fully_active, demoted, role_intact),
        series_state == SeriesStateCode::Eliminated ==> r == PlayerBucket::TeamEliminated,
        series_state != SeriesStateCode::Eliminated && (!fully_active || demoted) ==> r
            == PlayerBucket::ProblemAsset,
{
    if series_state == SeriesStateCode::Eliminated {
        return PlayerBucket::TeamEliminated;
    }
    if !fully_active || demoted {
        return PlayerBucket::ProblemAsset;
    }
    let in_trouble = series_state == SeriesStateCode::FacingElim || series_state
        == SeriesStateCode::Trailing;
    match grade {
        Grade::NotEnoughData => PlayerBucket::TooEarly,
        Grade::A | Grade::B => PlayerBucket::Outperforming,
        Grade::D | Grade::F => {
            if role_intact && in_trouble {
                PlayerBucket::KeepFaith
            } else if grade == Grade::F {
                PlayerBucket::NeedMiracle
            } else {
                PlayerBucket::FineButFragile
            }
        },
        Grade::C => PlayerBucket::OnPace,
    }
}

} // verus!
