//! Reading the game-center feed: the game state it reports and the
//! period label shown with a live score.
use vstd::prelude::*;

use crate::domain::models::nhl::GameState;
use crate::text::{dec_int, push_i64, push_str, str_eq};

verus! {

/// The state a game-center `gameState` value stands for. A warm-up
/// (`PRE`) is read as a preview here, and a missing value as unknown.
pub open spec fn game_center_state_spec(state: Option<Seq<char>>) -> GameState {
    match state {
        None => GameState::Unknown,
        Some(s) => if s == "LIVE"@ {
            GameState::Live
        } else if s == "FINAL"@ {
            GameState::Final
        } else if s == "OFF"@ {
            GameState::Off
        } else if s == "CRIT"@ {
            GameState::Crit
        } else if s == "PRE"@ {
            GameState::Preview
        } else if s == "FUT"@ {
            GameState::Fut
        } else {
            GameState::Unknown
        },
    }
}

/// The game state of a game-center `gameState` value (case-sensitive).
pub fn game_center_state(state: Option<&str>) -> (r: GameState)
    ensures
        r == game_center_state_spec(
            match state {
                Some(s) => Some(s@),
                None => None,
            },
        ),
{
    match state {
        None => GameState::Unknown,
        Some(s) => {
            if str_eq(s, "LIVE") {
                GameState::Live
            } else if str_eq(s, "FINAL") {
                GameState::Final
            } else if str_eq(s, "OFF") {
                GameState::Off
            } else if str_eq(s, "CRIT") {
                GameState::Crit
            } else if str_eq(s, "PRE") {
                GameState::Preview
            } else if str_eq(s, "FUT") {
                GameState::Fut
            } else {
                GameState::Unknown
            }
        },
    }
}

/// The words for a period type: `REG` is a "Period", `OT` stays "OT",
/// `SO` is a "Shootout", any other type is shown as is, a missing one as
/// nothing.
pub open spec fn period_type_text(period_type: Option<Seq<char>>) -> Seq<char> {
    match period_type {
        None => Seq::empty(),
        Some(t) => if t == "REG"@ {
            "Period"@
        } else if t == "OT"@ {
            "OT"@
        } else if t == "SO"@ {
            "Shootout"@
        } else {
            t
        },
    }
}

/// The label of the current period: its number (0 when missing), a
/// space, and the words for its type, e.g. `"2 Period"` or `"4 OT"`.
pub fn period_label(number: Option<i64>, period_type: Option<&str>) -> (r: String)
    ensures
        r@ == dec_int(
            match number {
                Some(n) => n as int,
                None => 0,
            },
        ) + " "@ + period_type_text(
            match period_type {
                Some(t) => Some(t@),
                None => None,
            },
        ),
{
    let n: i64 = match number {
        Some(n) => n,
        None => 0,
    };
    let words: &str = match period_type {
        None => "",
        Some(t) => {
            if str_eq(t, "REG") {
                "Period"
            } else if str_eq(t, "OT") {
                "OT"
            } else if str_eq(t, "SO") {
                "Shootout"
            } else {
                t
            }
        },
    };
    let mut s = String::new();
    push_i64(&mut s, n);
    push_str(&mut s, " ");
    push_str(&mut s, words);
    proof {
        assert(""@ =~= Seq::<char>::empty()) by {
            reveal_strlit("");
        }
    }
    s
}

} // verus!
