use vstd::prelude::*;
use crate::card::Rank;

verus! {

/// The advisor's answer. `NoEntry` means no table entry applies and is never
/// acted upon.
#[derive(Clone, Copy, Debug, PartialEq, Eq, Structural)]
pub enum Decision {
    Stand,
    Hit,
    Double,
    Split,
    NoEntry,
}

/// Hard totals: the player's total `t` against the dealer's up-card.
pub open spec fn hard_decision(up: Rank, t: nat) -> Decision {
    match up {
        Rank::Two => if t >= 13 {
            Decision::Stand
        } else if t == 12 || t <= 9 {
            Decision::Hit
        } else {
            Decision::Double
        },
        Rank::Three => if t >= 13 {
            Decision::Stand
        } else if t == 12 || t <= 8 {
            Decision::Hit
        } else {
            Decision::Double
        },
        Rank::Four | Rank::Five | Rank::Six => if t >= 12 {
            Decision::Stand
        } else if t <= 8 {
            Decision::Hit
        } else {
            Decision::Double
        },
        Rank::Seven | Rank::Eight | Rank::Nine => if t >= 17 {
            Decision::Stand
        } else if t == 10 || t == 11 {
            Decision::Double
        } else {
            Decision::Hit
        },
        _ => if t >= 17 {
            Decision::Stand
        } else if t == 11 {
            Decision::Double
        } else {
            Decision::Hit
        },
    }
}

/// Soft totals: the value `v` of the card beside the ace against the
/// dealer's up-card.
pub open spec fn soft_decision(up: Rank, v: nat) -> Decision {
    match up {
        Rank::Two => if v > 7 {
            Decision::Stand
        } else if v == 7 {
            Decision::Double
        } else {
            Decision::Hit
        },
        Rank::Three => if v > 7 {
            Decision::Stand
        } else if v > 5 {
            Decision::Double
        } else {
            Decision::Hit
        },
        Rank::Four => if v > 7 {
            Decision::Stand
        } else if v > 3 {
            Decision::Double
        } else {
            Decision::Hit
        },
        Rank::Five => if v > 7 {
            Decision::Stand
        } else {
            Decision::Hit
        },
        Rank::Six => if v == 9 {
            Decision::Stand
        } else {
            Decision::Double
        },
        Rank::Seven | Rank::Eight => if v > 6 {
            Decision::Stand
        } else {
            Decision::Hit
        },
        _ => if v > 7 {
            Decision::Stand
        } else {
            Decision::Hit
        },
    }
}

/// Pairs: the value `v` of the paired card against the dealer's up-card.
pub open spec fn pair_decision(up: Rank, v: nat) -> Decision {
    match up {
        Rank::Two | Rank::Three | Rank::Four => if v == 10 {
            Decision::Stand
        } else if v == 5 {
            Decision::Double
        } else if v == 4 {
            Decision::Hit
        } else {
            Decision::Split
        },
        Rank::Five | Rank::Six => if v == 10 {
            Decision::Stand
        } else if v == 5 {
            Decision::Double
        } else {
            Decision::Split
        },
        Rank::Seven => if v == 10 || v == 9 {
            Decision::Stand
        } else if v == 6 || v == 4 {
            Decision::Hit
        } else if v == 5 {
            Decision::Double
        } else {
            Decision::Split
        },
        Rank::Eight | Rank::Nine => if v == 10 {
            Decision::Stand
        } else if v == 5 {
            Decision::Double
        } else if v == 7 || v == 6 || v == 4 || v == 3 || v == 2 {
            Decision::Hit
        } else {
            Decision::Split
        },
        _ => if v == 10 || v == 9 {
            Decision::Stand
        } else if v == 1 || v == 8 {
            Decision::Split
        } else {
            Decision::Hit
        },
    }
}

/// The hard-totals table as code.
pub fn hard_table(up: Rank, t: u8) -> (d: Decision)
    ensures
        d == hard_decision(up, t as nat),
{
    match up {
        Rank::Two => if t >= 13 {
            Decision::Stand
        } else if t == 12 || t <= 9 {
            Decision::Hit
        } else {
            Decision::Double
        },
        Rank::Three => if t >= 13 {
            Decision::Stand
        } else if t == 12 || t <= 8 {
            Decision::Hit
        } else {
            Decision::Double
        },
        Rank::Four | Rank::Five | Rank::Six => if t >= 12 {
            Decision::Stand
        } else if t <= 8 {
            Decision::Hit
        } else {
            Decision::Double
        },
        Rank::Seven | Rank::Eight | Rank::Nine => if t >= 17 {
            Decision::Stand
        } else if t == 10 || t == 11 {
            Decision::Double
        } else {
            Decision::Hit
        },
        _ => if t >= 17 {
            Decision::Stand
        } else if t == 11 {
            Decision::Double
        } else {
            Decision::Hit
        },
    }
}

/// The soft-totals table as code.
pub fn soft_table(up: Rank, v: u8) -> (d: Decision)
    ensures
        d == soft_decision(up, v as nat),
{
    match up {
        Rank::Two => if v > 7 {
            Decision::Stand
        } else if v == 7 {
            Decision::Double
        } else {
            Decision::Hit
        },
        Rank::Three => if v > 7 {
            Decision::Stand
        } else if v > 5 {
            Decision::Double
        } else {
            Decision::Hit
        },
        Rank::Four => if v > 7 {
            Decision::Stand
        } else if v > 3 {
            Decision::Double
        } else {
            Decision::Hit
        },
        Rank::Five => if v > 7 {
            Decision::Stand
        } else {
            Decision::Hit
        },
        Rank::Six => if v == 9 {
            Decision::Stand
        } else {
            Decision::Double
        },
        Rank::Seven | Rank::Eight => if v > 6 {
            Decision::Stand
        } else {
            Decision::Hit
        },
        _ => if v > 7 {
            Decision::Stand
        } else {
            Decision::Hit
        },
    }
}

/// The pairs table as code.
pub fn pair_table(up: Rank, v: u8) -> (d: Decision)
    ensures
        d == pair_decision(up, v as nat),
{
    match up {
        Rank::Two | Rank::Three | Rank::Four => match v {
            10 => Decision::Stand,
            5 => Decision::Double,
            4 => Decision::Hit,
            _ => Decision::Split,
        },
        Rank::Five | Rank::Six => match v {
            10 => Decision::Stand,
            5 => Decision::Double,
            _ => Decision::Split,
        },
        Rank::Seven => match v {
            10 | 9 => Decision::Stand,
            6 | 4 => Decision::Hit,
            5 => Decision::Double,
            _ => Decision::Split,
        },
        Rank::Eight | Rank::Nine => match v {
            10 => Decision::Stand,
            5 => Decision::Double,
            7 | 6 | 4 | 3 | 2 => Decision::Hit,
            _ => Decision::Split,
        },
        _ => match v {
            10 | 9 => Decision::Stand,
            1 | 8 => Decision::Split,
            _ => Decision::Hit,
        },
    }
}

} // verus!
