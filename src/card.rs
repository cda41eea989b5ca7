use vstd::prelude::*;

verus! {

/// The thirteen ranks of a standard deck.
#[derive(Clone, Copy, Debug, PartialEq, Eq, Structural, PartialOrd, Ord, Hash)]
pub enum Rank {
    Two,
    Three,
    Four,
    Five,
    Six,
    Seven,
    Eight,
    Nine,
    Ten,
    Jack,
    Queen,
    King,
    Ace,
}

/// The four suits of a standard deck.
#[derive(Clone, Copy, Debug, PartialEq, Eq, Structural, PartialOrd, Ord, Hash)]
pub enum Suit {
    Spades,
    Hearts,
    Clubs,
    Diamonds,
}

/// Base point value of a rank: face value for numerals, 10 for the tens and
/// faces, 1 for the ace (its soft 11 belongs to the hand, not the card).
pub open spec fn rank_value(r: Rank) -> nat {
    match r {
        Rank::Two => 2,
        Rank::Three => 3,
        Rank::Four => 4,
        Rank::Five => 5,
        Rank::Six => 6,
        Rank::Seven => 7,
        Rank::Eight => 8,
        Rank::Nine => 9,
        Rank::Ten | Rank::Jack | Rank::Queen | Rank::King => 10,
        Rank::Ace => 1,
    }
}

/// An immutable playing card; its value is determined by its rank.
#[derive(Clone, Copy, Debug, PartialEq, Eq, Structural, PartialOrd, Ord, Hash)]
pub struct Card {
    pub rank: Rank,
    pub suit: Suit,
}

/// The base value of a card.
pub open spec fn card_value(c: Card) -> nat {
    rank_value(c.rank)
}

pub open spec fn is_ace(c: Card) -> bool {
    c.rank == Rank::Ace
}

/// Rank at position `i` within one suit of a fresh deck, which runs
/// 2..9, Ten, Ace, Jack, Queen, King.
pub open spec fn deck_rank(i: int) -> Rank {
    if i == 0 {
        Rank::Two
    } else if i == 1 {
        Rank::Three
    } else if i == 2 {
        Rank::Four
    } else if i == 3 {
        Rank::Five
    } else if i == 4 {
        Rank::Six
    } else if i == 5 {
        Rank::Seven
    } else if i == 6 {
        Rank::Eight
    } else if i == 7 {
        Rank::Nine
    } else if i == 8 {
        Rank::Ten
    } else if i == 9 {
        Rank::Ace
    } else if i == 10 {
        Rank::Jack
    } else if i == 11 {
        Rank::Queen
    } else {
        Rank::King
    }
}

/// Suit of the `i`-th group of thirteen cards in a fresh deck.
pub open spec fn deck_suit(i: int) -> Suit {
    if i == 0 {
        Suit::Spades
    } else if i == 1 {
        Suit::Hearts
    } else if i == 2 {
        Suit::Clubs
    } else {
        Suit::Diamonds
    }
}

/// The 52 cards of one standard deck, suit by suit, before shuffling.
pub open spec fn full_deck() -> Seq<Card> {
    Seq::new(52, |k: int| Card { rank: deck_rank(k % 13), suit: deck_suit(k / 13) })
}

impl Rank {
    /// The rank at position `i` of a fresh deck's suit (see `deck_rank`).
    pub fn at_position(i: usize) -> (r: Rank)
        requires
            i < 13,
        ensures
            r == deck_rank(i as int),
    {
        match i {
            0 => Rank::Two,
            1 => Rank::Three,
            2 => Rank::Four,
            3 => Rank::Five,
            4 => Rank::Six,
            5 => Rank::Seven,
            6 => Rank::Eight,
            7 => Rank::Nine,
            8 => Rank::Ten,
            9 => Rank::Ace,
            10 => Rank::Jack,
            11 => Rank::Queen,
            _ => Rank::King,
        }
    }
}

impl Suit {
    /// The suit of group `i` of a fresh deck (see `deck_suit`).
    pub fn at_position(i: usize) -> (s: Suit)
        requires
            i < 4,
        ensures
            s == deck_suit(i as int),
    {
        match i {
            0 => Suit::Spades,
            1 => Suit::Hearts,
            2 => Suit::Clubs,
            _ => Suit::Diamonds,
        }
    }
}

impl Card {
    pub fn new(rank: Rank, suit: Suit) -> (c: Card)
        ensures
            c.rank == rank,
            c.suit == suit,
    {
        Card { rank, suit }
    }

    /// The card's base value: 2..9 for numerals, 10 for Ten/Jack/Queen/King, 1 for an Ace.
    pub fn value(&self) -> (v: u8)
        ensures
            v as nat == card_value(*self),
            1 <= v <= 10,
    {
        match self.rank {
            Rank::Two => 2,
            Rank::Three => 3,
            Rank::Four => 4,
            Rank::Five => 5,
            Rank::Six => 6,
            Rank::Seven => 7,
            Rank::Eight => 8,
            Rank::Nine => 9,
            Rank::Ten | Rank::Jack | Rank::Queen | Rank::King => 10,
            Rank::Ace => 1,
        }
    }

    pub fn is_ace(&self) -> (b: bool)
        ensures
            b == is_ace(*self),
    {
        match self.rank {
            Rank::Ace => true,
            _ => false,
        }
    }
}

} // verus!
