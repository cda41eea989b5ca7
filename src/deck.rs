use vstd::prelude::*;
use crate::card::{Card, Rank, Suit, full_deck};
use crate::error::GameError;
use crate::random::shuffle_cards;

verus! {

/// The shoe as a sequence, drawn from its end, and its policy: a
/// reshuffling shoe puts each drawn card back and shuffles, so it never
/// runs out; a finite one loses the card.
pub struct DeckView {
    pub cards: Seq<Card>,
    pub reshuffle: bool,
}

/// A shoe of cards.
#[derive(Debug)]
pub struct Deck {
    cards: Vec<Card>,
    reshuffle: bool,
}

impl View for Deck {
    type V = DeckView;

    closed spec fn view(&self) -> DeckView {
        DeckView { cards: self.cards@, reshuffle: self.reshuffle }
    }
}

/// What a draw does to a shoe `d` that is not empty, given the card it
/// returned and the shoe after it.
pub open spec fn drawn(d: DeckView, card: Card, after: DeckView) -> bool {
    &&& card == d.cards.last()
    &&& after.reshuffle == d.reshuffle
    &&& if d.reshuffle {
        after.cards.to_multiset() == d.cards.to_multiset() && after.cards.len() == d.cards.len()
    } else {
        after.cards == d.cards.drop_last()
    }
}

impl Deck {
    /// One standard deck of 52 cards, shuffled.
    pub fn new(reshuffle: bool) -> (d: Deck)
        ensures
            d@.cards.to_multiset() == full_deck().to_multiset(),
            d@.reshuffle == reshuffle,
    {
        let mut cards: Vec<Card> = Vec::new();
        let mut k: usize = 0;
        while k < 52
            invariant
                k <= 52,
                cards@ == full_deck().subrange(0, k as int),
            decreases 52 - k,
        {
            let card = Card::new(Rank::at_position(k % 13), Suit::at_position(k / 13));
            cards.push(card);
            k = k + 1;
            assert(cards@ =~= full_deck().subrange(0, k as int));
        }
        assert(cards@ =~= full_deck());
        shuffle_cards(&mut cards);
        Deck { cards, reshuffle }
    }

    /// A shoe holding `cards` in this order, drawn from the end, unshuffled.
    pub fn from_cards(cards: Vec<Card>, reshuffle: bool) -> (d: Deck)
        ensures
            d@.cards == cards@,
            d@.reshuffle == reshuffle,
    {
        Deck { cards, reshuffle }
    }

    /// How many cards the shoe holds.
    pub fn remaining(&self) -> (r: usize)
        ensures
            r == self@.cards.len(),
    {
        self.cards.len()
    }

    pub fn is_reshuffling(&self) -> (r: bool)
        ensures
            r == self@.reshuffle,
    {
        self.reshuffle
    }

    /// Draws the card at the end of the shoe. A reshuffling shoe puts it
    /// back and shuffles; an empty shoe gives `EmptyShoe` and stays as it is.
    pub fn hit(&mut self) -> (r: Result<Card, GameError>)
        ensures
            old(self)@.cards.len() == 0 <==> r is Err,
            r is Err ==> r == Err::<Card, GameError>(GameError::EmptyShoe) && final(self)@ == old(
                self,
            )@,
            r is Ok ==> drawn(old(self)@, r->Ok_0, final(self)@),
    {
        let ghost before = self.cards@;
        match self.cards.pop() {
            None => Err(GameError::EmptyShoe),
            Some(card) => {
                if self.reshuffle {
                    self.cards.push(card);
                    assert(self.cards@ =~= before);
                    shuffle_cards(&mut self.cards);
                    proof {
                        vstd::seq_lib::to_multiset_len(before);
                        vstd::seq_lib::to_multiset_len(self.cards@);
                    }
                }
                Ok(card)
            },
        }
    }
}

impl Default for Deck {
    /// A shuffled reshuffling shoe of one deck.
    fn default() -> (d: Deck)
        ensures
            d@.cards.to_multiset() == full_deck().to_multiset(),
            d@.reshuffle,
    {
        Deck::new(true)
    }
}

} // verus!
