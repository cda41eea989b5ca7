use vstd::prelude::*;
use crate::card::{Card, Rank, card_value, is_ace};

verus! {

/// Sum of the base values of a sequence of cards.
pub open spec fn cards_sum(s: Seq<Card>) -> nat
    decreases s.len(),
{
    if s.len() == 0 {
        0
    } else {
        cards_sum(s.drop_last()) + card_value(s.last())
    }
}

pub open spec fn has_ace(s: Seq<Card>) -> bool {
    exists|i: int| 0 <= i < s.len() && is_ace(#[trigger] s[i])
}

/// The score of a sequence of cards: the sum of base values, plus 10 once
/// when it holds an ace and the raised total does not pass 21.
pub open spec fn hand_value(s: Seq<Card>) -> nat {
    if has_ace(s) && cards_sum(s) + 10 <= 21 {
        cards_sum(s) + 10
    } else {
        cards_sum(s)
    }
}

/// Cards in ascending order of base value.
pub open spec fn sorted_by_value(s: Seq<Card>) -> bool {
    forall|i: int, j: int|
        0 <= i < j < s.len() ==> card_value(#[trigger] s[i]) <= card_value(#[trigger] s[j])
}

/// `t` is `s` with `c` placed after every card of value at most its own and
/// before every card of greater value (a stable insertion by value).
pub open spec fn inserted_by_value(s: Seq<Card>, t: Seq<Card>, c: Card) -> bool {
    exists|p: int|
        0 <= p <= s.len() && t == s.insert(p, c) && (forall|k: int|
            0 <= k < p ==> card_value(#[trigger] s[k]) <= card_value(c)) && (forall|k: int|
            p <= k < s.len() ==> card_value(#[trigger] s[k]) > card_value(c))
}

/// Ranks that count towards a blackjack.
pub open spec fn is_blackjack_rank(r: Rank) -> bool {
    r == Rank::Ace || r == Rank::Jack || r == Rank::Queen || r == Rank::King
}

/// What a hand holds: its main cards and the cards of its split hand.
pub struct HandView {
    pub cards: Seq<Card>,
    pub split: Seq<Card>,
}

/// A hand may be split when it is an unsplit pair.
pub open spec fn splittable(h: HandView) -> bool {
    h.cards.len() == 2 && h.cards[0].rank == h.cards[1].rank && h.split.len() == 0
}

/// The hand after a split: the second card moves to the split hand.
pub open spec fn after_split(h: HandView) -> HandView {
    HandView { cards: seq![h.cards[0]], split: h.split.push(h.cards[1]) }
}

/// Two cards, all of them aces or faces, scoring 21 on the main or the split hand.
pub open spec fn hand_is_blackjack(h: HandView) -> bool {
    &&& h.cards.len() == 2
    &&& (hand_value(h.cards) == 21 || hand_value(h.split) == 21)
    &&& forall|i: int| 0 <= i < h.cards.len() ==> is_blackjack_rank(#[trigger] h.cards[i].rank)
}

/// The totals of the main hand and of the split hand (0 when there is none).
#[derive(Clone, Copy, Debug, PartialEq, Eq, Structural)]
pub struct Values {
    pub main: u8,
    pub split: u8,
}

/// A player's or the dealer's cards, with an optional split hand. Each
/// sequence is kept sorted by value for display; the ace flags are
/// maintained as cards arrive.
#[derive(Clone, Debug)]
pub struct Hand {
    cards: Vec<Card>,
    split: Vec<Card>,
    ace_cards: bool,
    ace_split: bool,
}

impl View for Hand {
    type V = HandView;

    closed spec fn view(&self) -> HandView {
        HandView { cards: self.cards@, split: self.split@ }
    }
}

/// Inserting a card anywhere adds its value to the sum.
proof fn lemma_sum_insert(s: Seq<Card>, p: int, c: Card)
    requires
        0 <= p <= s.len(),
    ensures
        cards_sum(s.insert(p, c)) == cards_sum(s) + card_value(c),
    decreases s.len(),
{
    if p == s.len() {
        assert(s.insert(p, c).drop_last() =~= s);
    } else {
        assert(s.insert(p, c).drop_last() =~= s.drop_last().insert(p, c));
        lemma_sum_insert(s.drop_last(), p, c);
    }
}

/// A prefix sums to no more than the whole.
proof fn lemma_prefix_sum_le(s: Seq<Card>, i: int)
    requires
        0 <= i <= s.len(),
    ensures
        cards_sum(s.subrange(0, i)) <= cards_sum(s),
    decreases s.len(),
{
    if i == s.len() {
        assert(s.subrange(0, i) =~= s);
    } else {
        assert(s.drop_last().subrange(0, i) =~= s.subrange(0, i));
        lemma_prefix_sum_le(s.drop_last(), i);
    }
}


/// Inserting a card by value adds its value to the sum, keeps the order,
/// and brings in an ace exactly when the card is one.
pub(crate) proof fn lemma_inserted_by_value(s: Seq<Card>, t: Seq<Card>, c: Card)
    requires
        inserted_by_value(s, t, c),
    ensures
        t.len() == s.len() + 1,
        cards_sum(t) == cards_sum(s) + card_value(c),
        has_ace(t) == (has_ace(s) || is_ace(c)),
        sorted_by_value(s) ==> sorted_by_value(t),
{
    let p = choose|p: int|
        0 <= p <= s.len() && t == s.insert(p, c) && (forall|k: int|
            0 <= k < p ==> card_value(#[trigger] s[k]) <= card_value(c)) && (forall|k: int|
            p <= k < s.len() ==> card_value(#[trigger] s[k]) > card_value(c));
    s.insert_ensures(p, c);
    lemma_sum_insert(s, p, c);
    if has_ace(s) {
        let i = choose|i: int| 0 <= i < s.len() && is_ace(#[trigger] s[i]);
        if i < p {
            assert(is_ace(t[i]));
        } else {
            assert(is_ace(t[i + 1]));
        }
    }
    if is_ace(c) {
        assert(is_ace(t[p]));
    }
    if has_ace(t) {
        let i = choose|i: int| 0 <= i < t.len() && is_ace(#[trigger] t[i]);
        if i < p {
            assert(is_ace(s[i]));
        } else if i > p {
            assert(is_ace(s[i - 1]));
        }
    }
    assert forall|i: int, j: int|
        sorted_by_value(s) && 0 <= i < j < t.len() implies card_value(#[trigger] t[i])
        <= card_value(#[trigger] t[j]) by {
        if j < p {
        } else if j == p {
        } else if i < p {
            assert(t[j] == s[j - 1]);
        } else if i == p {
            assert(t[j] == s[j - 1]);
        } else {
            assert(t[i] == s[i - 1]);
            assert(t[j] == s[j - 1]);
        }
    }
}

/// Places `card` into the sorted `v` after every card of equal or lower value.
fn insert_by_value(v: &mut Vec<Card>, card: Card)
    requires
        sorted_by_value(old(v)@),
    ensures
        inserted_by_value(old(v)@, final(v)@, card),
{
    let value = card.value();
    let mut p: usize = 0;
    while p < v.len()
        invariant
            p <= v@.len(),
            value as nat == card_value(card),
            sorted_by_value(v@),
            forall|k: int| 0 <= k < p ==> card_value(#[trigger] v@[k]) <= card_value(card),
        ensures
            p <= v@.len(),
            forall|k: int| 0 <= k < p ==> card_value(#[trigger] v@[k]) <= card_value(card),
            p < v@.len() ==> card_value(v@[p as int]) > card_value(card),
        decreases v@.len() - p,
    {
        if v[p].value() > value {
            break;
        }
        p = p + 1;
    }
    assert forall|k: int| p <= k < v@.len() implies card_value(#[trigger] v@[k]) > card_value(
        card,
    ) by {
        assert(card_value(v@[p as int]) <= card_value(v@[k]));
    }
    let ghost before = v@;
    v.insert(p, card);
    assert(v@ == before.insert(p as int, card));
}

/// Sum of the base values of `v`.
fn sum_values(v: &Vec<Card>) -> (r: u8)
    requires
        cards_sum(v@) <= 255,
    ensures
        r as nat == cards_sum(v@),
{
    let mut total: u8 = 0;
    let mut i: usize = 0;
    while i < v.len()
        invariant
            i <= v@.len(),
            cards_sum(v@) <= 255,
            total as nat == cards_sum(v@.subrange(0, i as int)),
        decreases v@.len() - i,
    {
        proof {
            assert(v@.subrange(0, i + 1).drop_last() =~= v@.subrange(0, i as int));
            lemma_prefix_sum_le(v@, i + 1);
        }
        total = total + v[i].value();
        i = i + 1;
    }
    assert(v@.subrange(0, i as int) =~= v@);
    total
}

/// The score of `v` given whether it holds an ace.
fn score(v: &Vec<Card>, ace: bool) -> (r: u8)
    requires
        cards_sum(v@) <= 255,
        ace == has_ace(v@),
    ensures
        r as nat == hand_value(v@),
{
    let sum = sum_values(v);
    if ace && sum <= 11 {
        sum + 10
    } else {
        sum
    }
}

/// Number of aces in a sequence of cards.
pub open spec fn ace_count(s: Seq<Card>) -> nat
    decreases s.len(),
{
    if s.len() == 0 {
        0
    } else {
        ace_count(s.drop_last()) + if is_ace(s.last()) {
            1nat
        } else {
            0nat
        }
    }
}

/// Sum of the base values of the cards that are not aces.
pub open spec fn non_ace_sum(s: Seq<Card>) -> nat
    decreases s.len(),
{
    if s.len() == 0 {
        0
    } else {
        non_ace_sum(s.drop_last()) + if is_ace(s.last()) {
            0
        } else {
            card_value(s.last())
        }
    }
}

proof fn lemma_sum_splits_on_aces(s: Seq<Card>)
    ensures
        cards_sum(s) == non_ace_sum(s) + ace_count(s),
        has_ace(s) == (ace_count(s) > 0),
    decreases s.len(),
{
    if s.len() > 0 {
        let t = s.drop_last();
        lemma_sum_splits_on_aces(t);
        if has_ace(t) {
            let i = choose|i: int| 0 <= i < t.len() && is_ace(#[trigger] t[i]);
            assert(is_ace(s[i]));
        }
        if is_ace(s.last()) {
            assert(is_ace(s[s.len() - 1]));
        }
        if has_ace(s) {
            let i = choose|i: int| 0 <= i < s.len() && is_ace(#[trigger] s[i]);
            if i < s.len() - 1 {
                assert(is_ace(t[i]));
            }
        }
    }
}

/// Without an ace, a hand scores exactly the sum of its cards' base values.
pub proof fn lemma_value_without_ace(s: Seq<Card>)
    requires
        !has_ace(s),
    ensures
        hand_value(s) == cards_sum(s),
{
}

/// With exactly one ace and at most 10 from the other cards, the ace counts
/// as 11.
pub proof fn lemma_value_single_soft_ace(s: Seq<Card>)
    requires
        ace_count(s) == 1,
        non_ace_sum(s) <= 10,
    ensures
        hand_value(s) == non_ace_sum(s) + 11,
{
    lemma_sum_splits_on_aces(s);
}

/// After a successful split the main hand holds one card, so a second split
/// is refused.
pub proof fn lemma_split_once(h: HandView)
    requires
        splittable(h),
    ensures
        !splittable(after_split(h)),
{
}

impl Hand {
    /// Both sequences sorted by value, each ace flag telling whether its
    /// sequence holds an ace, and both sums within a byte.
    pub closed spec fn wf(&self) -> bool {
        &&& sorted_by_value(self.cards@)
        &&& sorted_by_value(self.split@)
        &&& self.ace_cards == has_ace(self.cards@)
        &&& self.ace_split == has_ace(self.split@)
        &&& cards_sum(self.cards@) <= 255
        &&& cards_sum(self.split@) <= 255
    }

    /// A well-formed hand keeps both sequences sorted by value.
    pub proof fn lemma_wf_sorted(&self)
        requires
            self.wf(),
        ensures
            sorted_by_value(self@.cards),
            sorted_by_value(self@.split),
    {
    }

    /// An empty hand.
    pub fn new() -> (h: Hand)
        ensures
            h.wf(),
            h@.cards.len() == 0,
            h@.split.len() == 0,
    {
        Hand { cards: Vec::new(), split: Vec::new(), ace_cards: false, ace_split: false }
    }

    /// Whether the main hand holds an ace.
    pub fn holds_ace(&self) -> (r: bool)
        requires
            self.wf(),
        ensures
            r == has_ace(self@.cards),
    {
        self.ace_cards
    }

    /// The main cards, in ascending order of value.
    pub fn cards(&self) -> (r: &Vec<Card>)
        ensures
            r@ == self@.cards,
    {
        &self.cards
    }

    /// The cards of the split hand, in ascending order of value.
    pub fn split_cards(&self) -> (r: &Vec<Card>)
        ensures
            r@ == self@.split,
    {
        &self.split
    }

    /// Adds `card` to the split hand when `split` holds, else to the main
    /// hand, keeping that sequence sorted by value (equal values keep their
    /// arrival order) and its ace flag up to date.
    pub fn add_card(&mut self, card: Card, split: bool)
        requires
            old(self).wf(),
            cards_sum(if split { old(self)@.split } else { old(self)@.cards }) + card_value(card)
                <= 255,
        ensures
            final(self).wf(),
            sorted_by_value(final(self)@.cards),
            sorted_by_value(final(self)@.split),
            split ==> final(self)@.cards == old(self)@.cards && inserted_by_value(
                old(self)@.split,
                final(self)@.split,
                card,
            ),
            !split ==> final(self)@.split == old(self)@.split && inserted_by_value(
                old(self)@.cards,
                final(self)@.cards,
                card,
            ),
    {
        if split {
            let ghost before = self.split@;
            self.ace_split = self.ace_split || card.is_ace();
            insert_by_value(&mut self.split, card);
            proof {
                lemma_inserted_by_value(before, self.split@, card);
            }
        } else {
            let ghost before = self.cards@;
            self.ace_cards = self.ace_cards || card.is_ace();
            insert_by_value(&mut self.cards, card);
            proof {
                lemma_inserted_by_value(before, self.cards@, card);
            }
        }
    }

    /// Whether the hand is an unsplit pair.
    pub fn can_split(&self) -> (r: bool)
        ensures
            r == splittable(self@),
    {
        self.cards.len() == 2 && self.cards[0].rank == self.cards[1].rank && self.split.len() == 0
    }

    /// Splits an unsplit pair, moving its second card to the split hand.
    /// Returns false, changing nothing, on any other hand.
    pub fn make_split(&mut self) -> (r: bool)
        requires
            old(self).wf(),
        ensures
            final(self).wf(),
            r == splittable(old(self)@),
            r ==> final(self)@ == after_split(old(self)@),
            !r ==> final(self)@ == old(self)@,
    {
        if !self.can_split() {
            return false;
        }
        let ghost h = self@;
        let moved = self.cards.pop().unwrap();
        self.ace_split = self.ace_split || moved.is_ace();
        self.split.push(moved);
        proof {
            assert(self.cards@ =~= seq![h.cards[0]]);
            assert(self.split@ =~= seq![h.cards[1]]);
            assert(h.cards =~= seq![h.cards[0]].push(h.cards[1]));
            assert(seq![h.cards[0]].drop_last() =~= Seq::<Card>::empty());
            assert(h.cards.drop_last() =~= seq![h.cards[0]]);
            assert(self.split@.drop_last() =~= Seq::<Card>::empty());
            assert(cards_sum(Seq::<Card>::empty()) == 0);
            assert(cards_sum(self.cards@) == card_value(h.cards[0]));
            assert(cards_sum(self.split@) == card_value(h.cards[1]));
            if has_ace(h.cards) {
                let i = choose|i: int| 0 <= i < h.cards.len() && is_ace(#[trigger] h.cards[i]);
                assert(is_ace(self.cards@[0]));
            }
            if is_ace(moved) {
                assert(is_ace(self.split@[0]));
            }
            if has_ace(self.cards@) {
                assert(is_ace(h.cards[0]));
            }
        }
        true
    }

    /// The totals of the main and of the split hand; each adds 10 once for
    /// an ace when that keeps it at most 21. An empty sequence scores 0.
    pub fn get_value(&self) -> (r: Values)
        requires
            self.wf(),
        ensures
            r.main as nat == hand_value(self@.cards),
            r.split as nat == hand_value(self@.split),
    {
        Values { main: score(&self.cards, self.ace_cards), split: score(&self.split, self.ace_split) }
    }

    /// Empties both sequences and resets both ace flags.
    pub fn clear_hand(&mut self)
        ensures
            final(self).wf(),
            final(self)@.cards.len() == 0,
            final(self)@.split.len() == 0,
    {
        self.cards.clear();
        self.split.clear();
        self.ace_cards = false;
        self.ace_split = false;
    }

    /// Two cards, each an ace, jack, queen or king, with 21 on the main or
    /// the split hand. A ten with an ace does not count.
    pub fn is_blackjack(&self) -> (r: bool)
        requires
            self.wf(),
        ensures
            r == hand_is_blackjack(self@),
    {
        let values = self.get_value();
        let mut res: bool = values.main == 21 || values.split == 21;
        let mut i: usize = 0;
        while i < self.cards.len()
            invariant
                i <= self.cards@.len(),
                res == ((hand_value(self@.cards) == 21 || hand_value(self@.split) == 21) && forall|
                    k: int,
                | 0 <= k < i ==> is_blackjack_rank(#[trigger] self.cards@[k].rank)),
            decreases self.cards@.len() - i,
        {
            let face = match self.cards[i].rank {
                Rank::Ace | Rank::Jack | Rank::Queen | Rank::King => true,
                _ => false,
            };
            res = res && face;
            i = i + 1;
        }
        self.cards.len() == 2 && res
    }
}

impl Default for Hand {
    fn default() -> (h: Hand)
        ensures
            h.wf(),
            h@.cards.len() == 0,
            h@.split.len() == 0,
    {
        Hand::new()
    }
}

} // verus!
