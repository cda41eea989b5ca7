use vstd::prelude::*;
use crate::card::{Card, Rank, card_value, is_ace};
use crate::deck::{Deck, DeckView, drawn};
use crate::error::GameError;
use crate::hand::{
    Hand,
    HandView,
    Values,
    cards_sum,
    has_ace,
    hand_value,
    hand_is_blackjack,
    inserted_by_value,
    splittable,
    after_split,
};
use crate::money::{Money, MoneyView, placed, doubled, credited, max_amount};
use crate::strategy::{
    Decision,
    hard_decision,
    soft_decision,
    pair_decision,
    hard_table,
    soft_table,
    pair_table,
};

verus! {

/// How a settled hand ended for the player.
#[derive(Clone, Copy, Debug, PartialEq, Eq, Structural)]
pub enum GameStatus {
    Win,
    Tie,
    Lose,
}

/// Resolution of one hand worth `pv` against a dealer worth `dv`: a win when
/// the player has not bust and beats the dealer or the dealer busts, or when
/// the blackjack override holds; else a tie when the dealer busts or the
/// totals are equal; else a loss.
pub open spec fn outcome(pv: nat, dv: nat, blackjack_override: bool) -> GameStatus {
    if (pv <= 21 && (dv > 21 || pv > dv)) || blackjack_override {
        GameStatus::Win
    } else if dv > 21 || pv == dv {
        GameStatus::Tie
    } else {
        GameStatus::Lose
    }
}

/// The outcome of the player's main hand (`split` false) or split hand
/// against the dealer's hand. A player blackjack facing no dealer blackjack
/// wins the main hand; the split hand has no such override.
pub open spec fn hand_outcome(p: HandView, d: HandView, split: bool) -> GameStatus {
    outcome(
        if split {
            hand_value(p.split)
        } else {
            hand_value(p.cards)
        },
        hand_value(d.cards),
        !split && hand_is_blackjack(p) && !hand_is_blackjack(d),
    )
}

/// The ledger after settling the main hand, then the split hand when
/// `split` holds: each win returns its wager.
pub open spec fn settled(g: GameView, split: bool) -> MoneyView {
    let m1 = if hand_outcome(g.player, g.dealer, false) == GameStatus::Win {
        credited(g.money, false)
    } else {
        g.money
    };
    if split && hand_outcome(g.player, g.dealer, true) == GameStatus::Win {
        credited(m1, true)
    } else {
        m1
    }
}

/// A player blackjack beats a dealer who holds 21 without a blackjack.
pub proof fn lemma_blackjack_beats_plain_21(p: HandView, d: HandView)
    requires
        hand_is_blackjack(p),
        hand_value(d.cards) == 21,
        !hand_is_blackjack(d),
    ensures
        hand_outcome(p, d, false) == GameStatus::Win,
{
}

/// A player blackjack against a dealer who had to draw (three cards or more)
/// wins the main hand whatever the dealer's total, and the win returns the
/// main wager to the wallet (when the sum stays within the largest amount).
pub proof fn lemma_blackjack_against_drawing_dealer(g: GameView)
    requires
        hand_is_blackjack(g.player),
        g.dealer.cards.len() > 2,
        g.money.wallet + g.money.bet <= max_amount(),
    ensures
        hand_outcome(g.player, g.dealer, false) == GameStatus::Win,
        credited(g.money, false) == (MoneyView { wallet: g.money.wallet + g.money.bet, ..g.money }),
{
}

/// A player 21 that is not a blackjack does not win against a dealer
/// blackjack: the totals are equal, so the hand ties.
pub proof fn lemma_plain_21_against_dealer_blackjack(p: HandView, d: HandView)
    requires
        hand_value(p.cards) == 21,
        !hand_is_blackjack(p),
        hand_is_blackjack(d),
        d.split.len() == 0,
    ensures
        hand_outcome(p, d, false) == GameStatus::Tie,
{
    assert(cards_sum(d.split) == 0);
    assert(!has_ace(d.split));
}

/// Where a session stands: which answer the engine waits for.
#[derive(Clone, Copy, Debug, PartialEq, Eq, Structural)]
pub enum Phase {
    /// The wallet has not been opened.
    AwaitingWallet,
    /// A round is to begin with the main wager.
    AwaitingBet,
    /// The player acts on the main hand.
    PlayerTurn,
    /// A split was made; its wager is awaited.
    SplitWager,
    /// The player acts on the split hand.
    SplitTurn,
    /// The wallet is empty or a finite shoe ran out.
    GameOver,
}

/// A session as values.
pub struct GameView {
    pub deck: DeckView,
    pub money: MoneyView,
    pub player: HandView,
    pub dealer: HandView,
    pub phase: Phase,
}

/// The dealer's up-card, the first of the dealer's cards.
pub open spec fn up_rank(g: GameView) -> Rank {
    g.dealer.cards[0].rank
}

/// The hard-totals table on the player's main total, `NoEntry` when the dealer
/// shows no card.
pub open spec fn hard_advice(g: GameView) -> Decision {
    if g.dealer.cards.len() == 0 {
        Decision::NoEntry
    } else {
        hard_decision(up_rank(g), hand_value(g.player.cards))
    }
}

/// The card beside the ace in a two-card hand: the second card when the
/// first is an ace, else the first.
pub open spec fn other_card(cards: Seq<Card>) -> Card {
    if is_ace(cards[0]) {
        cards[1]
    } else {
        cards[0]
    }
}

/// The soft-totals table on the card beside the ace, `NoEntry` unless the
/// player holds two cards with an ace and the dealer shows a card.
pub open spec fn soft_advice(g: GameView) -> Decision {
    if g.dealer.cards.len() == 0 || !(g.player.cards.len() == 2 && has_ace(g.player.cards)) {
        Decision::NoEntry
    } else {
        soft_decision(up_rank(g), card_value(other_card(g.player.cards)))
    }
}

/// The pairs table on the player's last (highest) card, `NoEntry` when either
/// side holds no card.
pub open spec fn pair_advice(g: GameView) -> Decision {
    if g.dealer.cards.len() == 0 || g.player.cards.len() == 0 {
        Decision::NoEntry
    } else {
        pair_decision(up_rank(g), card_value(g.player.cards.last()))
    }
}

/// The advisor: pairs for two cards of one rank, soft totals for two cards
/// with an ace, hard totals otherwise.
pub open spec fn advice(g: GameView) -> Decision {
    if g.player.cards.len() == 2 && g.player.cards[0].rank == g.player.cards[1].rank {
        pair_advice(g)
    } else if g.player.cards.len() == 2 && has_ace(g.player.cards) {
        soft_advice(g)
    } else {
        hard_advice(g)
    }
}


/// The hand a card goes to: the dealer's, the player's split hand, or the
/// player's main hand.
pub open spec fn target(g: GameView, to_dealer: bool, split: bool) -> Seq<Card> {
    if to_dealer {
        g.dealer.cards
    } else if split {
        g.player.split
    } else {
        g.player.cards
    }
}

/// `h` is `g` after the shoe's next card went into one hand (see `target`),
/// sorted in by value; nothing else changed.
pub open spec fn dealt(g: GameView, h: GameView, to_dealer: bool, split: bool) -> bool {
    let c = g.deck.cards.last();
    &&& g.deck.cards.len() > 0
    &&& drawn(g.deck, c, h.deck)
    &&& h.money == g.money
    &&& h.phase == g.phase
    &&& inserted_by_value(target(g, to_dealer, split), target(h, to_dealer, split), c)
    &&& if to_dealer {
        h.player == g.player && h.dealer.split == g.dealer.split
    } else if split {
        h.dealer == g.dealer && h.player.cards == g.player.cards
    } else {
        h.dealer == g.dealer && h.player.split == g.player.split
    }
}

/// Each state of `gs` but the last has the dealer under 17 and leads to the
/// next by one card drawn into the dealer's hand.
pub open spec fn dealer_chain(gs: Seq<GameView>) -> bool {
    forall|i: int|
        0 <= i < gs.len() - 1 ==> hand_value(#[trigger] gs[i].dealer.cards) < 17 && dealt(
            gs[i],
            gs[i + 1],
            true,
            false,
        )
}

/// `h` is `g` after the dealer's policy drew one card at a time, each while
/// the dealer's total was under 17.
pub open spec fn dealer_draws(g: GameView, h: GameView) -> bool {
    exists|gs: Seq<GameView>| gs.len() >= 1 && gs[0] == g && gs.last() == h && #[trigger] dealer_chain(gs)
}

/// How far the dealer's base sum is below 17.
spec fn dealer_room(g: GameView) -> nat {
    if cards_sum(g.dealer.cards) < 17 {
        (17 - cards_sum(g.dealer.cards)) as nat
    } else {
        0
    }
}

proof fn lemma_dealer_chain_push(gs: Seq<GameView>, h: GameView)
    requires
        gs.len() >= 1,
        dealer_chain(gs),
        hand_value(gs.last().dealer.cards) < 17,
        dealt(gs.last(), h, true, false),
    ensures
        dealer_chain(gs.push(h)),
{
    let t = gs.push(h);
    assert forall|i: int| 0 <= i < t.len() - 1 implies hand_value(#[trigger] t[i].dealer.cards) < 17
        && dealt(t[i], t[i + 1], true, false) by {
        if i < gs.len() - 1 {
            assert(t[i] == gs[i] && t[i + 1] == gs[i + 1]);
        } else {
            assert(t[i] == gs.last() && t[i + 1] == h);
        }
    }
}

/// `g` with the wager placed and both hands emptied.
pub open spec fn cleared(g: GameView, m: MoneyView) -> GameView {
    GameView {
        money: m,
        player: HandView { cards: Seq::empty(), split: Seq::empty() },
        dealer: HandView { cards: Seq::empty(), split: Seq::empty() },
        ..g
    }
}

/// Two cards each, dealt player, dealer, player, dealer.
pub open spec fn dealt_round(g: GameView, h: GameView) -> bool {
    exists|g1: GameView, g2: GameView, g3: GameView|
        dealt(g, g1, false, false) && dealt(g1, g2, true, false) && dealt(g2, g3, false, false)
            && dealt(g3, h, true, false)
}


/// A shoe that can never run out: a reshuffling shoe holding a card.
pub open spec fn endless(g: GameView) -> bool {
    g.deck.reshuffle && g.deck.cards.len() > 0
}

/// From `g` to `h` the shoe keeps its policy, and a reshuffling shoe its size.
pub open spec fn shoe_kept(g: GameView, h: GameView) -> bool {
    h.deck.reshuffle == g.deck.reshuffle && (g.deck.reshuffle ==> h.deck.cards.len()
        == g.deck.cards.len())
}

/// A deal from `c` cut short by an empty shoe: `h` is `c` after the first
/// of the deal's draws (player, dealer, player) that the shoe could give,
/// and its shoe is empty.
pub open spec fn deal_cut(c: GameView, h: GameView) -> bool {
    &&& h.deck.cards.len() == 0
    &&& !endless(c)
    &&& (h == c || exists|g1: GameView|
        #[trigger] dealt(c, g1, false, false) && (h == g1 || exists|g2: GameView|
            #[trigger] dealt(g1, g2, true, false) && (h == g2 || dealt(g2, h, false, false))))
}

/// Whether a hand of the player is still in play at the dealer's turn.
pub open spec fn player_live(g: GameView, split: bool) -> bool {
    hand_value(g.player.cards) <= 21 || (split && hand_value(g.player.split) <= 21)
}

/// The statuses of a settled round: the main hand, then the split hand.
pub open spec fn round_statuses(g: GameView, split: bool) -> Seq<GameStatus> {
    if split {
        seq![hand_outcome(g.player, g.dealer, false), hand_outcome(g.player, g.dealer, true)]
    } else {
        seq![hand_outcome(g.player, g.dealer, false)]
    }
}

/// Where a session goes after a round: on while the wallet holds money.
pub open spec fn phase_after_round(m: MoneyView) -> Phase {
    if m.wallet > 0 {
        Phase::AwaitingBet
    } else {
        Phase::GameOver
    }
}


/// A player's choice on a hand, typed as `h`, `s`, `d` or `p`.
#[derive(Clone, Copy, Debug, PartialEq, Eq, Structural)]
pub enum Action {
    Hit,
    Stand,
    Double,
    Split,
}

/// An answer handed to the engine: an amount (`None` when none could be
/// read) or a choice of action.
#[derive(Clone, Copy, Debug, PartialEq, Eq, Structural)]
pub enum Event {
    Amount(Option<u32>),
    Choice(Action),
}

/// What the engine asks for next, or the statuses of a round just settled.
#[derive(Clone, Debug, PartialEq, Eq)]
pub enum Step {
    AskWallet,
    AskBet,
    AskAction,
    AskSplitBet,
    AskSplitAction,
    RoundOver(Vec<GameStatus>),
    GameOver,
}

/// The question that belongs to each phase.
pub open spec fn prompt_for(p: Phase) -> Step {
    match p {
        Phase::AwaitingWallet => Step::AskWallet,
        Phase::AwaitingBet => Step::AskBet,
        Phase::PlayerTurn => Step::AskAction,
        Phase::SplitWager => Step::AskSplitBet,
        Phase::SplitTurn => Step::AskSplitAction,
        Phase::GameOver => Step::GameOver,
    }
}

pub open spec fn action_of(c: char) -> Option<Action> {
    if c == 'h' {
        Some(Action::Hit)
    } else if c == 's' {
        Some(Action::Stand)
    } else if c == 'd' {
        Some(Action::Double)
    } else if c == 'p' {
        Some(Action::Split)
    } else {
        None
    }
}

/// The dealer's part of a round: the policy runs when a player hand is
/// still in play, and nothing happens otherwise.
pub open spec fn dealer_stage(g: GameView, mid: GameView) -> bool {
    if player_live(g, g.player.split.len() > 0) {
        dealer_draws(g, mid)
    } else {
        mid == g
    }
}

/// `h` and `r` end the round that stands at `g`: after the dealer's part,
/// each of the player's hands is settled against the dealer and the
/// session goes on while the wallet holds money. A finite shoe that runs
/// out during the dealer's part ends the session.
pub open spec fn round_result(g: GameView, r: Result<Step, GameError>, h: GameView) -> bool {
    let split = g.player.split.len() > 0;
    exists|mid: GameView|
        #[trigger] dealer_stage(g, mid) && match r {
            Ok(Step::RoundOver(st)) => (player_live(g, split) ==> hand_value(mid.dealer.cards) >= 17)
                && st@ == round_statuses(mid, split) && h == GameView {
                money: settled(mid, split),
                phase: phase_after_round(settled(mid, split)),
                ..mid
            },
            Err(e) => e == GameError::EmptyShoe && !endless(g) && player_live(g, split)
                && mid.deck.cards.len() == 0 && h == GameView { phase: Phase::GameOver, ..mid },
            _ => false,
        }
}

/// A card drawn into the player's main or split hand: the turn goes on
/// under 21 and the round ends at 21 or more.
pub open spec fn hit_result(g: GameView, split: bool, r: Result<Step, GameError>, h: GameView) -> bool {
    if g.deck.cards.len() == 0 {
        r == Err::<Step, GameError>(GameError::EmptyShoe) && h == GameView { phase: Phase::GameOver, ..g }
    } else {
        exists|d: GameView|
            #[trigger] dealt(g, d, false, split) && if hand_value(target(d, false, split)) < 21 {
                h == d && r == Ok::<Step, GameError>(prompt_for(d.phase))
            } else {
                round_result(d, r, h)
            }
    }
}

/// The player's choice `act` on the main hand, or on the split hand when
/// `split` holds.
pub open spec fn action_result(
    g: GameView,
    act: Action,
    split: bool,
    r: Result<Step, GameError>,
    h: GameView,
) -> bool {
    let v = hand_value(target(g, false, split));
    match act {
        Action::Stand => round_result(g, r, h),
        Action::Hit => if v >= 21 {
            round_result(g, r, h)
        } else {
            hit_result(g, split, r, h)
        },
        Action::Double => if v >= 21 {
            round_result(g, r, h)
        } else {
            match doubled(g.money, split) {
                Err(e) => r == Err::<Step, GameError>(e) && h == g,
                Ok(m) => hit_result(GameView { money: m, ..g }, split, r, h),
            }
        },
        Action::Split => if split || !splittable(g.player) {
            r == Err::<Step, GameError>(GameError::IneligibleSplit) && h == g
        } else if g.money.bet > g.money.wallet {
            r == Err::<Step, GameError>(GameError::InsufficientFunds) && h == g
        } else {
            h == GameView { player: after_split(g.player), phase: Phase::SplitWager, ..g } && r == Ok::<
                Step,
                GameError,
            >(Step::AskSplitBet)
        },
    }
}

/// The opening of a round on the main wager `amount`: the wager is placed,
/// both hands are emptied and dealt two cards each; the player acts unless
/// already at 21 or more, in which case the round ends at once.
pub open spec fn bet_result(g: GameView, amount: Option<u32>, r: Result<Step, GameError>, h: GameView) -> bool {
    match placed(g.money, false, amount) {
        Err(e) => r == Err::<Step, GameError>(e) && h == g,
        Ok(m) => (r == Err::<Step, GameError>(GameError::EmptyShoe) && exists|hc: GameView|
            #[trigger] deal_cut(cleared(g, m), hc) && h == GameView { phase: Phase::GameOver, ..hc })
            || exists|d: GameView|
            #[trigger] dealt_round(cleared(g, m), d) && if hand_value(d.player.cards) < 21 {
                h == GameView { phase: Phase::PlayerTurn, ..d } && r == Ok::<Step, GameError>(
                    Step::AskAction,
                )
            } else {
                round_result(d, r, h)
            },
    }
}

/// One step of a session: the answer `e` given in the state `g` yields `r`
/// and the state `h`. An answer that does not fit the phase repeats its
/// question and changes nothing.
pub open spec fn play_step(g: GameView, e: Event, r: Result<Step, GameError>, h: GameView) -> bool {
    match (g.phase, e) {
        (Phase::AwaitingWallet, Event::Amount(a)) => {
            let w = match a {
                Some(x) => x as nat,
                None => 0,
            };
            h == GameView {
                money: MoneyView { wallet: w, ..g.money },
                phase: if w > 0 {
                    Phase::AwaitingBet
                } else {
                    Phase::GameOver
                },
                ..g
            } && r == Ok::<Step, GameError>(
                if w > 0 {
                    Step::AskBet
                } else {
                    Step::GameOver
                },
            )
        },
        (Phase::AwaitingBet, Event::Amount(a)) => bet_result(g, a, r, h),
        (Phase::PlayerTurn, Event::Choice(act)) => action_result(g, act, false, r, h),
        (Phase::SplitTurn, Event::Choice(act)) => action_result(g, act, true, r, h),
        (Phase::SplitWager, Event::Amount(a)) => match placed(g.money, true, a) {
            Err(e) => r == Err::<Step, GameError>(e) && h == g,
            Ok(m) => if hand_value(g.player.split) < 21 {
                h == GameView { money: m, phase: Phase::SplitTurn, ..g } && r == Ok::<
                    Step,
                    GameError,
                >(Step::AskSplitAction)
            } else {
                round_result(GameView { money: m, ..g }, r, h)
            },
        },
        _ => r == Ok::<Step, GameError>(prompt_for(g.phase)) && h == g,
    }
}


/// The automated split wager: a draw between 1 and the wallet (0 when the
/// wallet is empty), placed on the split hand.
pub open spec fn split_wager_placed(m: MoneyView, after: MoneyView) -> bool {
    exists|a: u32|
        (if m.wallet > 0 {
            1 <= a <= m.wallet
        } else {
            a == 0
        }) && #[trigger] placed(m, true, Some(a)) == Ok::<MoneyView, GameError>(after)
}

/// Whether the advisor's decision can be carried out on the main hand: it
/// is under 21 and the advice is a hit, a double, or a split of an unsplit
/// pair whose debit the wallet covers.
pub open spec fn auto_can_step(g: GameView) -> bool {
    hand_value(g.player.cards) < 21 && match advice(g) {
        Decision::Hit | Decision::Double => true,
        Decision::Split => splittable(g.player) && g.money.bet <= g.money.wallet,
        _ => false,
    }
}

/// One automated action on the main hand: a hit draws a card; a double
/// doubles the main wager when the wallet covers it and draws a card (a
/// plain hit when it does not); a split splits the pair and places a drawn
/// split wager.
pub open spec fn auto_step(g: GameView, h: GameView) -> bool {
    auto_can_step(g) && match advice(g) {
        Decision::Hit => dealt(g, h, false, false),
        Decision::Double => match doubled(g.money, false) {
            Ok(m) => dealt(GameView { money: m, ..g }, h, false, false),
            Err(_) => dealt(g, h, false, false),
        },
        _ => h.player == after_split(g.player) && h.deck == g.deck && h.dealer == g.dealer
            && h.phase == g.phase && split_wager_placed(g.money, h.money),
    }
}

pub open spec fn auto_chain(gs: Seq<GameView>) -> bool {
    forall|i: int| 0 <= i < gs.len() - 1 ==> #[trigger] auto_step(gs[i], gs[i + 1])
}

/// `h` is `g` after zero or more automated actions on the main hand.
pub open spec fn auto_turn(g: GameView, h: GameView) -> bool {
    exists|gs: Seq<GameView>| gs.len() >= 1 && gs[0] == g && gs.last() == h && #[trigger] auto_chain(gs)
}

proof fn lemma_auto_chain_push(gs: Seq<GameView>, h: GameView)
    requires
        gs.len() >= 1,
        auto_chain(gs),
        auto_step(gs.last(), h),
    ensures
        auto_chain(gs.push(h)),
{
    let t = gs.push(h);
    assert forall|i: int| 0 <= i < t.len() - 1 implies #[trigger] auto_step(t[i], t[i + 1]) by {
        if i < gs.len() - 1 {
            assert(t[i] == gs[i] && t[i + 1] == gs[i + 1]);
        } else {
            assert(t[i] == gs.last() && t[i + 1] == h);
        }
    }
}

/// Lexicographic progress of the automated turn: a split can happen once,
/// and each card drawn raises the main sum, which stays under 21.
spec fn auto_room(g: GameView) -> nat {
    if cards_sum(g.player.cards) < 21 {
        (21 - cards_sum(g.player.cards)) as nat
    } else {
        0
    }
}

spec fn split_room(g: GameView) -> nat {
    if g.player.split.len() == 0 {
        1
    } else {
        0
    }
}



/// The automated turn from `g` cut short by an empty finite shoe: after
/// some automated actions the advisor asked for a hit or a double that
/// could not draw; a double that the wallet covered was already booked.
pub open spec fn auto_cut(g: GameView, h: GameView) -> bool {
    &&& !endless(g)
    &&& exists|g1: GameView|
        #[trigger] auto_turn(g, g1) && auto_can_step(g1) && g1.deck.cards.len() == 0 && (h == g1 || (
        advice(g1) == Decision::Double && doubled(g1.money, false) is Ok && h == GameView {
            money: doubled(g1.money, false)->Ok_0,
            ..g1
        }))
}

/// An automated round from the table `c` (wager placed, hands emptied) cut
/// short by an empty finite shoe: during the deal, the player's turn, or the
/// dealer's draws.
pub open spec fn round_cut_from(c: GameView, h: GameView) -> bool {
    deal_cut(c, h) || exists|g1: GameView|
        #[trigger] dealt_round(c, g1) && (auto_cut(g1, h) || exists|g2: GameView|
            #[trigger] auto_turn(g1, g2) && !auto_can_step(g2) && !endless(g2) && player_live(
                g2,
                g2.player.split.len() > 0,
            ) && dealer_draws(g2, h) && h.deck.cards.len() == 0 && hand_value(h.dealer.cards) < 17)
}

/// An automated round from `g` with a drawn main wager, cut short.
pub open spec fn round_cut(g: GameView, h: GameView) -> bool {
    exists|b: u32|
        1 <= b <= g.money.wallet && #[trigger] round_cut_from(
            cleared(g, placed(g.money, false, Some(b))->Ok_0),
            h,
        )
}

/// `g` with its wallet opened at `w`.
pub open spec fn with_wallet(g: GameView, w: nat) -> GameView {
    GameView { money: MoneyView { wallet: w, ..g.money }, ..g }
}

/// The dealer's part and the settling of the main hand, from the end of the
/// player's automated turn at `g2`.
pub open spec fn auto_settle(g2: GameView, h: GameView, st: GameStatus) -> bool {
    exists|g3: GameView|
        #[trigger] dealer_stage(g2, g3) && (player_live(g2, g2.player.split.len() > 0) ==> hand_value(
            g3.dealer.cards,
        ) >= 17) && st == hand_outcome(g3.player, g3.dealer, false) && h == GameView {
            money: if st == GameStatus::Win {
                credited(g3.money, false)
            } else {
                g3.money
            },
            ..g3
        }
}

/// One automated round from `g` to `h` with main-hand status `st`: a main
/// wager drawn between 1 and the wallet, the deal, the advisor's turn, the
/// dealer's part, and the settling of the main hand.
pub open spec fn auto_round(g: GameView, h: GameView, st: GameStatus) -> bool {
    exists|b: u32, g1: GameView|
        1 <= b <= g.money.wallet && #[trigger] dealt_round(
            cleared(g, placed(g.money, false, Some(b))->Ok_0),
            g1,
        ) && exists|g2: GameView|
            #[trigger] auto_turn(g1, g2) && !auto_can_step(g2) && auto_settle(g2, h, st)
}

/// The states `gs` pass through the automated rounds whose statuses are `st`.
pub open spec fn auto_rounds(gs: Seq<GameView>, st: Seq<GameStatus>) -> bool {
    &&& gs.len() == st.len() + 1
    &&& forall|i: int| 0 <= i < st.len() ==> #[trigger] auto_round(gs[i], gs[i + 1], st[i])
}

/// An automated session from `g` to `h` that settled the rounds `st`: at
/// most `limit` complete rounds, fewer only when the wallet is empty at
/// the end; or, on a shoe that can run out, the complete rounds followed by
/// one round cut short by the empty shoe.
pub open spec fn auto_session(g: GameView, h: GameView, limit: nat, st: Seq<GameStatus>) -> bool {
    &&& st.len() <= limit
    &&& exists|gs: Seq<GameView>|
        gs[0] == g && #[trigger] auto_rounds(gs, st) && ((h == gs.last() && (st.len() < limit
            ==> h.money.wallet == 0)) || (!endless(g) && st.len() < limit && round_cut(
            gs.last(),
            h,
        )))
}

/// One session: the shoe, the ledger, and the player's and dealer's hands.
#[derive(Debug)]
pub struct Game {
    deck: Deck,
    money: Money,
    player_hand: Hand,
    dealer_hand: Hand,
    phase: Phase,
}

impl View for Game {
    type V = GameView;

    closed spec fn view(&self) -> GameView {
        GameView {
            deck: self.deck@,
            money: self.money@,
            player: self.player_hand@,
            dealer: self.dealer_hand@,
            phase: self.phase,
        }
    }
}

impl Action {
    /// The action typed as `c`: `h` hit, `s` stand, `d` double, `p` split.
    pub fn from_char(c: char) -> (r: Option<Action>)
        ensures
            r == action_of(c),
    {
        match c {
            'h' => Some(Action::Hit),
            's' => Some(Action::Stand),
            'd' => Some(Action::Double),
            'p' => Some(Action::Split),
            _ => None,
        }
    }
}

impl Game {
    /// Both hands well formed, and the dealer never holds a split hand.
    pub closed spec fn wf(&self) -> bool {
        &&& self.player_hand.wf()
        &&& self.dealer_hand.wf()
        &&& self.dealer_hand@.split.len() == 0
    }

    /// A session on `deck`, with an empty ledger and empty hands, waiting
    /// for the wallet.
    pub fn new(deck: Deck) -> (g: Game)
        ensures
            g.wf(),
            g@.deck == deck@,
            g@.money == (MoneyView { wallet: 0, bet: 0, split_bet: 0, last_bet: 0 }),
            g@.player.cards.len() == 0 && g@.player.split.len() == 0,
            g@.dealer.cards.len() == 0 && g@.dealer.split.len() == 0,
            g@.phase == Phase::AwaitingWallet,
    {
        Game {
            deck,
            money: Money::new(),
            player_hand: Hand::new(),
            dealer_hand: Hand::new(),
            phase: Phase::AwaitingWallet,
        }
    }

    pub fn player_hand(&self) -> (r: &Hand)
        ensures
            r@ == self@.player,
            self.wf() ==> r.wf(),
    {
        &self.player_hand
    }

    pub fn dealer_hand(&self) -> (r: &Hand)
        ensures
            r@ == self@.dealer,
            self.wf() ==> r.wf(),
    {
        &self.dealer_hand
    }

    pub fn money(&self) -> (r: &Money)
        ensures
            r@ == self@.money,
    {
        &self.money
    }

    pub fn deck(&self) -> (r: &Deck)
        ensures
            r@ == self@.deck,
    {
        &self.deck
    }

    pub fn phase(&self) -> (r: Phase)
        ensures
            r == self@.phase,
    {
        self.phase
    }

    /// The hard-totals table (see `hard_advice`).
    pub fn basic_strategy_hard_totals(&self) -> (r: Decision)
        requires
            self.wf(),
        ensures
            r == hard_advice(self@),
    {
        let dealer = self.dealer_hand.cards();
        if dealer.len() == 0 {
            return Decision::NoEntry;
        }
        hard_table(dealer[0].rank, self.player_hand.get_value().main)
    }

    /// The soft-totals table (see `soft_advice`).
    pub fn basic_strategy_soft_totals(&self) -> (r: Decision)
        requires
            self.wf(),
        ensures
            r == soft_advice(self@),
    {
        let dealer = self.dealer_hand.cards();
        let player = self.player_hand.cards();
        if dealer.len() == 0 || !(player.len() == 2 && self.player_hand.holds_ace()) {
            return Decision::NoEntry;
        }
        proof {
            self.player_hand.lemma_wf_sorted();
            let cards = self@.player.cards;
            if !is_ace(cards[0]) {
                let i = choose|i: int| 0 <= i < cards.len() && is_ace(#[trigger] cards[i]);
                assert(card_value(cards[0]) <= card_value(cards[1]));
            }
        }
        soft_table(dealer[0].rank, player[player.len() - 1].value())
    }

    /// The pairs table (see `pair_advice`).
    pub fn basic_stategy_pairs(&self) -> (r: Decision)
        requires
            self.wf(),
        ensures
            r == pair_advice(self@),
    {
        let dealer = self.dealer_hand.cards();
        let player = self.player_hand.cards();
        if dealer.len() == 0 || player.len() == 0 {
            return Decision::NoEntry;
        }
        pair_table(dealer[0].rank, player[player.len() - 1].value())
    }

    /// The advisor's decision for the player's main hand (see `advice`).
    pub fn advise(&self) -> (r: Decision)
        requires
            self.wf(),
        ensures
            r == advice(self@),
    {
        let player = self.player_hand.cards();
        if player.len() == 2 && player[0].rank == player[1].rank {
            self.basic_stategy_pairs()
        } else if player.len() == 2 && self.player_hand.holds_ace() {
            self.basic_strategy_soft_totals()
        } else {
            self.basic_strategy_hard_totals()
        }
    }

    /// Draws the shoe's next card into one hand (see `dealt`).
    fn draw_to(&mut self, to_dealer: bool, split: bool) -> (r: Result<(), GameError>)
        requires
            old(self).wf(),
            cards_sum(target(old(self)@, to_dealer, split)) < 245,
            to_dealer ==> !split,
        ensures
            final(self).wf(),
            old(self)@.deck.cards.len() == 0 <==> r is Err,
            r is Err ==> r == Err::<(), GameError>(GameError::EmptyShoe) && final(self)@ == old(
                self,
            )@,
            r is Ok ==> dealt(old(self)@, final(self)@, to_dealer, split),
    {
        match self.deck.hit() {
            Err(e) => Err(e),
            Ok(card) => {
                if to_dealer {
                    self.dealer_hand.add_card(card, false);
                } else {
                    self.player_hand.add_card(card, split);
                }
                Ok(())
            },
        }
    }

    /// The dealer's policy: draws into the dealer's hand while its total is
    /// under 17. Fails with `EmptyShoe` when a finite shoe runs out first.
    pub fn dealer_turn(&mut self) -> (r: Result<(), GameError>)
        requires
            old(self).wf(),
        ensures
            final(self).wf(),
            dealer_draws(old(self)@, final(self)@),
            shoe_kept(old(self)@, final(self)@),
            endless(old(self)@) ==> r is Ok,
            r is Ok ==> hand_value(final(self)@.dealer.cards) >= 17,
            r is Err ==> r == Err::<(), GameError>(GameError::EmptyShoe)
                && final(self)@.deck.cards.len() == 0 && hand_value(final(self)@.dealer.cards) < 17,
    {
        let ghost mut gs: Seq<GameView> = seq![self@];
        while self.dealer_hand.get_value().main < 17
            invariant
                self.wf(),
                gs.len() >= 1,
                gs[0] == old(self)@,
                gs.last() == self@,
                dealer_chain(gs),
                shoe_kept(old(self)@, self@),
            decreases dealer_room(self@),
        {
            let ghost before = self@;
            let drew = self.draw_to(true, false);
            if drew.is_err() {
                assert(gs[0] == old(self)@ && gs.last() == self@ && dealer_chain(gs));
                return drew;
            }
            proof {
                crate::hand::lemma_inserted_by_value(
                    before.dealer.cards,
                    self@.dealer.cards,
                    before.deck.cards.last(),
                );
                lemma_dealer_chain_push(gs, self@);
                gs = gs.push(self@);
            }
        }
        assert(gs[0] == old(self)@ && gs.last() == self@ && dealer_chain(gs));
        Ok(())
    }

    /// The question for the current phase.
    pub fn prompt(&self) -> (r: Step)
        ensures
            r == prompt_for(self@.phase),
    {
        match self.phase {
            Phase::AwaitingWallet => Step::AskWallet,
            Phase::AwaitingBet => Step::AskBet,
            Phase::PlayerTurn => Step::AskAction,
            Phase::SplitWager => Step::AskSplitBet,
            Phase::SplitTurn => Step::AskSplitAction,
            Phase::GameOver => Step::GameOver,
        }
    }

    /// Opens a round: places the main wager `amount` (refused, changing
    /// nothing, when it exceeds the wallet), empties both hands and deals
    /// two cards each, player first. Fails with `EmptyShoe` when a finite
    /// shoe runs out during the deal.
    pub fn init_game(&mut self, amount: Option<u32>) -> (r: Result<(), GameError>)
        requires
            old(self).wf(),
        ensures
            final(self).wf(),
            final(self)@.phase == old(self)@.phase,
            shoe_kept(old(self)@, final(self)@),
            match placed(old(self)@.money, false, amount) {
                Err(e) => r == Err::<(), GameError>(e) && final(self)@ == old(self)@,
                Ok(m) => (r is Ok ==> dealt_round(cleared(old(self)@, m), final(self)@)) && (r is Err
                    ==> r == Err::<(), GameError>(GameError::EmptyShoe) && deal_cut(
                    cleared(old(self)@, m),
                    final(self)@,
                )) && (old(self)@.deck.cards.len() >= 4 || endless(old(self)@) ==> r is Ok),
            },
    {
        let placed_bet = self.money.make_bet(false, amount);
        if placed_bet.is_err() {
            return placed_bet;
        }
        let ghost m = placed(old(self)@.money, false, amount)->Ok_0;
        self.player_hand.clear_hand();
        self.dealer_hand.clear_hand();
        let ghost g0 = self@;
        assert(g0 == cleared(old(self)@, m)) by {
            assert(g0.player.cards =~= Seq::<Card>::empty());
            assert(g0.player.split =~= Seq::<Card>::empty());
            assert(g0.dealer.cards =~= Seq::<Card>::empty());
            assert(g0.dealer.split =~= Seq::<Card>::empty());
        }
        assert(cards_sum(Seq::<Card>::empty()) == 0);
        let first = self.draw_to(false, false);
        if first.is_err() {
            return first;
        }
        let ghost g1 = self@;
        proof {
            crate::hand::lemma_inserted_by_value(g0.player.cards, g1.player.cards, g0.deck.cards.last());
        }
        let second = self.draw_to(true, false);
        if second.is_err() {
            return second;
        }
        let ghost g2 = self@;
        proof {
            crate::hand::lemma_inserted_by_value(g1.dealer.cards, g2.dealer.cards, g1.deck.cards.last());
        }
        let third = self.draw_to(false, false);
        if third.is_err() {
            return third;
        }
        let ghost g3 = self@;
        let fourth = self.draw_to(true, false);
        if fourth.is_err() {
            return fourth;
        }
        assert(dealt(g0, g1, false, false) && dealt(g1, g2, true, false) && dealt(g2, g3, false, false)
            && dealt(g3, self@, true, false));
        Ok(())
    }

    /// Ends a round: the dealer's policy runs when a player hand is still
    /// in play, then each hand is settled (see `round_result`).
    #[verifier::rlimit(40)]
    fn finish_round(&mut self) -> (r: Result<Step, GameError>)
        requires
            old(self).wf(),
        ensures
            final(self).wf(),
            round_result(old(self)@, r, final(self)@),
    {
        let ghost g = self@;
        let split = self.player_hand.split_cards().len() > 0;
        let values = self.player_hand.get_value();
        let live = values.main <= 21 || (split && values.split <= 21);
        if live {
            let turn = self.dealer_turn();
            if turn.is_err() {
                let ghost mid = self@;
                self.phase = Phase::GameOver;
                assert(dealer_stage(g, mid));
                return Err(GameError::EmptyShoe);
            }
        }
        let ghost mid = self@;
        assert(dealer_stage(g, mid));
        let statuses = self.determine_winner(split);
        assert(statuses@ =~= round_statuses(mid, split));
        self.phase = if self.money.wallet() > 0 {
            Phase::AwaitingBet
        } else {
            Phase::GameOver
        };
        let r = Ok(Step::RoundOver(statuses));
        assert(round_result(g, r, self@)) by {
            assert(dealer_stage(g, mid));
        }
        r
    }

    /// Draws into the player's main or split hand (see `hit_result`).
    fn hit_player(&mut self, split: bool) -> (r: Result<Step, GameError>)
        requires
            old(self).wf(),
            hand_value(target(old(self)@, false, split)) < 21,
        ensures
            final(self).wf(),
            hit_result(old(self)@, split, r, final(self)@),
    {
        if self.deck.remaining() == 0 {
            self.phase = Phase::GameOver;
            return Err(GameError::EmptyShoe);
        }
        let ghost g = self@;
        let drew = self.draw_to(false, split);
        assert(drew is Ok);
        let values = self.player_hand.get_value();
        let v = if split {
            values.split
        } else {
            values.main
        };
        assert(dealt(g, self@, false, split));
        if v < 21 {
            Ok(self.prompt())
        } else {
            self.finish_round()
        }
    }

    /// The player's choice on the main or split hand (see `action_result`).
    fn player_action(&mut self, act: Action, split: bool) -> (r: Result<Step, GameError>)
        requires
            old(self).wf(),
        ensures
            final(self).wf(),
            action_result(old(self)@, act, split, r, final(self)@),
    {
        let values = self.player_hand.get_value();
        let v = if split {
            values.split
        } else {
            values.main
        };
        match act {
            Action::Stand => self.finish_round(),
            Action::Hit => if v >= 21 {
                self.finish_round()
            } else {
                self.hit_player(split)
            },
            Action::Double => if v >= 21 {
                self.finish_round()
            } else {
                let doubled_bet = self.money.double(split);
                if let Err(e) = doubled_bet {
                    return Err(e);
                }
                self.hit_player(split)
            },
            Action::Split => if split || !self.player_hand.can_split() {
                Err(GameError::IneligibleSplit)
            } else if self.money.bet() > self.money.wallet() {
                Err(GameError::InsufficientFunds)
            } else {
                let done = self.player_hand.make_split();
                assert(done);
                self.phase = Phase::SplitWager;
                Ok(Step::AskSplitBet)
            },
        }
    }

    /// A main wager in a session waiting for one (see `bet_result`).
    fn open_round(&mut self, amount: Option<u32>) -> (r: Result<Step, GameError>)
        requires
            old(self).wf(),
        ensures
            final(self).wf(),
            bet_result(old(self)@, amount, r, final(self)@),
    {
        let dealt_ok = self.init_game(amount);
        match dealt_ok {
            Err(GameError::EmptyShoe) => {
                self.phase = Phase::GameOver;
                Err(GameError::EmptyShoe)
            },
            Err(e) => Err(e),
            Ok(()) => {
                let ghost d = self@;
                if self.player_hand.get_value().main < 21 {
                    self.phase = Phase::PlayerTurn;
                    assert(dealt_round(cleared(old(self)@, placed(old(self)@.money, false, amount)->Ok_0), d));
                    Ok(Step::AskAction)
                } else {
                    let r = self.finish_round();
                    assert(dealt_round(cleared(old(self)@, placed(old(self)@.money, false, amount)->Ok_0), d));
                    r
                }
            },
        }
    }

    /// The split wager, awaited after a split (see `play_step`).
    fn split_wager(&mut self, amount: Option<u32>) -> (r: Result<Step, GameError>)
        requires
            old(self).wf(),
        ensures
            final(self).wf(),
            match placed(old(self)@.money, true, amount) {
                Err(e) => r == Err::<Step, GameError>(e) && final(self)@ == old(self)@,
                Ok(m) => if hand_value(old(self)@.player.split) < 21 {
                    final(self)@ == GameView { money: m, phase: Phase::SplitTurn, ..old(self)@ } && r
                        == Ok::<Step, GameError>(Step::AskSplitAction)
                } else {
                    round_result(GameView { money: m, ..old(self)@ }, r, final(self)@)
                },
            },
    {
        let placed_split = self.money.make_bet(true, amount);
        if let Err(e) = placed_split {
            return Err(e);
        }
        if self.player_hand.get_value().split < 21 {
            self.phase = Phase::SplitTurn;
            Ok(Step::AskSplitAction)
        } else {
            self.finish_round()
        }
    }

    /// The automated turn on the main hand: follows the advisor while its
    /// decision can be carried out (see `auto_step`), and stops at 21 or
    /// more, on a stand, on `NoEntry`, or on a split that cannot be made.
    /// Fails with `EmptyShoe` when a finite shoe runs out.
    pub fn decision_making(&mut self) -> (r: Result<(), GameError>)
        requires
            old(self).wf(),
        ensures
            final(self).wf(),
            shoe_kept(old(self)@, final(self)@),
            final(self)@.dealer == old(self)@.dealer,
            final(self)@.phase == old(self)@.phase,
            endless(old(self)@) ==> r is Ok,
            r is Ok ==> auto_turn(old(self)@, final(self)@) && !auto_can_step(final(self)@),
            r is Err ==> r == Err::<(), GameError>(GameError::EmptyShoe) && auto_cut(
                old(self)@,
                final(self)@,
            ),
    {
        let ghost mut gs: Seq<GameView> = seq![self@];
        loop
            invariant
                self.wf(),
                gs.len() >= 1,
                gs[0] == old(self)@,
                gs.last() == self@,
                auto_chain(gs),
                shoe_kept(old(self)@, self@),
                self@.dealer == old(self)@.dealer,
                self@.phase == old(self)@.phase,
            ensures
                self.wf(),
                gs.len() >= 1,
                gs[0] == old(self)@,
                gs.last() == self@,
                auto_chain(gs),
                shoe_kept(old(self)@, self@),
                self@.dealer == old(self)@.dealer,
                self@.phase == old(self)@.phase,
                !auto_can_step(self@),
            decreases split_room(self@), auto_room(self@),
        {
            let ghost g = self@;
            if self.player_hand.get_value().main >= 21 {
                break;
            }
            let decision = self.advise();
            match decision {
                Decision::Hit => {
                    let drew = self.draw_to(false, false);
                    if drew.is_err() {
                        assert(auto_turn(old(self)@, g));
                        assert(auto_cut(old(self)@, self@));
                        return drew;
                    }
                    proof {
                        crate::hand::lemma_inserted_by_value(
                            g.player.cards,
                            self@.player.cards,
                            g.deck.cards.last(),
                        );
                    }
                },
                Decision::Double => {
                    let _ = self.money.double(false);
                    let drew = self.draw_to(false, false);
                    if drew.is_err() {
                        assert(auto_turn(old(self)@, g));
                        assert(auto_cut(old(self)@, self@));
                        return drew;
                    }
                    proof {
                        crate::hand::lemma_inserted_by_value(
                            g.player.cards,
                            self@.player.cards,
                            g.deck.cards.last(),
                        );
                    }
                },
                Decision::Split => {
                    if !self.player_hand.can_split() || self.money.bet() > self.money.wallet() {
                        break;
                    }
                    let wallet = self.money.wallet();
                    let amount = if wallet > 0 {
                        crate::random::random_between(1, wallet)
                    } else {
                        0
                    };
                    let done = self.player_hand.make_split();
                    assert(done);
                    let placed_split = self.money.make_bet(true, Some(amount));
                    assert(placed_split is Ok);
                    proof {
                        assert(cards_sum(Seq::<Card>::empty()) == 0);
                        assert(seq![g.player.cards[0]].drop_last() =~= Seq::<Card>::empty());
                        assert(g.player.cards =~= seq![g.player.cards[0]].push(g.player.cards[1]));
                        assert(split_wager_placed(g.money, self@.money));
                    }
                },
                _ => {
                    break;
                },
            }
            proof {
                assert(auto_step(g, self@));
                lemma_auto_chain_push(gs, self@);
                gs = gs.push(self@);
            }
        }
        assert(gs[0] == old(self)@ && gs.last() == self@ && auto_chain(gs));
        Ok(())
    }

    /// Plays up to `limit` automated rounds from the current wallet (see
    /// `auto_session`) and returns the status of each round's main hand.
    pub fn run_automated(&mut self, limit: u32) -> (r: Vec<GameStatus>)
        requires
            old(self).wf(),
        ensures
            final(self).wf(),
            auto_session(old(self)@, final(self)@, limit as nat, r@),
    {
        let mut status: Vec<GameStatus> = Vec::new();
        let mut games: u32 = 0;
        let ghost mut gs: Seq<GameView> = seq![self@];
        while games < limit && self.money.wallet() > 0
            invariant_except_break
                gs.last() == self@,
            invariant
                self.wf(),
                games <= limit,
                status@.len() == games,
                gs[0] == old(self)@,
                auto_rounds(gs, status@),
                shoe_kept(old(self)@, self@),
            ensures
                self.wf(),
                status@.len() <= limit,
                gs[0] == old(self)@,
                auto_rounds(gs, status@),
                (self@ == gs.last() && (status@.len() < limit ==> self@.money.wallet == 0)) || (
                !endless(old(self)@) && status@.len() < limit && round_cut(gs.last(), self@)),
            decreases limit - games,
        {
            let ghost g = self@;
            let wallet = self.money.wallet();
            let bet = crate::random::random_between(1, wallet);
            let ghost c = cleared(g, placed(g.money, false, Some(bet))->Ok_0);
            let opened = self.init_game(Some(bet));
            if opened.is_err() {
                assert(round_cut_from(c, self@));
                assert(round_cut(g, self@));
                break;
            }
            let ghost g1 = self@;
            let turn = self.decision_making();
            if turn.is_err() {
                assert(round_cut_from(c, self@));
                assert(round_cut(g, self@));
                break;
            }
            let ghost g2 = self@;
            let values = self.player_hand.get_value();
            let split = self.player_hand.split_cards().len() > 0;
            if values.main <= 21 || (split && values.split <= 21) {
                let drawn_ok = self.dealer_turn();
                if drawn_ok.is_err() {
                    assert(auto_turn(g1, g2));
                    assert(round_cut_from(c, self@));
                    assert(round_cut(g, self@));
                    break;
                }
            }
            let ghost g3 = self@;
            let st = self.winner(false);
            proof {
                assert(dealer_stage(g2, g3));
                assert(auto_settle(g2, self@, st));
                assert(auto_turn(g1, g2));
                assert(dealt_round(cleared(g, placed(g.money, false, Some(bet))->Ok_0), g1));
                assert(auto_round(g, self@, st));
                let ghost old_gs = gs;
                let ghost old_st = status@;
                gs = gs.push(self@);
                assert forall|i: int| 0 <= i < old_st.len() + 1 implies #[trigger] auto_round(
                    gs[i],
                    gs[i + 1],
                    old_st.push(st)[i],
                ) by {
                    if i < old_st.len() {
                        assert(gs[i] == old_gs[i] && gs[i + 1] == old_gs[i + 1]);
                        assert(old_st.push(st)[i] == old_st[i]);
                    }
                }
            }
            status.push(st);
            games = games + 1;
        }
        assert(gs[0] == old(self)@ && auto_rounds(gs, status@));
        status
    }

    /// An automated session: opens the wallet with a drawn amount between 100
    /// and the largest amount, then plays up to `limit` rounds (see
    /// `run_automated`).
    pub fn basic_strategy_play(&mut self, limit: u32) -> (r: Vec<GameStatus>)
        requires
            old(self).wf(),
        ensures
            final(self).wf(),
            exists|w: nat|
                100 <= w <= u32::MAX && auto_session(
                    #[trigger] with_wallet(old(self)@, w),
                    final(self)@,
                    limit as nat,
                    r@,
                ),
    {
        let wallet = crate::random::random_between(100, u32::MAX);
        self.money.make_wallet(Some(wallet));
        let ghost g = self@;
        let r = self.run_automated(limit);
        assert(g == with_wallet(old(self)@, wallet as nat));
        r
    }

    /// Advances an interactive session by one answer (see `play_step`):
    /// the wallet, a wager, or a choice on the hand in play. The returned
    /// step says what to ask next, or carries the statuses of the round that
    /// just ended.
    pub fn play(&mut self, event: Event) -> (r: Result<Step, GameError>)
        requires
            old(self).wf(),
        ensures
            final(self).wf(),
            play_step(old(self)@, event, r, final(self)@),
    {
        match (self.phase, event) {
            (Phase::AwaitingWallet, Event::Amount(a)) => {
                self.money.make_wallet(a);
                if self.money.wallet() > 0 {
                    self.phase = Phase::AwaitingBet;
                    Ok(Step::AskBet)
                } else {
                    self.phase = Phase::GameOver;
                    Ok(Step::GameOver)
                }
            },
            (Phase::AwaitingBet, Event::Amount(a)) => self.open_round(a),
            (Phase::PlayerTurn, Event::Choice(act)) => self.player_action(act, false),
            (Phase::SplitTurn, Event::Choice(act)) => self.player_action(act, true),
            (Phase::SplitWager, Event::Amount(a)) => self.split_wager(a),
            _ => Ok(self.prompt()),
        }
    }

    /// Settles the main hand, or the split hand when `split` holds, against
    /// the dealer; a win returns that wager to the wallet.
    pub fn winner(&mut self, split: bool) -> (r: GameStatus)
        requires
            old(self).wf(),
        ensures
            final(self).wf(),
            r == hand_outcome(old(self)@.player, old(self)@.dealer, split),
            final(self)@ == (GameView {
                money: if r == GameStatus::Win {
                    credited(old(self)@.money, split)
                } else {
                    old(self)@.money
                },
                ..old(self)@
            }),
    {
        let player: Values = self.player_hand.get_value();
        let dealer: u8 = self.dealer_hand.get_value().main;
        let value = if split {
            player.split
        } else {
            player.main
        };
        let mut wins: bool = value <= 21 && (dealer > 21 || value > dealer);
        if !split {
            wins = wins || (self.player_hand.is_blackjack() && !self.dealer_hand.is_blackjack());
        }
        if wins {
            self.money.win(split);
            GameStatus::Win
        } else if dealer > 21 || value == dealer {
            GameStatus::Tie
        } else {
            GameStatus::Lose
        }
    }

    /// Settles the main hand, then the split hand when `split` holds.
    pub fn determine_winner(&mut self, split: bool) -> (r: Vec<GameStatus>)
        requires
            old(self).wf(),
        ensures
            final(self).wf(),
            r@.len() == if split {
                2int
            } else {
                1int
            },
            r@[0] == hand_outcome(old(self)@.player, old(self)@.dealer, false),
            split ==> r@[1] == hand_outcome(old(self)@.player, old(self)@.dealer, true),
            final(self)@ == (GameView { money: settled(old(self)@, split), ..old(self)@ }),
    {
        let mut status: Vec<GameStatus> = Vec::new();
        let first = self.winner(false);
        status.push(first);
        if split {
            let second = self.winner(true);
            status.push(second);
        }
        status
    }
}

impl Default for Game {
    /// A session on a shuffled reshuffling shoe, waiting for the wallet.
    fn default() -> (g: Game)
        ensures
            g.wf(),
            g@.deck.reshuffle,
            g@.deck.cards.to_multiset() == crate::card::full_deck().to_multiset(),
            g@.money == (MoneyView { wallet: 0, bet: 0, split_bet: 0, last_bet: 0 }),
            g@.phase == Phase::AwaitingWallet,
    {
        Game::new(Deck::default())
    }
}

} // verus!
