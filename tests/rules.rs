use blackrust::card::{Card, Rank, Suit};
use blackrust::deck::Deck;
use blackrust::error::GameError;
use blackrust::game::{Action, Event, Game, GameStatus, Phase, Step};
use blackrust::hand::Hand;
use blackrust::money::Money;
use blackrust::strategy::{hard_table, pair_table, soft_table, Decision};

fn c(rank: Rank) -> Card {
    Card::new(rank, Suit::Spades)
}

fn hand_of(ranks: &[Rank]) -> Hand {
    let mut h = Hand::new();
    for r in ranks {
        h.add_card(c(*r), false);
    }
    h
}

/// A finite shoe that deals `player` and `dealer` (two cards each, player
/// first) and then hands out `rest` in order.
fn shoe(player: [Rank; 2], dealer: [Rank; 2], rest: &[Rank]) -> Deck {
    let mut cards: Vec<Card> = rest.iter().rev().map(|r| c(*r)).collect();
    cards.push(c(dealer[1]));
    cards.push(c(player[1]));
    cards.push(c(dealer[0]));
    cards.push(c(player[0]));
    Deck::from_cards(cards, false)
}

/// A game with the wallet opened and the main wager placed.
fn dealt_game(deck: Deck, wallet: u32, bet: u32) -> (Game, Step) {
    let mut g = Game::new(deck);
    let first = g.play(Event::Amount(Some(wallet))).unwrap();
    assert!(matches!(first, Step::AskBet));
    let second = g.play(Event::Amount(Some(bet))).unwrap();
    (g, second)
}

fn statuses(step: Step) -> Vec<GameStatus> {
    match step {
        Step::RoundOver(v) => v,
        other => panic!("round not over: {:?}", other),
    }
}

#[test]
fn card_values() {
    assert_eq!(c(Rank::Two).value(), 2);
    assert_eq!(c(Rank::Nine).value(), 9);
    assert_eq!(c(Rank::Ten).value(), 10);
    assert_eq!(c(Rank::Jack).value(), 10);
    assert_eq!(c(Rank::Queen).value(), 10);
    assert_eq!(c(Rank::King).value(), 10);
    assert_eq!(c(Rank::Ace).value(), 1);
    assert!(c(Rank::Ace).is_ace());
    assert!(!c(Rank::King).is_ace());
}

#[test]
fn value_without_ace_is_plain_sum() {
    let h = hand_of(&[Rank::Ten, Rank::Seven, Rank::Two]);
    assert_eq!(h.get_value().main, 19);
    let h = hand_of(&[Rank::Five, Rank::Six]);
    assert_eq!(h.get_value().main, 11);
    let h = hand_of(&[Rank::King, Rank::Queen, Rank::Five]);
    assert_eq!(h.get_value().main, 25);
}

#[test]
fn value_with_one_soft_ace() {
    let h = hand_of(&[Rank::Ace, Rank::Five, Rank::Three]);
    assert_eq!(h.get_value().main, 19);
    let h = hand_of(&[Rank::Ace, Rank::King]);
    assert_eq!(h.get_value().main, 21);
    let h = hand_of(&[Rank::Ace, Rank::Nine, Rank::Five]);
    assert_eq!(h.get_value().main, 15);
}

#[test]
fn value_adds_ten_once_for_several_aces() {
    let h = hand_of(&[Rank::Ace, Rank::Ace]);
    assert_eq!(h.get_value().main, 12);
    let h = hand_of(&[Rank::Ace, Rank::Ace, Rank::Nine]);
    assert_eq!(h.get_value().main, 21);
    let h = hand_of(&[Rank::Ace, Rank::Ace, Rank::Ace, Rank::King]);
    assert_eq!(h.get_value().main, 13);
}

#[test]
fn empty_hand_scores_zero() {
    let h = Hand::new();
    assert_eq!(h.get_value().main, 0);
    assert_eq!(h.get_value().split, 0);
    assert!(!h.is_blackjack());
}

#[test]
fn cards_are_kept_sorted_by_value() {
    let mut h = Hand::new();
    h.add_card(Card::new(Rank::King, Suit::Hearts), false);
    h.add_card(Card::new(Rank::Three, Suit::Clubs), false);
    h.add_card(Card::new(Rank::Ten, Suit::Spades), false);
    h.add_card(Card::new(Rank::Ace, Suit::Diamonds), false);
    let ranks: Vec<Rank> = h.cards().iter().map(|c| c.rank).collect();
    assert_eq!(ranks, vec![Rank::Ace, Rank::Three, Rank::King, Rank::Ten]);
}

#[test]
fn split_of_a_pair_then_refused() {
    let mut h = hand_of(&[Rank::Eight, Rank::Eight]);
    assert!(h.can_split());
    assert!(h.make_split());
    assert_eq!(h.cards().len(), 1);
    assert_eq!(h.split_cards().len(), 1);
    assert_eq!(h.get_value().main, 8);
    assert_eq!(h.get_value().split, 8);
    assert!(!h.make_split());
    assert_eq!(h.cards().len(), 1);
    assert_eq!(h.split_cards().len(), 1);
}

#[test]
fn split_refused_off_a_pair() {
    let mut h = hand_of(&[Rank::Ten, Rank::King]);
    assert!(!h.make_split());
    assert_eq!(h.cards().len(), 2);
    assert_eq!(h.split_cards().len(), 0);
    let mut h = hand_of(&[Rank::Four, Rank::Four, Rank::Four]);
    assert!(!h.make_split());
    let mut h = hand_of(&[Rank::Four]);
    assert!(!h.make_split());
}

#[test]
fn no_resplit_after_the_main_hand_pairs_again() {
    let mut h = hand_of(&[Rank::Six, Rank::Six]);
    assert!(h.make_split());
    h.add_card(c(Rank::Six), false);
    assert_eq!(h.cards().len(), 2);
    assert!(!h.make_split());
}

#[test]
fn split_of_aces_keeps_both_soft() {
    let mut h = hand_of(&[Rank::Ace, Rank::Ace]);
    assert!(h.make_split());
    assert_eq!(h.get_value().main, 11);
    assert_eq!(h.get_value().split, 11);
    h.add_card(c(Rank::King), true);
    assert_eq!(h.get_value().split, 21);
}

#[test]
fn blackjack_needs_ace_and_face() {
    assert!(hand_of(&[Rank::Ace, Rank::King]).is_blackjack());
    assert!(hand_of(&[Rank::Jack, Rank::Ace]).is_blackjack());
    assert!(!hand_of(&[Rank::Ace, Rank::Ten]).is_blackjack());
    assert_eq!(hand_of(&[Rank::Ace, Rank::Ten]).get_value().main, 21);
    assert!(!hand_of(&[Rank::Seven, Rank::Seven, Rank::Seven]).is_blackjack());
    assert!(!hand_of(&[Rank::King, Rank::Queen]).is_blackjack());
}

#[test]
fn clear_hand_empties_and_resets_aces() {
    let mut h = hand_of(&[Rank::Ace, Rank::Ace]);
    assert!(h.make_split());
    h.clear_hand();
    assert_eq!(h.cards().len(), 0);
    assert_eq!(h.split_cards().len(), 0);
    h.add_card(c(Rank::Five), false);
    h.add_card(c(Rank::Six), false);
    assert_eq!(h.get_value().main, 11);
}

#[test]
fn stake_return_payout() {
    let mut m = Money::new();
    m.make_wallet(Some(100));
    assert_eq!(m.make_bet(false, Some(40)), Ok(()));
    assert_eq!(m.wallet(), 60);
    assert_eq!(m.bet(), 40);
    m.win(false);
    assert_eq!(m.wallet(), 100);
}

#[test]
fn win_then_double_debits_after_the_return() {
    let mut m = Money::new();
    m.make_wallet(Some(100));
    m.make_bet(false, Some(40)).unwrap();
    m.win(false);
    assert_eq!(m.double(false), Ok(()));
    assert_eq!(m.wallet(), 60);
    assert_eq!(m.bet(), 80);
}

#[test]
fn wager_over_wallet_is_refused() {
    let mut m = Money::new();
    m.make_wallet(Some(30));
    assert_eq!(m.make_bet(false, Some(31)), Err(GameError::InsufficientFunds));
    assert_eq!(m.wallet(), 30);
    assert_eq!(m.bet(), 0);
    assert_eq!(m.make_bet(false, Some(30)), Ok(()));
    assert_eq!(m.wallet(), 0);
}

#[test]
fn double_over_wallet_is_refused() {
    let mut m = Money::new();
    m.make_wallet(Some(50));
    m.make_bet(false, Some(30)).unwrap();
    assert_eq!(m.double(false), Err(GameError::InsufficientFunds));
    assert_eq!(m.wallet(), 20);
    assert_eq!(m.bet(), 30);
}

#[test]
fn unreadable_wager_repeats_the_last_one() {
    let mut m = Money::new();
    m.make_wallet(Some(100));
    assert_eq!(m.make_bet(false, None), Ok(()));
    assert_eq!(m.bet(), 0);
    assert_eq!(m.wallet(), 100);
    m.make_bet(false, Some(25)).unwrap();
    assert_eq!(m.last_bet(), 25);
    m.make_bet(false, None).unwrap();
    assert_eq!(m.bet(), 25);
    assert_eq!(m.wallet(), 50);
}

#[test]
fn split_wager_debits_the_main_wager() {
    let mut m = Money::new();
    m.make_wallet(Some(100));
    m.make_bet(false, Some(40)).unwrap();
    assert_eq!(m.make_bet(true, Some(30)), Ok(()));
    assert_eq!(m.split_bet(), 30);
    assert_eq!(m.bet(), 40);
    assert_eq!(m.last_bet(), 40);
    assert_eq!(m.wallet(), 20);
    m.win(true);
    assert_eq!(m.wallet(), 50);
}

#[test]
fn unreadable_wallet_is_empty() {
    let mut m = Money::default();
    m.make_wallet(None);
    assert_eq!(m.wallet(), 0);
}

#[test]
fn finite_shoe_runs_out() {
    let mut d = Deck::from_cards(vec![c(Rank::Seven)], false);
    assert_eq!(d.hit(), Ok(c(Rank::Seven)));
    assert_eq!(d.remaining(), 0);
    assert_eq!(d.hit(), Err(GameError::EmptyShoe));
}

#[test]
fn reshuffling_shoe_never_shrinks() {
    let mut d = Deck::from_cards(vec![c(Rank::Two), c(Rank::Three), c(Rank::Four)], true);
    let first = d.hit().unwrap();
    assert_eq!(first, c(Rank::Four));
    for _ in 0..20 {
        d.hit().unwrap();
        assert_eq!(d.remaining(), 3);
    }
}

#[test]
fn fresh_deck_holds_each_card_once() {
    let mut d = Deck::new(false);
    assert_eq!(d.remaining(), 52);
    assert!(!d.is_reshuffling());
    let mut seen: Vec<Card> = Vec::new();
    while let Ok(card) = d.hit() {
        assert!(!seen.contains(&card));
        seen.push(card);
    }
    assert_eq!(seen.len(), 52);
    let aces = seen.iter().filter(|c| c.rank == Rank::Ace).count();
    let hearts = seen.iter().filter(|c| c.suit == Suit::Hearts).count();
    assert_eq!(aces, 4);
    assert_eq!(hearts, 13);
}

#[test]
fn fresh_deck_is_shuffled() {
    let ordered: Vec<Card> = (0..52usize)
        .map(|k| Card::new(Rank::at_position(k % 13), Suit::at_position(k / 13)))
        .collect();
    let mut found_other_order = false;
    for _ in 0..3 {
        let mut d = Deck::new(false);
        let mut drawn: Vec<Card> = Vec::new();
        while let Ok(card) = d.hit() {
            drawn.push(card);
        }
        drawn.reverse();
        if drawn != ordered {
            found_other_order = true;
        }
    }
    assert!(found_other_order);
}

#[test]
fn blackjack_beats_dealer_twenty_one() {
    let deck = shoe([Rank::Ace, Rank::King], [Rank::Nine, Rank::Seven], &[Rank::Five]);
    let (g, step) = dealt_game(deck, 100, 10);
    assert_eq!(statuses(step), vec![GameStatus::Win]);
    assert_eq!(g.dealer_hand().get_value().main, 21);
    assert!(!g.dealer_hand().is_blackjack());
    assert_eq!(g.money().wallet(), 100);
    assert_eq!(g.phase(), Phase::AwaitingBet);
}

#[test]
fn plain_twenty_one_ties_dealer_blackjack() {
    let deck = shoe([Rank::Seven, Rank::Seven], [Rank::Ace, Rank::Queen], &[Rank::Seven]);
    let (mut g, step) = dealt_game(deck, 100, 10);
    assert!(matches!(step, Step::AskAction));
    let step = g.play(Event::Choice(Action::Hit)).unwrap();
    assert_eq!(g.player_hand().get_value().main, 21);
    assert!(!g.player_hand().is_blackjack());
    assert!(g.dealer_hand().is_blackjack());
    assert_eq!(statuses(step), vec![GameStatus::Tie]);
    assert_eq!(g.money().wallet(), 90);
}

#[test]
fn scenario_blackjack_against_sixteen() {
    let deck = shoe([Rank::Ace, Rank::King], [Rank::Nine, Rank::Seven], &[Rank::Ten]);
    let (g, step) = dealt_game(deck, 100, 40);
    assert_eq!(statuses(step), vec![GameStatus::Win]);
    assert_eq!(g.dealer_hand().get_value().main, 26);
    assert_eq!(g.money().wallet(), 100);
}

#[test]
fn scenario_pair_of_eights_against_six() {
    let deck = shoe([Rank::Eight, Rank::Eight], [Rank::Six, Rank::Ten], &[]);
    let (mut g, step) = dealt_game(deck, 100, 10);
    assert!(matches!(step, Step::AskAction));
    assert_eq!(g.basic_stategy_pairs(), Decision::Split);
    assert_eq!(g.advise(), Decision::Split);
    let step = g.play(Event::Choice(Action::Split)).unwrap();
    assert!(matches!(step, Step::AskSplitBet));
    assert_eq!(g.phase(), Phase::SplitWager);
    let step = g.play(Event::Amount(Some(10))).unwrap();
    assert!(matches!(step, Step::AskSplitAction));
    assert_eq!(g.money().wallet(), 80);
    assert_eq!(g.money().split_bet(), 10);
}

#[test]
fn scenario_hard_sixteen_against_ten() {
    let deck = shoe([Rank::Ten, Rank::Six], [Rank::Ten, Rank::King], &[]);
    let (g, step) = dealt_game(deck, 100, 10);
    assert!(matches!(step, Step::AskAction));
    assert_eq!(g.player_hand().get_value().main, 16);
    assert_eq!(g.basic_strategy_hard_totals(), Decision::Hit);
    assert_eq!(g.advise(), Decision::Hit);
}

#[test]
fn soft_table_on_ace_seven() {
    let deck = shoe([Rank::Ace, Rank::Seven], [Rank::Two, Rank::Nine], &[]);
    let (g, _) = dealt_game(deck, 100, 10);
    assert_eq!(g.basic_strategy_soft_totals(), Decision::Double);
    assert_eq!(g.advise(), Decision::Double);
    let deck = shoe([Rank::Ace, Rank::Nine], [Rank::Six, Rank::Ten], &[]);
    let (g, _) = dealt_game(deck, 100, 10);
    assert_eq!(g.basic_strategy_soft_totals(), Decision::Stand);
    let deck = shoe([Rank::Ace, Rank::Eight], [Rank::Six, Rank::Ten], &[]);
    let (g, _) = dealt_game(deck, 100, 10);
    assert_eq!(g.basic_strategy_soft_totals(), Decision::Double);
}

#[test]
fn soft_table_needs_two_cards_with_an_ace() {
    let deck = shoe([Rank::Ten, Rank::Six], [Rank::Five, Rank::Ten], &[]);
    let (g, _) = dealt_game(deck, 100, 10);
    assert_eq!(g.basic_strategy_soft_totals(), Decision::NoEntry);
}

#[test]
fn tables_without_an_up_card() {
    let g = Game::new(Deck::from_cards(Vec::new(), false));
    assert_eq!(g.basic_strategy_hard_totals(), Decision::NoEntry);
    assert_eq!(g.basic_strategy_soft_totals(), Decision::NoEntry);
    assert_eq!(g.basic_stategy_pairs(), Decision::NoEntry);
    assert_eq!(g.advise(), Decision::NoEntry);
}

#[test]
fn hard_table_rows() {
    let cases = [
        ([Rank::Ten, Rank::Three], Rank::Two, Decision::Stand),
        ([Rank::Ten, Rank::Two], Rank::Two, Decision::Hit),
        ([Rank::Six, Rank::Four], Rank::Two, Decision::Double),
        ([Rank::Six, Rank::Three], Rank::Three, Decision::Double),
        ([Rank::Five, Rank::Three], Rank::Three, Decision::Hit),
        ([Rank::Ten, Rank::Two], Rank::Four, Decision::Stand),
        ([Rank::Six, Rank::Three], Rank::Five, Decision::Double),
        ([Rank::Six, Rank::Four], Rank::Seven, Decision::Double),
        ([Rank::Ten, Rank::Five], Rank::Nine, Decision::Hit),
        ([Rank::Ten, Rank::Seven], Rank::Eight, Decision::Stand),
        ([Rank::Six, Rank::Four], Rank::Queen, Decision::Hit),
        ([Rank::Six, Rank::Five], Rank::Ace, Decision::Double),
    ];
    for (player, up, expected) in cases {
        let deck = shoe(player, [up, Rank::King], &[]);
        let (g, _) = dealt_game(deck, 100, 10);
        assert_eq!(g.basic_strategy_hard_totals(), expected, "{:?} against {:?}", player, up);
    }
}

#[test]
fn pair_table_rows() {
    let cases = [
        (Rank::Ten, Rank::Three, Decision::Stand),
        (Rank::Five, Rank::Four, Decision::Double),
        (Rank::Four, Rank::Two, Decision::Hit),
        (Rank::Nine, Rank::Seven, Decision::Stand),
        (Rank::Six, Rank::Seven, Decision::Hit),
        (Rank::Three, Rank::Eight, Decision::Hit),
        (Rank::Eight, Rank::Nine, Decision::Split),
        (Rank::Ace, Rank::King, Decision::Split),
        (Rank::Seven, Rank::Ace, Decision::Hit),
        (Rank::Nine, Rank::Ten, Decision::Stand),
    ];
    for (pair, up, expected) in cases {
        let deck = shoe([pair, pair], [up, Rank::King], &[]);
        let (g, _) = dealt_game(deck, 100, 10);
        assert_eq!(g.basic_stategy_pairs(), expected, "{:?} against {:?}", pair, up);
    }
}

#[test]
fn dealer_draws_to_seventeen() {
    let deck = shoe([Rank::Ten, Rank::Nine], [Rank::Two, Rank::Three], &[Rank::Four, Rank::Five, Rank::Nine]);
    let (mut g, _) = dealt_game(deck, 100, 10);
    assert_eq!(g.dealer_turn(), Ok(()));
    assert_eq!(g.dealer_hand().get_value().main, 23);
    assert_eq!(g.dealer_hand().cards().len(), 5);
    assert_eq!(g.dealer_turn(), Ok(()));
    assert_eq!(g.dealer_hand().cards().len(), 5);
}

#[test]
fn dealer_stands_on_soft_seventeen() {
    let deck = shoe([Rank::Ten, Rank::Nine], [Rank::Ace, Rank::Six], &[Rank::Five]);
    let (mut g, _) = dealt_game(deck, 100, 10);
    assert_eq!(g.dealer_turn(), Ok(()));
    assert_eq!(g.dealer_hand().get_value().main, 17);
    assert_eq!(g.dealer_hand().cards().len(), 2);
}

#[test]
fn dealer_turn_runs_out_of_cards() {
    let deck = shoe([Rank::Ten, Rank::Nine], [Rank::Two, Rank::Three], &[Rank::Four]);
    let (mut g, _) = dealt_game(deck, 100, 10);
    assert_eq!(g.dealer_turn(), Err(GameError::EmptyShoe));
    assert_eq!(g.dealer_hand().get_value().main, 9);
}

#[test]
fn stand_settles_the_round() {
    let deck = shoe([Rank::Ten, Rank::Nine], [Rank::Ten, Rank::Seven], &[]);
    let (mut g, _) = dealt_game(deck, 100, 10);
    let step = g.play(Event::Choice(Action::Stand)).unwrap();
    assert_eq!(statuses(step), vec![GameStatus::Win]);
    assert_eq!(g.money().wallet(), 100);
    let deck = shoe([Rank::Ten, Rank::Six], [Rank::Ten, Rank::Eight], &[]);
    let (mut g, _) = dealt_game(deck, 100, 10);
    let step = g.play(Event::Choice(Action::Stand)).unwrap();
    assert_eq!(statuses(step), vec![GameStatus::Lose]);
    assert_eq!(g.money().wallet(), 90);
    let deck = shoe([Rank::Ten, Rank::Eight], [Rank::Ten, Rank::Eight], &[]);
    let (mut g, _) = dealt_game(deck, 100, 10);
    let step = g.play(Event::Choice(Action::Stand)).unwrap();
    assert_eq!(statuses(step), vec![GameStatus::Tie]);
}

#[test]
fn player_bust_skips_the_dealer() {
    let deck = shoe([Rank::Ten, Rank::Six], [Rank::Two, Rank::Three], &[Rank::King, Rank::Nine]);
    let (mut g, _) = dealt_game(deck, 100, 10);
    let step = g.play(Event::Choice(Action::Hit)).unwrap();
    assert_eq!(g.player_hand().get_value().main, 26);
    assert_eq!(statuses(step), vec![GameStatus::Lose]);
    assert_eq!(g.dealer_hand().cards().len(), 2);
}

#[test]
fn dealer_bust_with_player_bust_is_a_tie() {
    let deck = shoe([Rank::Ten, Rank::Six], [Rank::Ten, Rank::Six], &[Rank::King]);
    let (mut g, _) = dealt_game(deck, 100, 10);
    let step = g.play(Event::Choice(Action::Hit)).unwrap();
    assert_eq!(statuses(step), vec![GameStatus::Lose]);
}

#[test]
fn double_doubles_the_wager_and_draws() {
    let deck = shoe([Rank::Six, Rank::Five], [Rank::Ten, Rank::Seven], &[Rank::Two]);
    let (mut g, _) = dealt_game(deck, 100, 20);
    let step = g.play(Event::Choice(Action::Double)).unwrap();
    assert!(matches!(step, Step::AskAction));
    assert_eq!(g.money().bet(), 40);
    assert_eq!(g.money().wallet(), 60);
    assert_eq!(g.player_hand().get_value().main, 13);
    let step = g.play(Event::Choice(Action::Stand)).unwrap();
    assert_eq!(statuses(step), vec![GameStatus::Lose]);
}

#[test]
fn double_without_funds_is_refused() {
    let deck = shoe([Rank::Six, Rank::Five], [Rank::Ten, Rank::Seven], &[Rank::Two]);
    let (mut g, _) = dealt_game(deck, 30, 20);
    assert_eq!(g.play(Event::Choice(Action::Double)), Err(GameError::InsufficientFunds));
    assert_eq!(g.money().wallet(), 10);
    assert_eq!(g.phase(), Phase::PlayerTurn);
}

#[test]
fn split_off_a_pair_is_ineligible() {
    let deck = shoe([Rank::Six, Rank::Five], [Rank::Ten, Rank::Seven], &[]);
    let (mut g, _) = dealt_game(deck, 100, 20);
    assert_eq!(g.play(Event::Choice(Action::Split)), Err(GameError::IneligibleSplit));
    assert_eq!(g.phase(), Phase::PlayerTurn);
    assert_eq!(g.player_hand().cards().len(), 2);
}

#[test]
fn split_round_settles_both_hands() {
    let deck = shoe([Rank::Nine, Rank::Nine], [Rank::Ten, Rank::Seven], &[Rank::Ten]);
    let (mut g, _) = dealt_game(deck, 100, 20);
    g.play(Event::Choice(Action::Split)).unwrap();
    g.play(Event::Amount(Some(15))).unwrap();
    assert_eq!(g.money().wallet(), 60);
    assert_eq!(g.play(Event::Choice(Action::Split)), Err(GameError::IneligibleSplit));
    let step = g.play(Event::Choice(Action::Hit)).unwrap();
    assert_eq!(g.player_hand().get_value().split, 19);
    assert!(matches!(step, Step::AskSplitAction));
    let step = g.play(Event::Choice(Action::Stand)).unwrap();
    assert_eq!(statuses(step), vec![GameStatus::Lose, GameStatus::Win]);
    assert_eq!(g.money().wallet(), 75);
}

#[test]
fn bet_over_wallet_is_refused_and_kept_waiting() {
    let deck = shoe([Rank::Six, Rank::Five], [Rank::Ten, Rank::Seven], &[]);
    let mut g = Game::new(deck);
    g.play(Event::Amount(Some(50))).unwrap();
    assert_eq!(g.play(Event::Amount(Some(60))), Err(GameError::InsufficientFunds));
    assert_eq!(g.phase(), Phase::AwaitingBet);
    assert_eq!(g.deck().remaining(), 4);
}

#[test]
fn empty_wallet_ends_the_session() {
    let mut g = Game::new(Deck::from_cards(Vec::new(), false));
    let step = g.play(Event::Amount(None)).unwrap();
    assert!(matches!(step, Step::GameOver));
    assert_eq!(g.phase(), Phase::GameOver);
    assert!(matches!(g.play(Event::Amount(Some(5))).unwrap(), Step::GameOver));
}

#[test]
fn losing_everything_ends_the_session() {
    let deck = shoe([Rank::Ten, Rank::Six], [Rank::Ten, Rank::Eight], &[]);
    let (mut g, _) = dealt_game(deck, 10, 10);
    let step = g.play(Event::Choice(Action::Stand)).unwrap();
    assert_eq!(statuses(step), vec![GameStatus::Lose]);
    assert_eq!(g.phase(), Phase::GameOver);
}

#[test]
fn deal_from_a_short_shoe_fails() {
    let deck = Deck::from_cards(vec![c(Rank::Two), c(Rank::Three), c(Rank::Four)], false);
    let mut g = Game::new(deck);
    g.play(Event::Amount(Some(10))).unwrap();
    assert_eq!(g.play(Event::Amount(Some(5))), Err(GameError::EmptyShoe));
    assert_eq!(g.phase(), Phase::GameOver);
}

#[test]
fn answer_out_of_turn_repeats_the_question() {
    let mut g = Game::new(Deck::new(true));
    let step = g.play(Event::Choice(Action::Hit)).unwrap();
    assert!(matches!(step, Step::AskWallet));
    assert_eq!(g.phase(), Phase::AwaitingWallet);
    assert!(matches!(g.prompt(), Step::AskWallet));
}

#[test]
fn actions_from_characters() {
    assert_eq!(Action::from_char('h'), Some(Action::Hit));
    assert_eq!(Action::from_char('s'), Some(Action::Stand));
    assert_eq!(Action::from_char('d'), Some(Action::Double));
    assert_eq!(Action::from_char('p'), Some(Action::Split));
    assert_eq!(Action::from_char('x'), None);
}

#[test]
fn automated_zero_rounds() {
    let mut g = Game::default();
    assert!(g.run_automated(0).is_empty());
    assert!(g.basic_strategy_play(0).is_empty());
    assert!(g.money().wallet() >= 100);
}

#[test]
fn automated_rounds_stop_at_the_limit() {
    let mut g = Game::default();
    let st = g.basic_strategy_play(25);
    assert!(st.len() <= 25);
    assert!(st.len() == 25 || g.money().wallet() == 0);
}

#[test]
fn automated_without_money_plays_nothing() {
    let mut g = Game::default();
    assert!(g.run_automated(10).is_empty());
}

#[test]
fn automated_round_on_a_known_shoe() {
    let deck = shoe([Rank::Ten, Rank::Nine], [Rank::Ten, Rank::Seven], &[]);
    let mut g = Game::new(deck);
    g.play(Event::Amount(Some(1))).unwrap();
    let st = g.run_automated(3);
    assert_eq!(st, vec![GameStatus::Win]);
    assert_eq!(g.deck().remaining(), 0);
    // the second round's wager was placed before the shoe ran out
    assert_eq!(g.money().wallet(), 0);
    assert_eq!(g.money().bet(), 1);
}

#[test]
fn automated_stops_when_the_shoe_runs_out() {
    let deck = Deck::from_cards(vec![c(Rank::Two)], false);
    let mut g = Game::new(deck);
    g.play(Event::Amount(Some(50))).unwrap();
    assert!(g.run_automated(3).is_empty());
}

#[test]
fn tables_by_up_card_bucket() {
    assert_eq!(hard_table(Rank::Two, 12), Decision::Hit);
    assert_eq!(hard_table(Rank::Two, 9), Decision::Hit);
    assert_eq!(hard_table(Rank::Two, 10), Decision::Double);
    assert_eq!(hard_table(Rank::Three, 9), Decision::Double);
    assert_eq!(hard_table(Rank::Six, 12), Decision::Stand);
    assert_eq!(hard_table(Rank::Nine, 17), Decision::Stand);
    assert_eq!(hard_table(Rank::King, 10), Decision::Hit);
    assert_eq!(hard_table(Rank::Ace, 16), Decision::Hit);
    assert_eq!(soft_table(Rank::Three, 6), Decision::Double);
    assert_eq!(soft_table(Rank::Three, 5), Decision::Hit);
    assert_eq!(soft_table(Rank::Four, 4), Decision::Double);
    assert_eq!(soft_table(Rank::Five, 7), Decision::Hit);
    assert_eq!(soft_table(Rank::Six, 9), Decision::Stand);
    assert_eq!(soft_table(Rank::Six, 2), Decision::Double);
    assert_eq!(soft_table(Rank::Eight, 7), Decision::Stand);
    assert_eq!(soft_table(Rank::Nine, 7), Decision::Hit);
    assert_eq!(soft_table(Rank::Ace, 8), Decision::Stand);
    assert_eq!(pair_table(Rank::Six, 8), Decision::Split);
    assert_eq!(pair_table(Rank::Five, 5), Decision::Double);
    assert_eq!(pair_table(Rank::Seven, 8), Decision::Split);
    assert_eq!(pair_table(Rank::Eight, 9), Decision::Split);
    assert_eq!(pair_table(Rank::Nine, 7), Decision::Hit);
    assert_eq!(pair_table(Rank::Ten, 1), Decision::Split);
    assert_eq!(pair_table(Rank::Jack, 5), Decision::Hit);
}

#[test]
fn automated_on_a_small_reshuffling_shoe_never_runs_out() {
    let deck = Deck::from_cards(vec![c(Rank::Two), c(Rank::Nine), c(Rank::King)], true);
    let mut g = Game::new(deck);
    g.play(Event::Amount(Some(1000))).unwrap();
    let st = g.run_automated(8);
    assert!(st.len() == 8 || g.money().wallet() == 0);
    assert_eq!(g.deck().remaining(), 3);
}

#[test]
fn init_game_deals_two_each_from_a_reshuffling_shoe() {
    let deck = Deck::from_cards(vec![c(Rank::Five)], true);
    let mut g = Game::new(deck);
    g.play(Event::Amount(Some(100))).unwrap();
    assert_eq!(g.init_game(Some(30)), Ok(()));
    assert_eq!(g.player_hand().cards().len(), 2);
    assert_eq!(g.dealer_hand().cards().len(), 2);
    assert_eq!(g.money().wallet(), 70);
    assert_eq!(g.money().bet(), 30);
}

#[test]
fn init_game_from_a_short_finite_shoe_keeps_what_was_dealt() {
    let deck = Deck::from_cards(vec![c(Rank::Four), c(Rank::Three)], false);
    let mut g = Game::new(deck);
    g.play(Event::Amount(Some(100))).unwrap();
    assert_eq!(g.init_game(Some(30)), Err(GameError::EmptyShoe));
    assert_eq!(g.player_hand().cards().len(), 1);
    assert_eq!(g.dealer_hand().cards().len(), 1);
    assert_eq!(g.deck().remaining(), 0);
}
