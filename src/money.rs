use vstd::prelude::*;
use crate::error::GameError;

verus! {

/// The ledger as numbers: the wallet, the main and split wagers, and the
/// last main wager placed.
pub struct MoneyView {
    pub wallet: nat,
    pub bet: nat,
    pub split_bet: nat,
    pub last_bet: nat,
}

/// The largest amount the ledger holds.
pub open spec fn max_amount() -> nat {
    u32::MAX as nat
}

pub open spec fn min_amount(a: nat, b: nat) -> nat {
    if a <= b {
        a
    } else {
        b
    }
}

/// The wager of the split hand when `split` holds, else of the main hand.
pub open spec fn wager_of(m: MoneyView, split: bool) -> nat {
    if split {
        m.split_bet
    } else {
        m.bet
    }
}

/// Placing a wager: an amount that could not be read repeats the last main
/// wager. A split wager sets the split wager only; a main wager sets the
/// main and the last wager. Either way the wallet is debited by the main
/// wager, and refused when that exceeds the wallet.
pub open spec fn placed(m: MoneyView, split: bool, amount: Option<u32>) -> Result<
    MoneyView,
    GameError,
> {
    let a = match amount {
        Some(x) => x as nat,
        None => m.last_bet,
    };
    let bet = if split {
        m.bet
    } else {
        a
    };
    if bet > m.wallet {
        Err(GameError::InsufficientFunds)
    } else if split {
        Ok(MoneyView { wallet: (m.wallet - bet) as nat, split_bet: a, ..m })
    } else {
        Ok(MoneyView { wallet: (m.wallet - bet) as nat, bet: a, last_bet: a, ..m })
    }
}

/// Doubling a wager: the wallet pays the wager once more, and the wager
/// doubles (held at the largest amount). Refused when the wager exceeds
/// the wallet.
pub open spec fn doubled(m: MoneyView, split: bool) -> Result<MoneyView, GameError> {
    let w = wager_of(m, split);
    if w > m.wallet {
        Err(GameError::InsufficientFunds)
    } else if split {
        Ok(MoneyView { wallet: (m.wallet - w) as nat, split_bet: min_amount(2 * w, max_amount()), ..m })
    } else {
        Ok(MoneyView { wallet: (m.wallet - w) as nat, bet: min_amount(2 * w, max_amount()), ..m })
    }
}

/// A win returns the wager to the wallet (held at the largest amount); no
/// profit is added on top of it.
pub open spec fn credited(m: MoneyView, split: bool) -> MoneyView {
    MoneyView { wallet: min_amount(m.wallet + wager_of(m, split), max_amount()), ..m }
}

/// The wallet and the wagers of one session.
#[derive(Debug)]
pub struct Money {
    wallet: u32,
    bet: u32,
    split_bet: u32,
    last_bet: u32,
}

impl View for Money {
    type V = MoneyView;

    closed spec fn view(&self) -> MoneyView {
        MoneyView {
            wallet: self.wallet as nat,
            bet: self.bet as nat,
            split_bet: self.split_bet as nat,
            last_bet: self.last_bet as nat,
        }
    }
}

impl Money {
    /// An empty ledger: every amount is 0.
    pub fn new() -> (m: Money)
        ensures
            m@ == (MoneyView { wallet: 0, bet: 0, split_bet: 0, last_bet: 0 }),
    {
        Money { wallet: 0, bet: 0, split_bet: 0, last_bet: 0 }
    }

    pub fn wallet(&self) -> (r: u32)
        ensures
            r as nat == self@.wallet,
    {
        self.wallet
    }

    pub fn bet(&self) -> (r: u32)
        ensures
            r as nat == self@.bet,
    {
        self.bet
    }

    pub fn split_bet(&self) -> (r: u32)
        ensures
            r as nat == self@.split_bet,
    {
        self.split_bet
    }

    pub fn last_bet(&self) -> (r: u32)
        ensures
            r as nat == self@.last_bet,
    {
        self.last_bet
    }

    /// Opens the wallet with `amount`, or with nothing when no amount could be read.
    pub fn make_wallet(&mut self, amount: Option<u32>)
        ensures
            final(self)@ == (MoneyView {
                wallet: match amount {
                    Some(x) => x as nat,
                    None => 0,
                },
                ..old(self)@
            }),
    {
        self.wallet = match amount {
            Some(x) => x,
            None => 0,
        };
    }

    /// Places the main wager, or the split wager when `split` holds (see `placed`).
    pub fn make_bet(&mut self, split: bool, amount: Option<u32>) -> (r: Result<(), GameError>)
        ensures
            match placed(old(self)@, split, amount) {
                Ok(m) => r == Ok::<(), GameError>(()) && final(self)@ == m,
                Err(e) => r == Err::<(), GameError>(e) && final(self)@ == old(self)@,
            },
    {
        let a = match amount {
            Some(x) => x,
            None => self.last_bet,
        };
        let bet = if split {
            self.bet
        } else {
            a
        };
        if bet > self.wallet {
            return Err(GameError::InsufficientFunds);
        }
        if split {
            self.split_bet = a;
        } else {
            self.bet = a;
            self.last_bet = a;
        }
        self.wallet = self.wallet - bet;
        Ok(())
    }

    /// Doubles the main wager, or the split wager when `split` holds (see `doubled`).
    pub fn double(&mut self, split: bool) -> (r: Result<(), GameError>)
        ensures
            match doubled(old(self)@, split) {
                Ok(m) => r == Ok::<(), GameError>(()) && final(self)@ == m,
                Err(e) => r == Err::<(), GameError>(e) && final(self)@ == old(self)@,
            },
    {
        let w = if split {
            self.split_bet
        } else {
            self.bet
        };
        if w > self.wallet {
            return Err(GameError::InsufficientFunds);
        }
        self.wallet = self.wallet - w;
        let twice = if w <= u32::MAX / 2 {
            2 * w
        } else {
            u32::MAX
        };
        if split {
            self.split_bet = twice;
        } else {
            self.bet = twice;
        }
        Ok(())
    }

    /// Returns the main wager, or the split wager when `split` holds, to the
    /// wallet (see `credited`).
    pub fn win(&mut self, split: bool)
        ensures
            final(self)@ == credited(old(self)@, split),
    {
        let w = if split {
            self.split_bet
        } else {
            self.bet
        };
        self.wallet = self.wallet.saturating_add(w);
    }
}

impl Default for Money {
    fn default() -> (m: Money)
        ensures
            m@ == (MoneyView { wallet: 0, bet: 0, split_bet: 0, last_bet: 0 }),
    {
        Money::new()
    }
}

/// A win followed at once by doubling the main wager: the returned stake is
/// in the wallet before the double debits it, so the double is never
/// refused, and the wallet ends where it was before the win (when the win
/// did not reach the largest amount).
pub proof fn lemma_win_then_double(m: MoneyView)
    requires
        m.wallet <= max_amount(),
        m.bet <= max_amount(),
    ensures
        doubled(credited(m, false), false) is Ok,
        doubled(credited(m, false), false)->Ok_0.wallet == min_amount(m.wallet + m.bet, max_amount())
            - m.bet,
        m.wallet + m.bet <= max_amount() ==> doubled(credited(m, false), false)->Ok_0 == (MoneyView {
            bet: min_amount(2 * m.bet, max_amount()),
            ..m
        }),
{
}

} // verus!
