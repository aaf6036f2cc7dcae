//! The per-seat betting state machine: a player's balance, the chips
//! wagered in the current round, the chips collected for the whole hand,
//! and the lifecycle state that decides which actions are legal.
//!
//! Chips only ever move between `balance`, `current_bet` and `total_bet`;
//! the sum of the three is changed by nothing here except `collect_win`,
//! which adds the pot a player has won.

use vstd::prelude::*;

use crate::cards::Card;
use crate::errors::GameError;

verus! {

/// The lifecycle state of one seated player.
#[derive(Clone, Copy, Debug, PartialEq, Eq, Structural)]
pub enum PlayerState {
    /// Marked ready for the table to start; pre-hand only.
    Ready,
    /// Not yet ready; pre-hand only.
    NotReady,
    /// Owes a decision in the current betting round.
    Active,
    /// Checked in the current round.
    Check,
    /// Called in the current round.
    Call,
    /// Has wagered the whole balance; acts no further but stays in the hand.
    AllIn,
    /// Folded; absorbing for the remainder of the hand.
    Folded,
    /// Left the table; absorbing.
    Left,
}

/// An action a player can take when it is their turn.
#[derive(Clone, Copy, Debug, PartialEq, Eq, Structural)]
pub enum PlayerAction {
    Check,
    Call,
    Bet,
    Fold,
    AllIn,
}

/// One occupied seat's betting state.
#[derive(Debug)]
pub struct Player {
    /// The seat this player occupies; fixed at join time.
    pub seat_index: u8,
    /// Chips not currently wagered.
    pub balance: u64,
    /// Chips wagered in the current betting round.
    pub current_bet: u64,
    /// Chips wagered and collected across the whole hand.
    pub total_bet: u64,
    /// Where the player stands in the betting state machine.
    pub state: PlayerState,
    /// A cosmetic avatar selector chosen at join time.
    pub appearance_type: u8,
    /// The two hole cards; placeholders until a hand deals real ones.
    pub cards: Vec<Card>,
}

/// The chips a player holds claim to: balance plus both wager pools.
pub open spec fn player_chips(p: Player) -> int {
    p.balance + p.current_bet + p.total_bet
}

/// Whether the player may still act in this hand.
pub open spec fn can_act(p: Player) -> bool {
    p.state != PlayerState::Folded && p.state != PlayerState::Left
}

/// The result of a bet of `amount`: chips move from balance to the
/// current-round wager, and the state becomes `Active`, or `AllIn` when
/// the balance is exhausted.
pub open spec fn bet_step(p: Player, amount: u64) -> Result<(Player, u64), GameError> {
    if amount > p.balance {
        Err(GameError::InsufficientBalance)
    } else {
        let nb = (p.balance - amount) as u64;
        let nc = (p.current_bet + amount) as u64;
        let st = if nb == 0 {
            PlayerState::AllIn
        } else {
            PlayerState::Active
        };
        Ok((Player { balance: nb, current_bet: nc, state: st, ..p }, nc))
    }
}

/// The result of calling up to a round total of `target`: the shortfall
/// moves from balance to the current-round wager.
pub open spec fn call_step(p: Player, target: u64) -> Result<(Player, u64), GameError> {
    let delta = target - p.current_bet;
    if delta > p.balance {
        Err(GameError::InsufficientBalance)
    } else {
        let nb = (p.balance - delta) as u64;
        let st = if nb == 0 {
            PlayerState::AllIn
        } else {
            PlayerState::Call
        };
        Ok((Player { balance: nb, current_bet: target, state: st, ..p }, target))
    }
}

/// The result of a check against a round total of `target`: legal only
/// when the current wager already covers the target.
pub open spec fn check_step(p: Player, target: u64) -> Result<(Player, u64), GameError> {
    if p.current_bet < target {
        Err(GameError::BetTooSmall)
    } else {
        Ok((Player { state: PlayerState::Check, ..p }, p.current_bet))
    }
}

/// The result of going all in: the whole balance joins the current wager.
pub open spec fn all_in_step(p: Player) -> Result<(Player, u64), GameError> {
    let nc = (p.current_bet + p.balance) as u64;
    Ok((
        Player { balance: 0, current_bet: nc, state: PlayerState::AllIn, ..p },
        nc,
    ))
}

/// The result of folding: the state becomes absorbing and chips already
/// wagered stay forfeited in the wager pools.
pub open spec fn fold_step(p: Player) -> Result<(Player, u64), GameError> {
    Ok((Player { state: PlayerState::Folded, ..p }, p.balance))
}

/// The whole player state machine as one transition: what `perform_action`
/// returns and leaves behind, for every state and action.
pub open spec fn player_step(p: Player, action: PlayerAction, amount: u64) -> Result<
    (Player, u64),
    GameError,
> {
    if !can_act(p) {
        Err(GameError::PlayerInactive)
    } else {
        match action {
            PlayerAction::Bet => bet_step(p, amount),
            PlayerAction::AllIn => all_in_step(p),
            PlayerAction::Call => call_step(p, amount),
            PlayerAction::Check => check_step(p, amount),
            PlayerAction::Fold => fold_step(p),
        }
    }
}

/// No action creates or destroys chips: a successful step leaves
/// `balance + current_bet + total_bet` unchanged, along with the seat,
/// the hole cards and the hand total.
pub proof fn lemma_player_step_preserves_chips(p: Player, action: PlayerAction, amount: u64)
    requires
        action == PlayerAction::Bet && amount <= p.balance ==> p.current_bet + amount <= u64::MAX,
        action == PlayerAction::Call ==> amount >= p.current_bet,
        action == PlayerAction::AllIn ==> p.current_bet + p.balance <= u64::MAX,
    ensures
        player_step(p, action, amount) matches Ok((q, _)) ==> {
            &&& player_chips(q) == player_chips(p)
            &&& q.seat_index == p.seat_index
            &&& q.total_bet == p.total_bet
            &&& q.cards == p.cards
        },
{
}

impl Player {
    /// Seats a fresh player with the table's initial balance, not yet
    /// ready, with placeholder hole cards until a hand is dealt.
    pub fn new_player(seat_index: u8, balance: u64, appearance_type: u8) -> (p: Player)
        ensures
            p.seat_index == seat_index,
            p.balance == balance,
            p.current_bet == 0,
            p.total_bet == 0,
            p.state == PlayerState::NotReady,
            p.appearance_type == appearance_type,
            p.cards@.len() == 2,
    {
        let placeholder = Card::new(crate::cards::Color::Spades, crate::cards::Rank::Two);
        let mut cards: Vec<Card> = Vec::new();
        cards.push(placeholder);
        cards.push(placeholder);
        Player {
            seat_index,
            balance,
            current_bet: 0,
            total_bet: 0,
            state: PlayerState::NotReady,
            appearance_type,
            cards,
        }
    }

    /// Toggles readiness; legal only pre-hand, which the table enforces.
    pub fn set_ready(&mut self, ready: bool)
        ensures
            *final(self) == (Player {
                state: if ready {
                    PlayerState::Ready
                } else {
                    PlayerState::NotReady
                },
                ..*old(self)
            }),
    {
        if ready {
            self.state = PlayerState::Ready;
        } else {
            self.state = PlayerState::NotReady;
        }
    }

    /// Applies one action to this player, exactly as `player_step` says:
    /// a folded or departed player is rejected, and otherwise the chips
    /// move as the action demands or the exact error comes back.
    pub fn perform_action(&mut self, action: PlayerAction, amount: u64) -> (r: Result<
        u64,
        GameError,
    >)
        requires
            action == PlayerAction::Bet && amount <= old(self).balance ==> old(self).current_bet
                + amount <= u64::MAX,
            action == PlayerAction::Call ==> amount >= old(self).current_bet,
            action == PlayerAction::AllIn ==> old(self).current_bet + old(self).balance
                <= u64::MAX,
        ensures
            match player_step(*old(self), action, amount) {
                Ok((q, v)) => r == Ok::<u64, GameError>(v) && *final(self) == q,
                Err(e) => r == Err::<u64, GameError>(e) && *final(self) == *old(self),
            },
    {
        match self.state {
            PlayerState::Folded | PlayerState::Left => return Err(GameError::PlayerInactive),
            _ => (),
        }
        match action {
            PlayerAction::Bet => self.bet(amount),
            PlayerAction::AllIn => self.all_in(),
            PlayerAction::Call => self.call(amount),
            PlayerAction::Check => self.check(amount),
            PlayerAction::Fold => self.fold(),
        }
    }

    /// Replaces one hole card; used while dealing.
    pub fn take_card(&mut self, which: usize, card: &Card)
        requires
            which < old(self).cards@.len(),
        ensures
            *final(self) == (Player { cards: final (self).cards, ..*old(self) }),
            final (self).cards@ == old(self).cards@.update(which as int, *card),
    {
        self.cards.set(which, *card);
    }

    /// Adds a won pot to the balance; the one operation that raises a
    /// player's chip total.
    pub fn collect_win(&mut self, amount: u64)
        requires
            old(self).balance + amount <= u64::MAX,
        ensures
            *final(self) == collect_win_step(*old(self), amount),
    {
        self.balance = self.balance + amount;
    }

    /// Zeroes both wager pools at the start of a new hand.
    pub fn reset_for_next_round(&mut self)
        ensures
            *final(self) == reset_step(*old(self)),
    {
        self.current_bet = 0;
        self.total_bet = 0;
    }

    fn check(&mut self, to_check: u64) -> (r: Result<u64, GameError>)
        ensures
            match check_step(*old(self), to_check) {
                Ok((q, v)) => r == Ok::<u64, GameError>(v) && *final(self) == q,
                Err(e) => r == Err::<u64, GameError>(e) && *final(self) == *old(self),
            },
    {
        if self.current_bet < to_check {
            return Err(GameError::BetTooSmall);
        }
        self.state = PlayerState::Check;
        Ok(self.current_bet)
    }

    fn call(&mut self, to_call_total: u64) -> (r: Result<u64, GameError>)
        requires
            to_call_total >= old(self).current_bet,
        ensures
            match call_step(*old(self), to_call_total) {
                Ok((q, v)) => r == Ok::<u64, GameError>(v) && *final(self) == q,
                Err(e) => r == Err::<u64, GameError>(e) && *final(self) == *old(self),
            },
    {
        let amount = to_call_total - self.current_bet;
        if amount > self.balance {
            return Err(GameError::InsufficientBalance);
        }
        self.balance = self.balance - amount;
        self.current_bet = self.current_bet + amount;
        self.state = PlayerState::Call;
        if self.balance == 0 {
            self.state = PlayerState::AllIn;
        }
        Ok(self.current_bet)
    }

    fn bet(&mut self, amount: u64) -> (r: Result<u64, GameError>)
        requires
            amount <= old(self).balance ==> old(self).current_bet + amount <= u64::MAX,
        ensures
            match bet_step(*old(self), amount) {
                Ok((q, v)) => r == Ok::<u64, GameError>(v) && *final(self) == q,
                Err(e) => r == Err::<u64, GameError>(e) && *final(self) == *old(self),
            },
    {
        if amount > self.balance {
            return Err(GameError::InsufficientBalance);
        }
        self.balance = self.balance - amount;
        self.current_bet = self.current_bet + amount;
        self.state = PlayerState::Active;
        if self.balance == 0 {
            self.state = PlayerState::AllIn;
        }
        Ok(self.current_bet)
    }

    fn all_in(&mut self) -> (r: Result<u64, GameError>)
        requires
            old(self).current_bet + old(self).balance <= u64::MAX,
        ensures
            match all_in_step(*old(self)) {
                Ok((q, v)) => r == Ok::<u64, GameError>(v) && *final(self) == q,
                Err(e) => r == Err::<u64, GameError>(e) && *final(self) == *old(self),
            },
    {
        self.current_bet = self.current_bet + self.balance;
        self.balance = 0;
        self.state = PlayerState::AllIn;
        Ok(self.current_bet)
    }

    fn fold(&mut self) -> (r: Result<u64, GameError>)
        ensures
            match fold_step(*old(self)) {
                Ok((q, v)) => r == Ok::<u64, GameError>(v) && *final(self) == q,
                Err(e) => r == Err::<u64, GameError>(e) && *final(self) == *old(self),
            },
    {
        self.state = PlayerState::Folded;
        Ok(self.balance)
    }

    /// Reactivates the seat for a new betting round. A departed seat never
    /// reactivates; a folded or all-in seat reactivates only when `force`
    /// is set, as at the start of a new hand.
    pub fn set_active(self, force: bool) -> (r: Self)
        ensures
            r == set_active_step(self, force),
    {
        match self.state {
            PlayerState::Left => self,
            PlayerState::Folded | PlayerState::AllIn => {
                if !force {
                    self
                } else {
                    Player { state: PlayerState::Active, ..self }
                }
            },
            _ => Player { state: PlayerState::Active, ..self },
        }
    }

    /// Moves the current round's wager into the hand total; done for every
    /// seat at each round boundary.
    pub fn collect_bet(&mut self) -> (r: Result<u64, GameError>)
        requires
            old(self).total_bet + old(self).current_bet <= u64::MAX,
        ensures
            *final(self) == collect_bet_step(*old(self)),
            r == Ok::<u64, GameError>(final (self).total_bet),
    {
        self.total_bet = self.total_bet + self.current_bet;
        self.current_bet = 0;
        Ok(self.total_bet)
    }
}

/// What `collect_bet` leaves behind: the round wager joins the hand
/// total.
pub open spec fn collect_bet_step(p: Player) -> Player {
    Player { current_bet: 0, total_bet: (p.total_bet + p.current_bet) as u64, ..p }
}

/// What `reset_for_next_round` leaves behind: both wager pools zeroed.
pub open spec fn reset_step(p: Player) -> Player {
    Player { current_bet: 0, total_bet: 0, ..p }
}

/// What `collect_win` leaves behind: the won amount joins the balance.
pub open spec fn collect_win_step(p: Player, amount: u64) -> Player {
    Player { balance: (p.balance + amount) as u64, ..p }
}

/// What `set_active` leaves behind, for every state and both forcings.
pub open spec fn set_active_step(p: Player, force: bool) -> Player {
    match p.state {
        PlayerState::Left => p,
        PlayerState::Folded | PlayerState::AllIn => {
            if !force {
                p
            } else {
                Player { state: PlayerState::Active, ..p }
            }
        },
        _ => Player { state: PlayerState::Active, ..p },
    }
}

/// A per-seat view handed out in a state snapshot.
#[derive(Debug)]
pub struct PlayerData {
    pub seat_index: u8,
    pub balance: u64,
    pub state: PlayerState,
    pub bet_amount: u64,
    pub nickname: String,
}

} // verus!
