//! One table: seating, readiness, hand and phase progression, turn
//! order, blind posting with the all-in fallback, showdown and payout,
//! and table termination.
//!
//! The table invariant `Game::wf` carries the chip conservation law:
//! while a table has not ended, the chips at it sum to the number of
//! occupied seats times the initial balance, and an ended table holds
//! that same total in plain balances.

use std::collections::HashMap;

use vstd::prelude::*;

use crate::cards::{full_deck, lemma_deck_no_duplicates, new_deck, Card};
use crate::errors::GameError;
use crate::eval::{beats_of, hand_beats, new_evaluator};
use crate::player::{
    all_in_step, bet_step, can_act, collect_bet_step, collect_win_step,
    lemma_player_step_preserves_chips, player_chips, player_step, reset_step, set_active_step,
    Player, PlayerAction, PlayerData, PlayerState,
};
use crate::random::{fresh_id, rand_below};
use crate::seats::{
    balance_fn, chips_fn, lemma_indicator_le_len, lemma_seat_sum_add, lemma_seat_sum_cross,
    lemma_seat_sum_element_le, lemma_seat_sum_monotone, lemma_seat_sum_nonneg,
    lemma_seat_sum_pointwise_eq, lemma_seat_sum_prefix, lemma_seat_sum_prefix_le,
    lemma_seat_sum_prefix_mono,
    lemma_seat_sum_update, lemma_seat_sum_whole, lemma_seat_sum_zero, occupied_count, occupied_fn,
    positive_count, positive_fn, seat_chips, seat_sum, table_chips, wager_fn, wager_total,
};

verus! {

broadcast use vstd::std_specs::hash::group_hash_axioms;

/// The lifecycle of a table: one way only.
#[derive(Clone, Copy, Debug, PartialEq, Eq, Structural)]
pub enum GamePlayState {
    /// Seats may still be taken; no hand has been dealt.
    NotStarted,
    /// Hands are being played.
    Started,
    /// The table plays no further hands and is kept read-only.
    Ended,
}

/// The phase of the running hand, by how many community cards are open.
#[derive(Clone, Copy, Debug, PartialEq, Eq, Structural)]
pub enum GamePhase {
    /// Two hole cards each, no community cards.
    PreFlop,
    /// The first three community cards are open.
    Flop,
    /// The fourth community card is open.
    Turn,
    /// All five community cards are open.
    River,
}

/// One table.
pub struct Game {
    /// Participant identifier to seat index.
    pub players: HashMap<u64, usize>,
    /// One slot per seat; `None` is an empty seat.
    pub players_by_seats: Vec<Option<Player>>,
    /// The nickname given at join time, per occupied seat.
    pub nicknames: Vec<Option<String>>,
    /// The fixed seat capacity.
    pub max_players: usize,
    /// The forced opening bet of the seat after the dealer.
    pub small_blind: u64,
    /// The forced opening bet of the second seat after the dealer.
    pub big_blind: u64,
    /// The chips every seat starts with.
    pub initial_balance: u64,
    /// Where the table stands in its lifecycle.
    pub game_state: GamePlayState,
    /// The 52 cards of the running hand.
    pub deck: Vec<Card>,
    /// The five community card slots of the running hand.
    pub community_cards: Vec<Option<Card>>,
    /// How many community cards are revealed.
    pub community_cards_shown: usize,
    /// The dealer seat of the running hand.
    pub dealer_seat: usize,
    /// The seat whose turn it is.
    pub active_player: usize,
    /// The betting phase of the running hand.
    pub game_phase: GamePhase,
    /// The hand evaluator consulted at showdowns.
    pub evaluator: poker::Evaluator,
}

/// Whether seat `i` holds a player.
pub open spec fn occupied(seats: Seq<Option<Player>>, i: int) -> bool {
    seats[i] is Some
}

/// The player at seat `i`.
pub open spec fn seat_player(seats: Seq<Option<Player>>, i: int) -> Player {
    seats[i].unwrap()
}

/// A seat that may still act in this hand: occupied and neither folded
/// nor departed.
pub open spec fn seat_eligible(o: Option<Player>) -> bool {
    match o {
        Some(p) => can_act(p),
        None => false,
    }
}

/// A seat that still owes a decision when reached: eligible and not
/// already all-in.
pub open spec fn seat_actionable(o: Option<Player>) -> bool {
    match o {
        Some(p) => can_act(p) && p.state != PlayerState::AllIn,
        None => false,
    }
}

/// No occupied seat in `[lo, hi)`.
pub open spec fn no_occupied_between(seats: Seq<Option<Player>>, lo: int, hi: int) -> bool {
    forall|j: int| #![trigger seats[j]] lo <= j < hi ==> !occupied(seats, j)
}

/// No seat in `[lo, hi)` passes `f`.
pub open spec fn none_between(
    seats: Seq<Option<Player>>,
    f: spec_fn(Option<Player>) -> bool,
    lo: int,
    hi: int,
) -> bool {
    forall|j: int| #![trigger seats[j]] lo <= j < hi ==> !f(seats[j])
}

/// Per-seat shape: a player sits at the seat index it names, holds two
/// hole cards, and has a recorded nickname.
pub open spec fn seats_wf(seats: Seq<Option<Player>>, nicknames: Seq<Option<String>>) -> bool {
    &&& seats.len() == nicknames.len()
    &&& forall|i: int|
        0 <= i < seats.len() ==> match #[trigger] seats[i] {
            Some(p) => p.seat_index == i && p.cards@.len() == 2 && nicknames[i] is Some,
            None => true,
        }
}

/// Some recorded participant identifier names seat `i`.
pub open spec fn seat_has_id(m: Map<u64, usize>, i: int) -> bool {
    exists|id: u64| #[trigger] m.contains_key(id) && m[id] == i
}

/// The participant map is the exact inverse of seat occupancy: every
/// identifier names an occupied seat, no two identifiers name the same
/// seat, and every occupied seat is named by an identifier.
pub open spec fn id_map_wf(m: Map<u64, usize>, seats: Seq<Option<Player>>) -> bool {
    &&& forall|id: u64| #[trigger]
        m.contains_key(id) ==> m[id] < seats.len() && occupied(seats, m[id] as int)
    &&& forall|id1: u64, id2: u64|
        #![trigger m[id1], m[id2]]
        m.contains_key(id1) && m.contains_key(id2) && id1 != id2 ==> m[id1] != m[id2]
    &&& forall|i: int|
        #![trigger seats[i]]
        0 <= i < seats.len() && occupied(seats, i) ==> seat_has_id(m, i)
}

/// The chip conservation law: all chips at the table, in balances and
/// both wager pools, always sum to the occupied seats times the initial
/// balance. When a table ends, its wager pools are zeroed, so the sum
/// stands in plain balances and the law holds uniformly.
pub open spec fn chips_conserved(g: Game) -> bool {
    table_chips(g.players_by_seats@) == occupied_count(g.players_by_seats@) * g.initial_balance
}

/// A seat that has not yet seen a hand: pre-hand state, no wagers, the
/// full initial balance.
pub open spec fn pre_hand_seat(p: Player, initial_balance: u64) -> bool {
    &&& (p.state == PlayerState::Ready || p.state == PlayerState::NotReady)
    &&& p.current_bet == 0
    &&& p.total_bet == 0
    &&& p.balance == initial_balance
}


/// The highest current-round wager among occupied seats; zero when none.
pub open spec fn max_bet_of(seats: Seq<Option<Player>>) -> int
    decreases seats.len(),
{
    if seats.len() == 0 {
        0
    } else {
        let rest = max_bet_of(seats.drop_last());
        let here = match seats.last() {
            Some(p) => p.current_bet as int,
            None => 0,
        };
        if here > rest {
            here
        } else {
            rest
        }
    }
}

/// The table maximum covers every occupied seat's wager and fits a chip
/// count.
pub proof fn lemma_max_bet_of_bounds(seats: Seq<Option<Player>>)
    ensures
        0 <= max_bet_of(seats) <= u64::MAX,
        forall|i: int|
            #![trigger seats[i]]
            0 <= i < seats.len() && occupied(seats, i) ==> seat_player(seats, i).current_bet
                <= max_bet_of(seats),
    decreases seats.len(),
{
    if seats.len() > 0 {
        lemma_max_bet_of_bounds(seats.drop_last());
        assert(forall|i: int|
            #![trigger seats[i]]
            0 <= i < seats.len() - 1 ==> seats[i] == seats.drop_last()[i]);
    }
}

/// Extending a prefix by one seat takes the maximum with that seat's
/// wager.
pub proof fn lemma_max_bet_of_prefix(seats: Seq<Option<Player>>, i: int)
    requires
        0 <= i < seats.len(),
    ensures
        max_bet_of(seats.subrange(0, i + 1)) == {
            let rest = max_bet_of(seats.subrange(0, i));
            let here = match seats[i] {
                Some(p) => p.current_bet as int,
                None => 0,
            };
            if here > rest {
                here
            } else {
                rest
            }
        },
{
    assert(seats.subrange(0, i + 1).drop_last() =~= seats.subrange(0, i));
}

/// The whole seat array is its own full-length prefix.
pub proof fn lemma_max_bet_of_whole(seats: Seq<Option<Player>>)
    ensures
        max_bet_of(seats.subrange(0, seats.len() as int)) == max_bet_of(seats),
{
    assert(seats.subrange(0, seats.len() as int) =~= seats);
}

/// With nothing wagered anywhere, the table maximum is zero.
pub proof fn lemma_max_bet_of_all_zero(seats: Seq<Option<Player>>)
    requires
        forall|i: int|
            #![trigger seats[i]]
            0 <= i < seats.len() && occupied(seats, i) ==> seat_player(seats, i).current_bet == 0,
    ensures
        max_bet_of(seats) == 0,
    decreases seats.len(),
{
    if seats.len() > 0 {
        assert(forall|i: int|
            #![trigger seats[i]]
            0 <= i < seats.len() - 1 ==> seats[i] == seats.drop_last()[i]);
        lemma_max_bet_of_all_zero(seats.drop_last());
    }
}

/// With exactly one seat wagering, the table maximum is that wager.
pub proof fn lemma_max_bet_of_single(seats: Seq<Option<Player>>, i: int)
    requires
        0 <= i < seats.len(),
        occupied(seats, i),
        forall|j: int|
            #![trigger seats[j]]
            0 <= j < seats.len() && j != i && occupied(seats, j) ==> seat_player(
                seats,
                j,
            ).current_bet == 0,
    ensures
        max_bet_of(seats) == seat_player(seats, i).current_bet,
    decreases seats.len(),
{
    assert(forall|j: int|
        #![trigger seats[j]]
        0 <= j < seats.len() - 1 ==> seats[j] == seats.drop_last()[j]);
    if i == seats.len() - 1 {
        lemma_max_bet_of_all_zero(seats.drop_last());
    } else {
        lemma_max_bet_of_single(seats.drop_last(), i);
        lemma_max_bet_of_bounds(seats.drop_last());
    }
}

/// The betting round is over exactly when no occupied seat is in state
/// `Active`: nobody still owes a decision.
pub open spec fn round_over(seats: Seq<Option<Player>>) -> bool {
    forall|i: int|
        #![trigger seats[i]]
        0 <= i < seats.len() && occupied(seats, i) ==> seat_player(seats, i).state
            != PlayerState::Active
}

impl Game {
    /// The table invariant: every constructor establishes it and every
    /// operation preserves it.
    pub open spec fn wf(self) -> bool {
        let seats = self.players_by_seats@;
        &&& seats.len() == self.max_players
        &&& self.nicknames@.len() == self.max_players
        &&& self.deck@.len() == 52
        &&& self.deck@.to_multiset() == full_deck().to_multiset()
        &&& self.community_cards@.len() == 5
        &&& self.community_cards_shown <= 5
        &&& self.max_players <= 23
        &&& self.max_players * self.initial_balance <= u64::MAX
        &&& seats_wf(seats, self.nicknames@)
        &&& id_map_wf(self.players@, seats)
        &&& chips_conserved(self)
        &&& self.game_state == GamePlayState::NotStarted ==> forall|i: int|
            #![trigger seats[i]]
            0 <= i < seats.len() && occupied(seats, i) ==> pre_hand_seat(
                seat_player(seats, i),
                self.initial_balance,
            )
        &&& self.game_state != GamePlayState::NotStarted ==> occupied_count(seats) >= 3
        &&& self.game_state == GamePlayState::Started ==> {
            &&& self.active_player < self.max_players
            &&& self.dealer_seat < self.max_players
            &&& occupied(seats, self.active_player as int)
            &&& occupied(seats, self.dealer_seat as int)
            &&& forall|k: int| 0 <= k < 5 ==> self.community_cards@[k] is Some
        }
    }

    /// All chips any one seat holds claim to stay within the conserved
    /// table total, which fits in a chip count.
    pub proof fn lemma_seat_chips_bounded(self, i: int)
        requires
            self.wf(),
            self.game_state != GamePlayState::Ended,
            0 <= i < self.players_by_seats@.len(),
        ensures
            seat_chips(self.players_by_seats@[i]) <= self.max_players * self.initial_balance,
            table_chips(self.players_by_seats@) <= self.max_players * self.initial_balance,
            table_chips(self.players_by_seats@) >= 0,
    {
        let seats = self.players_by_seats@;
        assert(forall|o: Option<Player>| #[trigger] chips_fn()(o) >= 0);
        lemma_seat_sum_element_le(seats, chips_fn(), i);
        lemma_seat_sum_nonneg(seats, chips_fn());
        assert(seat_chips(seats[i]) == chips_fn()(seats[i]));
        lemma_indicator_le_len(seats, occupied_fn());
        assert(occupied_count(seats) * self.initial_balance <= self.max_players
            * self.initial_balance) by (nonlinear_arith)
            requires
                occupied_count(seats) <= self.max_players,
                self.initial_balance >= 0,
        ;
    }

    /// How many seats hold a player.
    pub fn players_count(&self) -> (count: u8)
        requires
            self.wf(),
        ensures
            count == occupied_count(self.players_by_seats@),
    {
        let seats_len = self.players_by_seats.len();
        let mut count: u8 = 0;
        let mut i: usize = 0;
        while i < seats_len
            invariant
                self.wf(),
                seats_len == self.players_by_seats@.len(),
                i <= seats_len,
                count == occupied_count(self.players_by_seats@.subrange(0, i as int)),
                count <= i,
        decreases seats_len - i,
        {
            proof {
                lemma_seat_sum_prefix(self.players_by_seats@, occupied_fn(), i as int);
            }
            match self.players_by_seats[i] {
                Some(_) => {
                    count = count + 1;
                },
                None => (),
            }
            i = i + 1;
        }
        proof {
            lemma_seat_sum_whole(self.players_by_seats@, occupied_fn());
        }
        count
    }

    /// The highest current-round wager among occupied seats; zero at an
    /// empty table.
    pub fn max_bet(&self) -> (r: u64)
        requires
            self.players_by_seats@.len() == self.max_players,
        ensures
            r == max_bet_of(self.players_by_seats@),
    {
        let seats_len = self.players_by_seats.len();
        let mut max_bet: u64 = 0;
        let mut i: usize = 0;
        while i < seats_len
            invariant
                seats_len == self.players_by_seats@.len(),
                i <= seats_len,
                max_bet == max_bet_of(self.players_by_seats@.subrange(0, i as int)),
        decreases seats_len - i,
        {
            proof {
                lemma_max_bet_of_prefix(self.players_by_seats@, i as int);
            }
            match &self.players_by_seats[i] {
                Some(pl) => {
                    if pl.current_bet > max_bet {
                        max_bet = pl.current_bet;
                    }
                },
                None => (),
            }
            i = i + 1;
        }
        proof {
            lemma_max_bet_of_whole(self.players_by_seats@);
        }
        max_bet
    }

    /// Whether the betting round is over: no occupied seat still owes a
    /// decision, which is exactly when no seat is in state `Active`.
    pub fn round_end(&self) -> (r: bool)
        requires
            self.players_by_seats@.len() == self.max_players,
        ensures
            r == round_over(self.players_by_seats@),
    {
        let seats_len = self.players_by_seats.len();
        let mut i: usize = 0;
        while i < seats_len
            invariant
                seats_len == self.players_by_seats@.len(),
                i <= seats_len,
                forall|j: int|
                    #![trigger self.players_by_seats@[j]]
                    0 <= j < i && occupied(self.players_by_seats@, j) ==> seat_player(
                        self.players_by_seats@,
                        j,
                    ).state != PlayerState::Active,
        decreases seats_len - i,
        {
            match &self.players_by_seats[i] {
                Some(pl) => {
                    if pl.state == PlayerState::Active {
                        return false;
                    }
                },
                None => (),
            }
            i = i + 1;
        }
        true
    }

    /// Whether the table is down to a winner: at most two occupied seats
    /// still hold chips, so no further hand is dealt.
    pub fn someone_won(&self) -> (r: bool)
        requires
            self.players_by_seats@.len() == self.max_players,
            self.max_players <= 23,
        ensures
            r <==> positive_count(self.players_by_seats@) <= 2,
    {
        let seats_len = self.players_by_seats.len();
        let mut non_zero_balance: u8 = 0;
        let mut i: usize = 0;
        while i < seats_len
            invariant
                seats_len == self.players_by_seats@.len(),
                i <= seats_len,
                seats_len <= 23,
                non_zero_balance == positive_count(self.players_by_seats@.subrange(0, i as int)),
                non_zero_balance <= i,
        decreases seats_len - i,
        {
            proof {
                lemma_seat_sum_prefix(self.players_by_seats@, positive_fn(), i as int);
            }
            match &self.players_by_seats[i] {
                Some(pl) => {
                    if pl.balance > 0 {
                        non_zero_balance = non_zero_balance + 1;
                    }
                },
                None => (),
            }
            i = i + 1;
        }
        proof {
            lemma_seat_sum_whole(self.players_by_seats@, positive_fn());
        }
        non_zero_balance <= 2
    }

    /// The lowest-indexed occupied seat, where the first hand's dealer
    /// button goes; zero at an empty table.
    pub fn first_taken_seat(&self) -> (r: usize)
        requires
            self.players_by_seats@.len() == self.max_players,
        ensures
            !no_occupied_between(self.players_by_seats@, 0, self.max_players as int) ==> r
                < self.max_players && occupied(self.players_by_seats@, r as int)
                && no_occupied_between(self.players_by_seats@, 0, r as int),
            no_occupied_between(self.players_by_seats@, 0, self.max_players as int) ==> r == 0,
    {
        let seats_len = self.players_by_seats.len();
        let mut i: usize = 0;
        while i < seats_len
            invariant
                seats_len == self.players_by_seats@.len(),
                seats_len == self.max_players,
                i <= seats_len,
                no_occupied_between(self.players_by_seats@, 0, i as int),
        decreases seats_len - i,
        {
            match &self.players_by_seats[i] {
                Some(_) => {
                    proof {
                        assert(occupied(self.players_by_seats@, i as int));
                    }
                    return i;
                },
                None => (),
            }
            i = i + 1;
        }
        0
    }
}

/// The raw turn-order successor: the first occupied seat strictly after
/// `start_from`, wrapping to the lowest occupied seat, regardless of
/// whether it may act; zero at an empty table.
pub fn next_player(
    players_by_seats: &Vec<Option<Player>>,
    start_from: usize,
    max_players: usize,
) -> (r: usize)
    requires
        players_by_seats@.len() == max_players,
        start_from < max_players,
    ensures
        !no_occupied_between(players_by_seats@, start_from + 1, max_players as int) ==> start_from
            < r < max_players && occupied(players_by_seats@, r as int) && no_occupied_between(
            players_by_seats@,
            start_from + 1,
            r as int,
        ),
        no_occupied_between(players_by_seats@, start_from + 1, max_players as int)
            && !no_occupied_between(players_by_seats@, 0, max_players as int) ==> r < max_players
            && occupied(players_by_seats@, r as int) && no_occupied_between(
            players_by_seats@,
            0,
            r as int,
        ),
        no_occupied_between(players_by_seats@, 0, max_players as int) ==> r == 0,
{
    let mut seat: usize = start_from + 1;
    while seat < max_players
        invariant
            players_by_seats@.len() == max_players,
            start_from + 1 <= seat,
            no_occupied_between(players_by_seats@, start_from + 1, seat as int),
        decreases max_players - seat,
    {
        match &players_by_seats[seat] {
            Some(_) => {
                return seat;
            },
            None => (),
        }
        seat = seat + 1;
    }
    let mut seat: usize = 0;
    while seat < max_players
        invariant
            players_by_seats@.len() == max_players,
            start_from < max_players,
            no_occupied_between(players_by_seats@, start_from + 1, max_players as int),
            no_occupied_between(players_by_seats@, 0, seat as int),
        decreases max_players - seat,
    {
        match &players_by_seats[seat] {
            Some(_) => {
                proof {
                    assert(occupied(players_by_seats@, seat as int));
                }
                return seat;
            },
            None => (),
        }
        seat = seat + 1;
    }
    0
}


/// A seat that may still act: occupied and neither folded nor departed,
/// as one shared function value.
pub open spec fn eligible_fn() -> spec_fn(Option<Player>) -> bool {
    |o: Option<Player>| seat_eligible(o)
}

/// A seat that still owes a decision, as one shared function value.
pub open spec fn actionable_fn() -> spec_fn(Option<Player>) -> bool {
    |o: Option<Player>| seat_actionable(o)
}

/// A seat that takes part in a fresh hand: occupied and not departed.
/// At a hand start every such seat is reactivated, so this is the
/// pattern the blind-seat scans follow.
pub open spec fn hand_eligible_fn() -> spec_fn(Option<Player>) -> bool {
    |o: Option<Player>|
        match o {
            Some(p) => p.state != PlayerState::Left,
            None => false,
        }
}

/// At least two seats take part in the hand.
pub open spec fn two_hand_eligible(seats: Seq<Option<Player>>) -> bool {
    exists|i: int, j: int|
        #![trigger seats[i], seats[j]]
        0 <= i < seats.len() && 0 <= j < seats.len() && i != j && hand_eligible_fn()(seats[i])
            && hand_eligible_fn()(seats[j])
}

/// The predicate a turn-order scan applies: skipping all-in seats when
/// they have nothing left to decide.
pub open spec fn scan_target(skip_all_in: bool) -> spec_fn(Option<Player>) -> bool {
    if skip_all_in {
        actionable_fn()
    } else {
        eligible_fn()
    }
}

/// Seat `s` is the first seat cyclically after `from` that passes `f`:
/// the scan that found it visited every seat between at most once and
/// none of them passed.
pub open spec fn is_first_passing(
    seats: Seq<Option<Player>>,
    f: spec_fn(Option<Player>) -> bool,
    from: int,
    s: int,
    max: int,
) -> bool {
    &&& 0 <= s < max
    &&& f(seats[s])
    &&& s > from ==> none_between(seats, f, from + 1, s)
    &&& s <= from ==> none_between(seats, f, from + 1, max) && none_between(seats, f, 0, s)
}

/// A first-passing seat carries over to another seat array and
/// predicate that agree pointwise everywhere but at the scan's origin,
/// which no scan range ever tests.
pub proof fn lemma_first_passing_transfer(
    s1: Seq<Option<Player>>,
    s2: Seq<Option<Player>>,
    f: spec_fn(Option<Player>) -> bool,
    g: spec_fn(Option<Player>) -> bool,
    from: int,
    s: int,
    max: int,
)
    requires
        s1.len() == max,
        s2.len() == max,
        0 <= from < max,
        forall|j: int|
            #![trigger s1[j]]
            #![trigger s2[j]]
            0 <= j < max && j != from ==> (f(s1[j]) <==> g(s2[j])),
        is_first_passing(s1, f, from, s, max),
        g(s2[s]),
        s != from,
    ensures
        is_first_passing(s2, g, from, s, max),
{
    if s > from {
        assert(none_between(s1, f, from + 1, s));
        assert forall|j: int| from + 1 <= j < s implies !g(#[trigger] s2[j]) by {
            assert(!f(s1[j]));
            assert(f(s1[j]) <==> g(s2[j]));
        };
        assert(none_between(s2, g, from + 1, s));
    } else {
        assert(none_between(s1, f, from + 1, max));
        assert(none_between(s1, f, 0, s));
        assert forall|j: int| from + 1 <= j < max implies !g(#[trigger] s2[j]) by {
            assert(!f(s1[j]));
            assert(f(s1[j]) <==> g(s2[j]));
        };
        assert forall|j: int| 0 <= j < s implies !g(#[trigger] s2[j]) by {
            assert(!f(s1[j]));
            assert(f(s1[j]) <==> g(s2[j]));
        };
        assert(none_between(s2, g, from + 1, max));
        assert(none_between(s2, g, 0, s));
    }
}

/// Whether a seat passes the turn-order scan.
fn seat_passes(o: &Option<Player>, skip_all_in: bool) -> (b: bool)
    ensures
        b == scan_target(skip_all_in)(*o),
{
    match o {
        Some(p) => {
            if p.state == PlayerState::Folded || p.state == PlayerState::Left {
                false
            } else if skip_all_in && p.state == PlayerState::AllIn {
                false
            } else {
                true
            }
        },
        None => false,
    }
}

impl Game {
    /// Builds an empty table with the given capacity, blinds and initial
    /// balance. The capacity is bounded by the deck (each seat takes two
    /// hole cards and five community cards must remain) and the stakes
    /// must fit a chip count even if every seat fills.
    pub fn new_game(
        max_players: usize,
        small_blind: u64,
        big_blind: u64,
        initial_balance: u64,
    ) -> (g: Game)
        requires
            max_players <= 23,
            max_players * initial_balance <= u64::MAX,
        ensures
            g.wf(),
            g.max_players == max_players,
            g.small_blind == small_blind,
            g.big_blind == big_blind,
            g.initial_balance == initial_balance,
            g.game_state == GamePlayState::NotStarted,
            g.game_phase == GamePhase::PreFlop,
            g.community_cards_shown == 0,
            g.players@ == Map::<u64, usize>::empty(),
            occupied_count(g.players_by_seats@) == 0,
            forall|i: int| 0 <= i < max_players ==> !occupied(g.players_by_seats@, i),
    {
        let players: HashMap<u64, usize> = HashMap::with_capacity(max_players);
        let mut players_by_seats: Vec<Option<Player>> = Vec::new();
        let mut nicknames: Vec<Option<String>> = Vec::new();
        let mut i: usize = 0;
        while i < max_players
            invariant
                i <= max_players,
                players_by_seats@.len() == i,
                nicknames@.len() == i,
                forall|j: int| 0 <= j < i ==> players_by_seats@[j] is None,
                forall|j: int| 0 <= j < i ==> nicknames@[j] is None,
            decreases max_players - i,
        {
            players_by_seats.push(None);
            nicknames.push(None);
            i = i + 1;
        }
        let deck = new_deck();
        let mut community_cards: Vec<Option<Card>> = Vec::new();
        let mut k: usize = 0;
        while k < 5
            invariant
                k <= 5,
                community_cards@.len() == k,
            decreases 5 - k,
        {
            community_cards.push(None);
            k = k + 1;
        }
        let g = Game {
            players,
            players_by_seats,
            nicknames,
            max_players,
            small_blind,
            big_blind,
            initial_balance,
            game_state: GamePlayState::NotStarted,
            deck,
            community_cards,
            community_cards_shown: 0,
            dealer_seat: 0,
            active_player: 0,
            game_phase: GamePhase::PreFlop,
            evaluator: new_evaluator(),
        };
        proof {
            lemma_seat_sum_zero(g.players_by_seats@, occupied_fn());
            lemma_seat_sum_zero(g.players_by_seats@, chips_fn());
        }
        g
    }

    /// The first seat cyclically after `from` that passes the turn-order
    /// scan, visiting each seat at most once; nothing when no seat
    /// passes.
    fn scan_from(&self, from: usize, skip_all_in: bool) -> (r: Option<usize>)
        requires
            self.players_by_seats@.len() == self.max_players,
            from < self.max_players,
        ensures
            match r {
                Some(s) => is_first_passing(
                    self.players_by_seats@,
                    scan_target(skip_all_in),
                    from as int,
                    s as int,
                    self.max_players as int,
                ),
                None => none_between(
                    self.players_by_seats@,
                    scan_target(skip_all_in),
                    0,
                    self.max_players as int,
                ),
            },
    {
        let mut seat: usize = from + 1;
        while seat < self.max_players
            invariant
                self.players_by_seats@.len() == self.max_players,
                from + 1 <= seat,
                from < self.max_players,
                none_between(
                    self.players_by_seats@,
                    scan_target(skip_all_in),
                    from + 1,
                    seat as int,
                ),
            decreases self.max_players - seat,
        {
            if seat_passes(&self.players_by_seats[seat], skip_all_in) {
                return Some(seat);
            }
            seat = seat + 1;
        }
        let mut seat: usize = 0;
        while seat <= from
            invariant
                self.players_by_seats@.len() == self.max_players,
                from < self.max_players,
                seat <= from + 1,
                none_between(
                    self.players_by_seats@,
                    scan_target(skip_all_in),
                    from + 1,
                    self.max_players as int,
                ),
                none_between(self.players_by_seats@, scan_target(skip_all_in), 0, seat as int),
            decreases from + 1 - seat,
        {
            if seat_passes(&self.players_by_seats[seat], skip_all_in) {
                return Some(seat);
            }
            seat = seat + 1;
        }
        None
    }

    /// The seat that would act next: the first seat after the active one,
    /// in cyclic order, that has neither folded nor departed. A table
    /// with no such seat is a real outcome, reported as `None`, never a
    /// silently returned seat.
    pub fn get_next_active_player(&self) -> (r: Option<usize>)
        requires
            self.players_by_seats@.len() == self.max_players,
            self.active_player < self.max_players,
        ensures
            match r {
                Some(s) => is_first_passing(
                    self.players_by_seats@,
                    eligible_fn(),
                    self.active_player as int,
                    s as int,
                    self.max_players as int,
                ),
                None => none_between(
                    self.players_by_seats@,
                    eligible_fn(),
                    0,
                    self.max_players as int,
                ),
            },
    {
        self.scan_from(self.active_player, false)
    }

    /// Advances the turn to the next seat that still owes a decision,
    /// skipping seats that are all in, since they have nothing left to
    /// decide; leaves the turn alone when no such seat exists.
    pub fn set_next_active_player(&mut self)
        requires
            old(self).players_by_seats@.len() == old(self).max_players,
            old(self).active_player < old(self).max_players,
        ensures
            *final(self) == (Game { active_player: final(self).active_player, ..*old(self) }),
            !none_between(
                old(self).players_by_seats@,
                actionable_fn(),
                0,
                old(self).max_players as int,
            ) ==> is_first_passing(
                old(self).players_by_seats@,
                actionable_fn(),
                old(self).active_player as int,
                final (self).active_player as int,
                old(self).max_players as int,
            ),
            none_between(
                old(self).players_by_seats@,
                actionable_fn(),
                0,
                old(self).max_players as int,
            ) ==> final (self).active_player == old(self).active_player,
    {
        match self.scan_from(self.active_player, true) {
            Some(s) => {
                self.active_player = s;
            },
            None => (),
        }
    }
}


impl Game {
    /// Reactivates every seat for a new betting round, as `set_active`
    /// says: a departed seat never, a folded or all-in seat only when
    /// forced at a hand boundary.
    fn set_players_active(&mut self, force: bool)
        requires
            old(self).players_by_seats@.len() == old(self).max_players,
        ensures
            *final(self) == (Game { players_by_seats: final (self).players_by_seats, ..*old(self) }),
            final (self).players_by_seats@.len() == old(self).players_by_seats@.len(),
            forall|i: int|
                #![trigger final(self).players_by_seats@[i]]
                0 <= i < old(self).players_by_seats@.len() ==> final (self).players_by_seats@[i]
                    == (match old(self).players_by_seats@[i] {
                    Some(p) => Some(set_active_step(p, force)),
                    None => None::<Player>,
                }),
    {
        let seats_len = self.players_by_seats.len();
        let mut i: usize = 0;
        while i < seats_len
            invariant
                seats_len == self.players_by_seats@.len(),
                old(self).players_by_seats@.len() == seats_len,
                i <= seats_len,
                *self == (Game { players_by_seats: self.players_by_seats, ..*old(self) }),
                forall|j: int|
                    #![trigger self.players_by_seats@[j]]
                    0 <= j < i ==> self.players_by_seats@[j] == (match old(self).players_by_seats@[j] {
                        Some(p) => Some(set_active_step(p, force)),
                        None => None::<Player>,
                    }),
                forall|j: int|
                    #![trigger self.players_by_seats@[j]]
                    i <= j < seats_len ==> self.players_by_seats@[j] == old(self).players_by_seats@[j],
            decreases seats_len - i,
        {
            let ghost prev = self.players_by_seats@;
            let taken = {
                let slot = &mut self.players_by_seats[i];
                slot.take()
            };
            match taken {
                Some(p) => {
                    let q = p.set_active(force);
                    self.players_by_seats.set(i, Some(q));
                    proof {
                        assert(self.players_by_seats@ =~= prev.update(
                            i as int,
                            Some(set_active_step(prev[i as int].unwrap(), force)),
                        ));
                    }
                },
                None => {
                    proof {
                        assert(self.players_by_seats@ =~= prev);
                    }
                },
            }
            i = i + 1;
        }
    }

    /// Moves every seat's current-round wager into its hand total, once
    /// per round boundary; no chips are created or destroyed.
    fn collect_bets(&mut self)
        requires
            old(self).players_by_seats@.len() == old(self).max_players,
            table_chips(old(self).players_by_seats@) <= u64::MAX,
        ensures
            *final(self) == (Game { players_by_seats: final (self).players_by_seats, ..*old(self) }),
            final (self).players_by_seats@.len() == old(self).players_by_seats@.len(),
            forall|i: int|
                #![trigger final(self).players_by_seats@[i]]
                0 <= i < old(self).players_by_seats@.len() ==> final (self).players_by_seats@[i]
                    == (match old(self).players_by_seats@[i] {
                    Some(p) => Some(collect_bet_step(p)),
                    None => None::<Player>,
                }),
    {
        let seats_len = self.players_by_seats.len();
        let mut i: usize = 0;
        while i < seats_len
            invariant
                seats_len == self.players_by_seats@.len(),
                old(self).players_by_seats@.len() == seats_len,
                table_chips(old(self).players_by_seats@) <= u64::MAX,
                i <= seats_len,
                *self == (Game { players_by_seats: self.players_by_seats, ..*old(self) }),
                forall|j: int|
                    #![trigger self.players_by_seats@[j]]
                    0 <= j < i ==> self.players_by_seats@[j] == (match old(self).players_by_seats@[j] {
                        Some(p) => Some(collect_bet_step(p)),
                        None => None::<Player>,
                    }),
                forall|j: int|
                    #![trigger self.players_by_seats@[j]]
                    i <= j < seats_len ==> self.players_by_seats@[j] == old(self).players_by_seats@[j],
            decreases seats_len - i,
        {
            let ghost prev = self.players_by_seats@;
            proof {
                assert(forall|o: Option<Player>| #[trigger] chips_fn()(o) >= 0);
                lemma_seat_sum_element_le(old(self).players_by_seats@, chips_fn(), i as int);
            }
            let taken = {
                let slot = &mut self.players_by_seats[i];
                slot.take()
            };
            match taken {
                Some(mut p) => {
                    let _ = p.collect_bet();
                    self.players_by_seats.set(i, Some(p));
                    proof {
                        assert(self.players_by_seats@ =~= prev.update(
                            i as int,
                            Some(collect_bet_step(prev[i as int].unwrap())),
                        ));
                    }
                },
                None => {
                    proof {
                        assert(self.players_by_seats@ =~= prev);
                    }
                },
            }
            i = i + 1;
        }
    }

    /// Zeroes every seat's wager pools at the start of a new hand.
    fn reset_players(&mut self)
        requires
            old(self).players_by_seats@.len() == old(self).max_players,
        ensures
            *final(self) == (Game { players_by_seats: final (self).players_by_seats, ..*old(self) }),
            final (self).players_by_seats@.len() == old(self).players_by_seats@.len(),
            forall|i: int|
                #![trigger final(self).players_by_seats@[i]]
                0 <= i < old(self).players_by_seats@.len() ==> final (self).players_by_seats@[i]
                    == (match old(self).players_by_seats@[i] {
                    Some(p) => Some(reset_step(p)),
                    None => None::<Player>,
                }),
    {
        let seats_len = self.players_by_seats.len();
        let mut i: usize = 0;
        while i < seats_len
            invariant
                seats_len == self.players_by_seats@.len(),
                old(self).players_by_seats@.len() == seats_len,
                i <= seats_len,
                *self == (Game { players_by_seats: self.players_by_seats, ..*old(self) }),
                forall|j: int|
                    #![trigger self.players_by_seats@[j]]
                    0 <= j < i ==> self.players_by_seats@[j] == (match old(self).players_by_seats@[j] {
                        Some(p) => Some(reset_step(p)),
                        None => None::<Player>,
                    }),
                forall|j: int|
                    #![trigger self.players_by_seats@[j]]
                    i <= j < seats_len ==> self.players_by_seats@[j] == old(self).players_by_seats@[j],
            decreases seats_len - i,
        {
            let ghost prev = self.players_by_seats@;
            let taken = {
                let slot = &mut self.players_by_seats[i];
                slot.take()
            };
            match taken {
                Some(mut p) => {
                    p.reset_for_next_round();
                    self.players_by_seats.set(i, Some(p));
                    proof {
                        assert(self.players_by_seats@ =~= prev.update(
                            i as int,
                            Some(reset_step(prev[i as int].unwrap())),
                        ));
                    }
                },
                None => {
                    proof {
                        assert(self.players_by_seats@ =~= prev);
                    }
                },
            }
            i = i + 1;
        }
    }

    /// Fisher-Yates: swaps each deck position with a random earlier one,
    /// leaving a permutation of the same 52 cards.
    fn shuffle(&mut self)
        requires
            old(self).deck@.len() == 52,
        ensures
            *final(self) == (Game { deck: final (self).deck, ..*old(self) }),
            final (self).deck@.len() == 52,
            final (self).deck@.to_multiset() == old(self).deck@.to_multiset(),
    {
        let mut n: usize = 0;
        while n < 52
            invariant
                self.deck@.len() == 52,
                *self == (Game { deck: self.deck, ..*old(self) }),
                self.deck@.to_multiset() == old(self).deck@.to_multiset(),
            decreases 52 - n,
        {
            let i = rand_below(52 - n);
            let j = 51 - n;
            let ghost before = self.deck@;
            let a = self.deck[i];
            let b = self.deck[j];
            self.deck.set(i, b);
            self.deck.set(j, a);
            proof {
                broadcast use vstd::seq_lib::group_to_multiset_ensures;

                if i == j {
                    assert(self.deck@ =~= before);
                } else {
                    vstd::seq_lib::to_multiset_update(before, i as int, b);
                    vstd::seq_lib::to_multiset_update(before.update(i as int, b), j as int, a);
                    assert(before.to_multiset().contains(a));
                    assert(before.update(i as int, b).to_multiset().contains(b));
                    assert(self.deck@.to_multiset() =~= before.to_multiset());
                }
            }
            n = n + 1;
        }
    }
}


/// The deck position of seat `i`'s first hole card: two cards go to
/// every occupied seat before it, in seat order.
pub open spec fn deal_base(oseats: Seq<Option<Player>>, i: int) -> int {
    2 * occupied_count(oseats.subrange(0, i))
}

/// Cards dealt from distinct leading positions of a duplicate-free deck
/// are pairwise distinct: across seats, within a seat's two hole cards,
/// and between hole and community cards.
proof fn lemma_dealt_cards_distinct(
    oseats: Seq<Option<Player>>,
    fseats: Seq<Option<Player>>,
    community: Seq<Option<Card>>,
    deck: Seq<Card>,
)
    requires
        deck.len() == 52,
        deck.no_duplicates(),
        oseats.len() == fseats.len(),
        oseats.len() <= 23,
        community.len() == 5,
        forall|i: int|
            #![trigger fseats[i]]
            0 <= i < oseats.len() ==> (occupied(fseats, i) <==> occupied(oseats, i)),
        forall|i: int|
            #![trigger fseats[i]]
            0 <= i < oseats.len() && occupied(oseats, i) ==> seat_player(fseats, i).cards@.len()
                == 2 && seat_player(fseats, i).cards@[0] == deck[deal_base(oseats, i)]
                && seat_player(fseats, i).cards@[1] == deck[deal_base(oseats, i) + 1],
        forall|k: int|
            0 <= k < 5 ==> community[k] == Some(deck[2 * occupied_count(oseats) + k]),
    ensures
        forall|i: int|
            #![trigger fseats[i]]
            0 <= i < oseats.len() && occupied(oseats, i) ==> seat_player(fseats, i).cards@[0]
                != seat_player(fseats, i).cards@[1],
        forall|i: int, j: int|
            #![trigger fseats[i], fseats[j]]
            0 <= i < oseats.len() && 0 <= j < oseats.len() && i != j && occupied(oseats, i)
                && occupied(oseats, j) ==> seat_player(fseats, i).cards@[0] != seat_player(
                fseats,
                j,
            ).cards@[0] && seat_player(fseats, i).cards@[0] != seat_player(fseats, j).cards@[1]
                && seat_player(fseats, i).cards@[1] != seat_player(fseats, j).cards@[0]
                && seat_player(fseats, i).cards@[1] != seat_player(fseats, j).cards@[1],
        forall|i: int, k: int|
            #![trigger fseats[i], community[k]]
            0 <= i < oseats.len() && occupied(oseats, i) && 0 <= k < 5 ==> seat_player(
                fseats,
                i,
            ).cards@[0] != community[k].unwrap() && seat_player(fseats, i).cards@[1]
                != community[k].unwrap(),
        forall|k1: int, k2: int|
            #![trigger community[k1], community[k2]]
            0 <= k1 < 5 && 0 <= k2 < 5 && k1 != k2 ==> community[k1].unwrap()
                != community[k2].unwrap(),
{
    let n = oseats.len() as int;
    assert(forall|o: Option<Player>| 0 <= #[trigger] occupied_fn()(o) <= 1);
    lemma_indicator_le_len(oseats, occupied_fn());
    lemma_seat_sum_whole(oseats, occupied_fn());
    // An occupied seat's hole positions lie strictly before every later
    // occupied seat's, and all lie before the community positions.
    assert forall|i: int| 0 <= i < n && occupied(oseats, i) implies 0 <= deal_base(oseats, i)
        && deal_base(oseats, i) + 1 < 2 * occupied_count(oseats) by {
        assert(forall|o: Option<Player>| #[trigger] occupied_fn()(o) >= 0);
        lemma_seat_sum_nonneg(oseats.subrange(0, i), occupied_fn());
        lemma_seat_sum_prefix(oseats, occupied_fn(), i);
        lemma_seat_sum_prefix_mono(oseats, occupied_fn(), i + 1, n);
    };
    assert(2 * occupied_count(oseats) + 5 <= 51) by {
        lemma_indicator_le_len(oseats, occupied_fn());
    };
    assert forall|i: int, j: int|
        0 <= i < n && 0 <= j < n && i < j && occupied(oseats, i) && occupied(
            oseats,
            j,
        ) implies deal_base(oseats, i) + 1 < deal_base(oseats, j) by {
        assert(forall|o: Option<Player>| #[trigger] occupied_fn()(o) >= 0);
        lemma_seat_sum_prefix(oseats, occupied_fn(), i);
        lemma_seat_sum_prefix_mono(oseats, occupied_fn(), i + 1, j);
    };
}

impl Game {
    /// Shuffles, deals two hole cards to every occupied seat in seat
    /// order, then reserves the next five deck positions as the
    /// community cards. Only hole cards, the deck order and the
    /// community slots change.
    fn deal_cards(&mut self)
        requires
            old(self).players_by_seats@.len() == old(self).max_players,
            old(self).max_players <= 23,
            old(self).deck@.len() == 52,
            old(self).deck@.to_multiset() == full_deck().to_multiset(),
            old(self).community_cards@.len() == 5,
            forall|i: int|
                #![trigger old(self).players_by_seats@[i]]
                0 <= i < old(self).players_by_seats@.len() && occupied(
                    old(self).players_by_seats@,
                    i,
                ) ==> seat_player(old(self).players_by_seats@, i).cards@.len() == 2,
        ensures
            *final(self) == (Game {
                players_by_seats: final (self).players_by_seats,
                deck: final (self).deck,
                community_cards: final (self).community_cards,
                ..*old(self)
            }),
            final (self).deck@.len() == 52,
            final (self).deck@.to_multiset() == old(self).deck@.to_multiset(),
            final (self).community_cards@.len() == 5,
            forall|k: int| 0 <= k < 5 ==> final (self).community_cards@[k] is Some,
            final (self).players_by_seats@.len() == old(self).players_by_seats@.len(),
            forall|i: int|
                #![trigger final(self).players_by_seats@[i]]
                0 <= i < old(self).players_by_seats@.len() ==> match old(self).players_by_seats@[i] {
                    Some(p) => {
                        &&& final (self).players_by_seats@[i] is Some
                        &&& seat_player(final (self).players_by_seats@, i) == (Player {
                            cards: seat_player(final (self).players_by_seats@, i).cards,
                            ..p
                        })
                        &&& seat_player(final (self).players_by_seats@, i).cards@.len() == 2
                    },
                    None => final (self).players_by_seats@[i] is None,
                },
            final (self).deck@.no_duplicates(),
            forall|i: int|
                #![trigger final(self).players_by_seats@[i]]
                0 <= i < old(self).players_by_seats@.len() && occupied(old(self).players_by_seats@, i)
                    ==> seat_player(final (self).players_by_seats@, i).cards@[0] == final (self).deck@[deal_base(old(self).players_by_seats@, i)] && seat_player(
                    final (self).players_by_seats@,
                    i,
                ).cards@[1] == final (self).deck@[deal_base(old(self).players_by_seats@, i) + 1],
            forall|k: int|
                0 <= k < 5 ==> final (self).community_cards@[k] == Some(
                    final (self).deck@[2 * occupied_count(old(self).players_by_seats@) + k],
                ),
            forall|i: int|
                #![trigger final(self).players_by_seats@[i]]
                0 <= i < old(self).players_by_seats@.len() && occupied(old(self).players_by_seats@, i)
                    ==> seat_player(final (self).players_by_seats@, i).cards@[0] != seat_player(
                    final (self).players_by_seats@,
                    i,
                ).cards@[1],
            forall|i: int, j: int|
                #![trigger final(self).players_by_seats@[i], final(self).players_by_seats@[j]]
                0 <= i < old(self).players_by_seats@.len() && 0 <= j < old(self).players_by_seats@.len() && i != j && occupied(old(self).players_by_seats@, i)
                    && occupied(old(self).players_by_seats@, j) ==> seat_player(
                    final (self).players_by_seats@,
                    i,
                ).cards@[0] != seat_player(final (self).players_by_seats@, j).cards@[0]
                    && seat_player(final (self).players_by_seats@, i).cards@[0] != seat_player(
                    final (self).players_by_seats@,
                    j,
                ).cards@[1] && seat_player(final (self).players_by_seats@, i).cards@[1]
                    != seat_player(final (self).players_by_seats@, j).cards@[0] && seat_player(
                    final (self).players_by_seats@,
                    i,
                ).cards@[1] != seat_player(final (self).players_by_seats@, j).cards@[1],
            forall|i: int, k: int|
                #![trigger final(self).players_by_seats@[i], final(self).community_cards@[k]]
                0 <= i < old(self).players_by_seats@.len() && occupied(old(self).players_by_seats@, i)
                    && 0 <= k < 5 ==> seat_player(final (self).players_by_seats@, i).cards@[0]
                    != final (self).community_cards@[k].unwrap() && seat_player(
                    final (self).players_by_seats@,
                    i,
                ).cards@[1] != final (self).community_cards@[k].unwrap(),
            forall|k1: int, k2: int|
                #![trigger final(self).community_cards@[k1], final(self).community_cards@[k2]]
                0 <= k1 < 5 && 0 <= k2 < 5 && k1 != k2 ==> final (self).community_cards@[k1].unwrap()
                    != final (self).community_cards@[k2].unwrap(),
    {
        self.shuffle();
        let ghost ddeck = self.deck@;
        let seats_len = self.players_by_seats.len();
        let mut next_card: usize = 0;
        let mut i: usize = 0;
        while i < seats_len
            invariant
                seats_len == self.players_by_seats@.len(),
                old(self).players_by_seats@.len() == seats_len,
                seats_len <= 23,
                i <= seats_len,
                next_card <= 2 * i,
                self.deck@ == ddeck,
                next_card == 2 * occupied_count(old(self).players_by_seats@.subrange(0, i as int)),
                forall|j: int|
                    #![trigger self.players_by_seats@[j]]
                    0 <= j < i && occupied(old(self).players_by_seats@, j) ==> seat_player(
                        self.players_by_seats@,
                        j,
                    ).cards@[0] == ddeck[deal_base(old(self).players_by_seats@, j)] && seat_player(
                        self.players_by_seats@,
                        j,
                    ).cards@[1] == ddeck[deal_base(old(self).players_by_seats@, j) + 1],
                self.deck@.len() == 52,
                *self == (Game {
                    players_by_seats: self.players_by_seats,
                    deck: self.deck,
                    ..*old(self)
                }),
                self.deck@.to_multiset() == old(self).deck@.to_multiset(),
                forall|j: int|
                    #![trigger self.players_by_seats@[j]]
                    0 <= j < i ==> match old(self).players_by_seats@[j] {
                        Some(p) => {
                            &&& self.players_by_seats@[j] is Some
                            &&& seat_player(self.players_by_seats@, j) == (Player {
                                cards: seat_player(self.players_by_seats@, j).cards,
                                ..p
                            })
                            &&& seat_player(self.players_by_seats@, j).cards@.len() == 2
                        },
                        None => self.players_by_seats@[j] is None,
                    },
                forall|j: int|
                    #![trigger self.players_by_seats@[j]]
                    i <= j < seats_len ==> self.players_by_seats@[j] == old(self).players_by_seats@[j],
                forall|j: int|
                    #![trigger old(self).players_by_seats@[j]]
                    0 <= j < seats_len && occupied(old(self).players_by_seats@, j) ==> seat_player(
                        old(self).players_by_seats@,
                        j,
                    ).cards@.len() == 2,
            decreases seats_len - i,
        {
            let ghost prev = self.players_by_seats@;
            proof {
                assert(forall|o: Option<Player>| 0 <= #[trigger] occupied_fn()(o) <= 1);
                lemma_seat_sum_prefix(old(self).players_by_seats@, occupied_fn(), i as int);
                lemma_indicator_le_len(
                    old(self).players_by_seats@.subrange(0, i as int),
                    occupied_fn(),
                );
            }
            let c0 = self.deck[next_card];
            let c1 = self.deck[next_card + 1];
            let taken = {
                let slot = &mut self.players_by_seats[i];
                slot.take()
            };
            match taken {
                Some(mut p) => {
                    p.take_card(0, &c0);
                    p.take_card(1, &c1);
                    next_card = next_card + 2;
                    self.players_by_seats.set(i, Some(p));
                },
                None => {
                    proof {
                        assert(self.players_by_seats@ =~= prev);
                    }
                },
            }
            i = i + 1;
        }
        proof {
            lemma_seat_sum_whole(old(self).players_by_seats@, occupied_fn());
        }
        let mut k: usize = 0;
        while k < 5
            invariant
                k <= 5,
                next_card <= 46,
                self.deck@ == ddeck,
                next_card == 2 * occupied_count(old(self).players_by_seats@),
                forall|j: int|
                    #![trigger self.players_by_seats@[j]]
                    0 <= j < self.players_by_seats@.len() && occupied(old(self).players_by_seats@, j)
                        ==> seat_player(self.players_by_seats@, j).cards@[0] == ddeck[deal_base(
                        old(self).players_by_seats@,
                        j,
                    )] && seat_player(self.players_by_seats@, j).cards@[1] == ddeck[deal_base(
                        old(self).players_by_seats@,
                        j,
                    ) + 1],
                forall|m: int|
                    #![trigger self.community_cards@[m]]
                    0 <= m < k ==> self.community_cards@[m] == Some(ddeck[next_card + m]),
                self.deck@.len() == 52,
                self.deck@.to_multiset() == old(self).deck@.to_multiset(),
                self.players_by_seats@.len() == old(self).players_by_seats@.len(),
                forall|j: int|
                    #![trigger self.players_by_seats@[j]]
                    0 <= j < self.players_by_seats@.len() ==> match old(self).players_by_seats@[j] {
                        Some(p) => {
                            &&& self.players_by_seats@[j] is Some
                            &&& seat_player(self.players_by_seats@, j) == (Player {
                                cards: seat_player(self.players_by_seats@, j).cards,
                                ..p
                            })
                            &&& seat_player(self.players_by_seats@, j).cards@.len() == 2
                        },
                        None => self.players_by_seats@[j] is None,
                    },
                self.community_cards@.len() == 5,
                *self == (Game {
                    players_by_seats: self.players_by_seats,
                    deck: self.deck,
                    community_cards: self.community_cards,
                    ..*old(self)
                }),
                forall|m: int|
                    #![trigger self.community_cards@[m]]
                    0 <= m < k ==> self.community_cards@[m] is Some,
                forall|m: int|
                    #![trigger self.community_cards@[m]]
                    k <= m < 5 ==> self.community_cards@[m] == old(self).community_cards@[m],
            decreases 5 - k,
        {
            let card = self.deck[next_card + k];
            self.community_cards.set(k, Some(card));
            k = k + 1;
        }
        proof {
            lemma_deck_no_duplicates(self.deck@);
            lemma_dealt_cards_distinct(
                old(self).players_by_seats@,
                self.players_by_seats@,
                self.community_cards@,
                self.deck@,
            );
        }
    }

    /// Pays the whole pot, every seat's wagered chips, to the winner
    /// seat; the table's chips grow by exactly the pot, which the next
    /// hand's reset gives back.
    fn distribute_winnings(&mut self, winner_seat: usize)
        requires
            old(self).players_by_seats@.len() == old(self).max_players,
            winner_seat < old(self).max_players,
            occupied(old(self).players_by_seats@, winner_seat as int),
            table_chips(old(self).players_by_seats@) <= u64::MAX,
        ensures
            *final(self) == (Game { players_by_seats: final (self).players_by_seats, ..*old(self) }),
            final (self).players_by_seats@ == old(self).players_by_seats@.update(
                winner_seat as int,
                Some(
                    collect_win_step(
                        seat_player(old(self).players_by_seats@, winner_seat as int),
                        wager_total(old(self).players_by_seats@) as u64,
                    ),
                ),
            ),
            seat_sum(final (self).players_by_seats@, balance_fn()) == seat_sum(
                old(self).players_by_seats@,
                balance_fn(),
            ) + wager_total(old(self).players_by_seats@),
            wager_total(final (self).players_by_seats@) == wager_total(
                old(self).players_by_seats@,
            ),
            occupied_count(final (self).players_by_seats@) == occupied_count(
                old(self).players_by_seats@,
            ),
    {
        proof {
            assert(forall|o: Option<Player>| #[trigger] wager_fn()(o) >= 0);
            assert(forall|o: Option<Player>| #[trigger] chips_fn()(o) >= 0);
            assert(forall|o: Option<Player>| #[trigger] wager_fn()(o) <= #[trigger] chips_fn()(o));
            lemma_seat_sum_nonneg(old(self).players_by_seats@, wager_fn());
            lemma_seat_sum_update(old(self).players_by_seats@, wager_fn(), winner_seat as int, None);
            lemma_seat_sum_update(old(self).players_by_seats@, chips_fn(), winner_seat as int, None);
            lemma_seat_sum_monotone(
                old(self).players_by_seats@.update(winner_seat as int, None),
                wager_fn(),
                chips_fn(),
            );
            lemma_seat_sum_nonneg(
                old(self).players_by_seats@.update(winner_seat as int, None),
                wager_fn(),
            );
        }
        let seats_len = self.players_by_seats.len();
        let mut winnings: u64 = 0;
        let mut i: usize = 0;
        while i < seats_len
            invariant
                seats_len == self.players_by_seats@.len(),
                *self == *old(self),
                table_chips(self.players_by_seats@) <= u64::MAX,
                i <= seats_len,
                winnings == wager_total(self.players_by_seats@.subrange(0, i as int)),
                wager_total(self.players_by_seats@.subrange(0, i as int)) <= table_chips(
                    self.players_by_seats@,
                ),
            decreases seats_len - i,
        {
            proof {
                assert(forall|o: Option<Player>| #[trigger] wager_fn()(o) >= 0);
                assert(forall|o: Option<Player>|
                    #[trigger] wager_fn()(o) <= #[trigger] chips_fn()(o));
                lemma_seat_sum_prefix(self.players_by_seats@, wager_fn(), i as int);
                lemma_seat_sum_prefix_le(self.players_by_seats@, wager_fn(), i as int + 1);
                lemma_seat_sum_monotone(self.players_by_seats@, wager_fn(), chips_fn());
            }
            match &self.players_by_seats[i] {
                Some(pl) => {
                    winnings = winnings + pl.current_bet + pl.total_bet;
                },
                None => (),
            }
            i = i + 1;
        }
        proof {
            lemma_seat_sum_whole(self.players_by_seats@, wager_fn());
        }
        let ghost prev = self.players_by_seats@;
        let taken = {
            let slot = &mut self.players_by_seats[winner_seat];
            slot.take()
        };
        match taken {
            Some(mut p) => {
                p.collect_win(winnings);
                self.players_by_seats.set(winner_seat, Some(p));
                proof {
                    assert(self.players_by_seats@ =~= prev.update(
                        winner_seat as int,
                        Some(collect_win_step(prev[winner_seat as int].unwrap(), winnings)),
                    ));
                    lemma_seat_sum_update(prev, balance_fn(), winner_seat as int, Some(p));
                    lemma_seat_sum_update(prev, wager_fn(), winner_seat as int, Some(p));
                    lemma_seat_sum_update(prev, occupied_fn(), winner_seat as int, Some(p));
                }
            },
            None => (),
        }
    }
}


/// The seven cards seat `i` shows at a showdown: the five community
/// cards and the seat's two hole cards.
pub open spec fn seat_hand(
    seats: Seq<Option<Player>>,
    community: Seq<Option<Card>>,
    i: int,
) -> Seq<Card> {
    seq![
        community[0].unwrap(),
        community[1].unwrap(),
        community[2].unwrap(),
        community[3].unwrap(),
        community[4].unwrap(),
        seat_player(seats, i).cards@[0],
        seat_player(seats, i).cards@[1],
    ]
}

/// The showdown scan from seat `i` carrying the best seat so far: a
/// contender (occupied, neither folded nor departed) whose hand
/// evaluates becomes the first best, and later replaces the best only
/// when its hand ranks strictly better under the evaluator's named
/// verdict, so the earliest seat keeps ties; a seat whose hand does not
/// evaluate is excluded. Nothing comes out when no contending hand
/// evaluates.
pub open spec fn showdown_winner_from(
    seats: Seq<Option<Player>>,
    community: Seq<Option<Card>>,
    i: int,
    best: Option<int>,
) -> Option<int>
    decreases seats.len() - i,
{
    if i < 0 || i >= seats.len() {
        best
    } else {
        let next = if seat_eligible(seats[i]) {
            match best {
                None => if beats_of(
                    seat_hand(seats, community, i),
                    seat_hand(seats, community, i),
                ) is Some {
                    Some(i)
                } else {
                    None
                },
                Some(b) => if beats_of(
                    seat_hand(seats, community, i),
                    seat_hand(seats, community, b),
                ) == Some(true) {
                    Some(i)
                } else {
                    Some(b)
                },
            }
        } else {
            best
        };
        showdown_winner_from(seats, community, i + 1, next)
    }
}

/// The seat the showdown pays, when some contending hand evaluates.
pub open spec fn showdown_winner(seats: Seq<Option<Player>>, community: Seq<Option<Card>>) -> Option<
    int,
> {
    showdown_winner_from(seats, community, 0, None)
}

impl Game {
    /// The showdown winner, exactly as the `showdown_winner` scan says:
    /// among occupied seats that have not folded or departed, the seat
    /// whose evaluated hand ranks strictly better than every one seen
    /// before it; the earliest such seat keeps ties, and a seat whose
    /// hand the evaluator refuses is excluded. When no contending hand
    /// evaluates, the earliest contender stands, and at a table with no
    /// contenders at all, the earliest occupied seat, so that the pot is
    /// always paid somewhere.
    fn get_winner_seat(&self) -> (r: usize)
        requires
            self.players_by_seats@.len() == self.max_players,
            !no_occupied_between(self.players_by_seats@, 0, self.max_players as int),
            self.community_cards@.len() == 5,
            forall|k: int| 0 <= k < 5 ==> self.community_cards@[k] is Some,
            forall|i: int|
                #![trigger self.players_by_seats@[i]]
                0 <= i < self.players_by_seats@.len() && occupied(self.players_by_seats@, i)
                    ==> seat_player(self.players_by_seats@, i).cards@.len() == 2,
        ensures
            r < self.max_players,
            occupied(self.players_by_seats@, r as int),
            !none_between(self.players_by_seats@, eligible_fn(), 0, self.max_players as int)
                ==> seat_eligible(self.players_by_seats@[r as int]),
            match showdown_winner(self.players_by_seats@, self.community_cards@) {
                Some(w) => r as int == w,
                None => {
                    &&& (!none_between(
                        self.players_by_seats@,
                        eligible_fn(),
                        0,
                        self.max_players as int,
                    ) ==> none_between(self.players_by_seats@, eligible_fn(), 0, r as int))
                    &&& (none_between(
                        self.players_by_seats@,
                        eligible_fn(),
                        0,
                        self.max_players as int,
                    ) ==> no_occupied_between(self.players_by_seats@, 0, r as int))
                },
            },
    {
        let seats_len = self.players_by_seats.len();
        // The fallback: the earliest contender, or failing that the
        // earliest occupied seat.
        let mut fallback: usize = 0;
        let mut found_eligible: bool = false;
        let mut i: usize = 0;
        while i < seats_len && !found_eligible
            invariant
                seats_len == self.players_by_seats@.len(),
                seats_len == self.max_players,
                i <= seats_len,
                !found_eligible ==> none_between(
                    self.players_by_seats@,
                    eligible_fn(),
                    0,
                    i as int,
                ),
                found_eligible ==> fallback < seats_len && seat_eligible(
                    self.players_by_seats@[fallback as int],
                ) && none_between(self.players_by_seats@, eligible_fn(), 0, fallback as int),
            decreases seats_len - i + (if found_eligible { 0int } else { 1int }),
        {
            if seat_passes(&self.players_by_seats[i], false) {
                fallback = i;
                found_eligible = true;
            } else {
                i = i + 1;
            }
        }
        if !found_eligible {
            fallback = self.first_taken_seat();
        }
        let ghost fallback0 = fallback;
        let mut best_seat: usize = fallback;
        let mut best_hand: Vec<Card> = Vec::new();
        let mut have_best: bool = false;
        let mut seat_id: usize = 0;
        while seat_id < seats_len
            invariant
                seats_len == self.players_by_seats@.len(),
                seats_len == self.max_players,
                seat_id <= seats_len,
                self.community_cards@.len() == 5,
                forall|k: int| 0 <= k < 5 ==> self.community_cards@[k] is Some,
                forall|j: int|
                    #![trigger self.players_by_seats@[j]]
                    0 <= j < seats_len && occupied(self.players_by_seats@, j) ==> seat_player(
                        self.players_by_seats@,
                        j,
                    ).cards@.len() == 2,
                best_seat < seats_len,
                occupied(self.players_by_seats@, best_seat as int),
                !none_between(self.players_by_seats@, eligible_fn(), 0, self.max_players as int)
                    ==> seat_eligible(self.players_by_seats@[best_seat as int]),
                !have_best ==> best_seat == fallback0,
                fallback0 < seats_len,
                occupied(self.players_by_seats@, fallback0 as int),
                !none_between(self.players_by_seats@, eligible_fn(), 0, self.max_players as int)
                    ==> seat_eligible(self.players_by_seats@[fallback0 as int])
                    && none_between(self.players_by_seats@, eligible_fn(), 0, fallback0 as int),
                none_between(self.players_by_seats@, eligible_fn(), 0, self.max_players as int)
                    ==> no_occupied_between(self.players_by_seats@, 0, fallback0 as int),
                have_best ==> seat_eligible(self.players_by_seats@[best_seat as int])
                    && best_hand@ == seat_hand(
                    self.players_by_seats@,
                    self.community_cards@,
                    best_seat as int,
                ),
                showdown_winner_from(
                    self.players_by_seats@,
                    self.community_cards@,
                    seat_id as int,
                    if have_best {
                        Some(best_seat as int)
                    } else {
                        None
                    },
                ) == showdown_winner(self.players_by_seats@, self.community_cards@),
            decreases seats_len - seat_id,
        {
            if seat_passes(&self.players_by_seats[seat_id], false) {
                let mut hand: Vec<Card> = Vec::new();
                let mut k: usize = 0;
                while k < 5
                    invariant
                        k <= 5,
                        self.community_cards@.len() == 5,
                        forall|m: int| 0 <= m < 5 ==> self.community_cards@[m] is Some,
                        hand@.len() == k,
                        forall|m: int|
                            0 <= m < k ==> hand@[m] == self.community_cards@[m].unwrap(),
                    decreases 5 - k,
                {
                    match &self.community_cards[k] {
                        Some(c) => {
                            hand.push(*c);
                        },
                        None => (),
                    }
                    k = k + 1;
                }
                match &self.players_by_seats[seat_id] {
                    Some(pl) => {
                        hand.push(pl.cards[0]);
                        hand.push(pl.cards[1]);
                    },
                    None => (),
                }
                proof {
                    assert(hand@ =~= seat_hand(
                        self.players_by_seats@,
                        self.community_cards@,
                        seat_id as int,
                    ));
                }
                if !have_best {
                    if hand_beats(&self.evaluator, &hand, &hand).is_some() {
                        best_hand = hand;
                        best_seat = seat_id;
                        have_best = true;
                    }
                } else {
                    match hand_beats(&self.evaluator, &hand, &best_hand) {
                        Some(true) => {
                            best_hand = hand;
                            best_seat = seat_id;
                        },
                        _ => (),
                    }
                }
            }
            seat_id = seat_id + 1;
        }
        best_seat
    }
}


/// What posting a blind leaves at the posting seat: the bet when the
/// seat can cover it and it reaches the table maximum, otherwise the
/// whole remaining balance forced in, however small; a seat that cannot
/// act is left alone.
pub open spec fn blind_step(p: Player, amount: u64, mb: int) -> Player {
    if !can_act(p) {
        p
    } else if amount + p.current_bet >= mb && amount <= p.balance {
        (match bet_step(p, amount) {
            Ok(qv) => qv.0,
            Err(_) => p,
        })
    } else {
        (match all_in_step(p) {
            Ok(qv) => qv.0,
            Err(_) => p,
        })
    }
}

/// Updating the posting seat with its blind result leaves the table's
/// chip total and occupancy exactly as they were.
pub proof fn lemma_blind_update_preserves(seats: Seq<Option<Player>>, act: int, amount: u64)
    requires
        0 <= act < seats.len(),
        occupied(seats, act),
        table_chips(seats) <= u64::MAX,
    ensures
        ({
            let q = blind_step(seat_player(seats, act), amount, max_bet_of(seats));
            let seats2 = seats.update(act, Some(q));
            &&& table_chips(seats2) == table_chips(seats)
            &&& occupied_count(seats2) == occupied_count(seats)
            &&& q.seat_index == seat_player(seats, act).seat_index
            &&& q.total_bet == seat_player(seats, act).total_bet
            &&& q.cards == seat_player(seats, act).cards
        }),
{
    let p = seat_player(seats, act);
    let q = blind_step(p, amount, max_bet_of(seats));
    assert(forall|o: Option<Player>| #[trigger] chips_fn()(o) >= 0);
    lemma_seat_sum_element_le(seats, chips_fn(), act);
    lemma_blind_step_frame(p, amount, max_bet_of(seats));
    lemma_seat_sum_update(seats, chips_fn(), act, Some(q));
    lemma_seat_sum_update(seats, occupied_fn(), act, Some(q));
}

/// Posting a blind moves chips between a seat's balance and wager only:
/// the seat's chip total, identity, hand total and hole cards are
/// untouched, and occupancy cannot change.
pub proof fn lemma_blind_step_frame(p: Player, amount: u64, mb: int)
    requires
        player_chips(p) <= u64::MAX,
    ensures
        player_chips(blind_step(p, amount, mb)) == player_chips(p),
        blind_step(p, amount, mb).seat_index == p.seat_index,
        blind_step(p, amount, mb).total_bet == p.total_bet,
        blind_step(p, amount, mb).cards == p.cards,
        blind_step(p, amount, mb).appearance_type == p.appearance_type,
        blind_step(p, amount, mb).balance <= p.balance,
{
}

/// The two blinds stand posted at seats `s1` and `s2`: `s1` is the
/// first seat after the dealer that takes part in the hand and holds the
/// small blind's outcome, `s2` the first such seat after `s1` with the
/// big blind's outcome, measured against what the small blind posted;
/// every other participating seat is active with nothing wagered, and
/// the turn stands at the first seat after `s2` that still owes a
/// decision. Each blind outcome is `blind_step` applied to that seat's
/// freshly reset state: the blind where the balance covers it, the whole
/// balance and `AllIn` where it does not.
pub open spec fn blinds_posted(
    oseats: Seq<Option<Player>>,
    g1: Game,
    small_blind: u64,
    big_blind: u64,
    s1: int,
    s2: int,
) -> bool {
    let fseats = g1.players_by_seats@;
    let max = fseats.len() as int;
    &&& 0 <= s1 < max
    &&& 0 <= s2 < max
    &&& s1 != s2
    &&& is_first_passing(fseats, hand_eligible_fn(), g1.dealer_seat as int, s1, max)
    &&& is_first_passing(fseats, hand_eligible_fn(), s1, s2, max)
    &&& seat_player(fseats, s1) == blind_step(
        Player {
            state: PlayerState::Active,
            balance: seat_player(oseats, s1).balance,
            current_bet: 0,
            total_bet: 0,
            ..seat_player(fseats, s1)
        },
        small_blind,
        0,
    )
    &&& seat_player(fseats, s2) == blind_step(
        Player {
            state: PlayerState::Active,
            balance: seat_player(oseats, s2).balance,
            current_bet: 0,
            total_bet: 0,
            ..seat_player(fseats, s2)
        },
        big_blind,
        seat_player(fseats, s1).current_bet as int,
    )
    &&& forall|j: int|
        #![trigger fseats[j]]
        0 <= j < max && occupied(fseats, j) && j != s1 && j != s2 ==> {
            &&& seat_player(fseats, j).current_bet == 0
            &&& seat_player(fseats, j).balance == seat_player(oseats, j).balance
            &&& seat_player(fseats, j).state == (if seat_player(oseats, j).state
                == PlayerState::Left {
                PlayerState::Left
            } else {
                PlayerState::Active
            })
        }
    &&& (round_over(fseats) ==> g1.active_player == s2)
    &&& (!round_over(fseats) ==> is_first_passing(
        fseats,
        actionable_fn(),
        s2,
        g1.active_player as int,
        max,
    ))
}

/// What beginning a hand leaves behind, relative to the seats `oseats`
/// the table held as the hand began: the table is running, occupancy is
/// unchanged, departed seats stay departed, hand totals are zeroed, each
/// seat's chips are intact (balance plus round wager equals its old
/// balance), and whenever at least two seats take part, the two blinds
/// stand posted as `blinds_posted` says.
pub open spec fn hand_started_from(
    oseats: Seq<Option<Player>>,
    g1: Game,
    small_blind: u64,
    big_blind: u64,
) -> bool {
    let fseats = g1.players_by_seats@;
    &&& g1.game_state == GamePlayState::Started
    &&& g1.dealer_seat < g1.max_players
    &&& fseats.len() == oseats.len()
    &&& forall|i: int|
        #![trigger fseats[i]]
        0 <= i < oseats.len() ==> (occupied(fseats, i) <==> occupied(oseats, i))
    &&& forall|i: int|
        #![trigger fseats[i]]
        0 <= i < fseats.len() && occupied(fseats, i) ==> {
            &&& seat_player(fseats, i).total_bet == 0
            &&& seat_player(fseats, i).balance + seat_player(fseats, i).current_bet
                == seat_player(oseats, i).balance
            &&& (seat_player(fseats, i).state == PlayerState::Left <==> seat_player(
                oseats,
                i,
            ).state == PlayerState::Left)
        }
    &&& (two_hand_eligible(oseats) ==> exists|s1: int, s2: int|
        #[trigger] blinds_posted(oseats, g1, small_blind, big_blind, s1, s2))
}

/// After a hand start's two blind postings, the blinds stand posted as
/// `blinds_posted` says: `seats5` is the reset table on which the turn
/// scan picked `act6`, the small blind was posted there giving `seats7`,
/// the scan then picked `act7`, and the big blind was posted there.
proof fn lemma_blinds_were_posted(
    oldseats: Seq<Option<Player>>,
    seats5: Seq<Option<Player>>,
    act6: int,
    seats7: Seq<Option<Player>>,
    act7: int,
    g1: Game,
    sb: u64,
    bb: u64,
)
    requires
        two_hand_eligible(oldseats),
        oldseats.len() == g1.max_players,
        seats5.len() == g1.max_players,
        g1.players_by_seats@.len() == g1.max_players,
        g1.dealer_seat < g1.max_players,
        0 <= act6 < g1.max_players,
        0 <= act7 < g1.max_players,
        table_chips(seats5) <= u64::MAX,
        table_chips(seats7) <= u64::MAX,
        forall|j: int|
            #![trigger seats5[j]]
            0 <= j < seats5.len() ==> (occupied(seats5, j) <==> occupied(oldseats, j)),
        forall|j: int|
            #![trigger seats5[j]]
            0 <= j < seats5.len() && occupied(seats5, j) ==> {
                &&& seat_player(seats5, j).current_bet == 0
                &&& seat_player(seats5, j).total_bet == 0
                &&& seat_player(seats5, j).balance == seat_player(oldseats, j).balance
                &&& seat_player(seats5, j).state == (if seat_player(oldseats, j).state
                    == PlayerState::Left {
                    PlayerState::Left
                } else {
                    PlayerState::Active
                })
            },
        is_first_passing(seats5, actionable_fn(), g1.dealer_seat as int, act6, g1.max_players as int)
            || (none_between(seats5, actionable_fn(), 0, g1.max_players as int) && act6
            == g1.dealer_seat),
        seats7 == seats5.update(
            act6,
            Some(blind_step(seat_player(seats5, act6), sb, max_bet_of(seats5))),
        ),
        occupied(seats5, act6),
        ({
            let p6 = seat_player(seats5, act6);
            !can_act(p6) || round_over(seats7) ==> act7 == act6
        }),
        ({
            let p6 = seat_player(seats5, act6);
            can_act(p6) && !round_over(seats7) ==> is_first_passing(
                seats7,
                actionable_fn(),
                act6,
                act7,
                g1.max_players as int,
            )
        }),
        g1.players_by_seats@ == seats7.update(
            act7,
            Some(blind_step(seat_player(seats7, act7), bb, max_bet_of(seats7))),
        ),
        occupied(seats7, act7),
        ({
            let p7 = seat_player(seats7, act7);
            !can_act(p7) || round_over(g1.players_by_seats@) ==> g1.active_player == act7
        }),
        ({
            let p7 = seat_player(seats7, act7);
            can_act(p7) && !round_over(g1.players_by_seats@) ==> is_first_passing(
                g1.players_by_seats@,
                actionable_fn(),
                act7,
                g1.active_player as int,
                g1.max_players as int,
            )
        }),
    ensures
        exists|s1: int, s2: int| #[trigger] blinds_posted(oldseats, g1, sb, bb, s1, s2),
{
    let fseats = g1.players_by_seats@;
    let max = g1.max_players as int;
    let dealer = g1.dealer_seat as int;
    let (e1, e2) = choose|e1: int, e2: int|
        0 <= e1 < oldseats.len() && 0 <= e2 < oldseats.len() && e1 != e2 && hand_eligible_fn()(
            #[trigger] oldseats[e1],
        ) && hand_eligible_fn()(#[trigger] oldseats[e2]);
    // Every participating seat sat active when the turn scan ran.
    assert(forall|j: int|
        #![trigger seats5[j]]
        0 <= j < max ==> (actionable_fn()(seats5[j]) <==> hand_eligible_fn()(oldseats[j])));
    assert(seat_actionable(seats5[e1]) && seat_actionable(seats5[e2]));
    assert(!none_between(seats5, actionable_fn(), 0, max));
    let s1 = act6;
    assert(is_first_passing(seats5, actionable_fn(), dealer, s1, max));
    // The small-blind seat is not the dealer slot itself: another
    // participating seat always precedes it in the scan.
    assert(s1 != dealer) by {
        if s1 == dealer {
            assert(e1 == dealer && e2 == dealer);
        }
    };
    let p6 = seat_player(seats5, s1);
    assert(can_act(p6) && p6.state == PlayerState::Active);
    lemma_max_bet_of_all_zero(seats5);
    let q6 = blind_step(p6, sb, 0);
    assert(seats7 == seats5.update(s1, Some(q6)));
    assert(forall|o: Option<Player>| #[trigger] chips_fn()(o) >= 0);
    lemma_seat_sum_element_le(seats5, chips_fn(), s1);
    lemma_blind_step_frame(p6, sb, 0);
    // Some other participating seat is still active after the small
    // blind posts, so the round stays open.
    let t = if e1 != s1 {
        e1
    } else {
        e2
    };
    assert(seat_player(seats7, t).state == PlayerState::Active);
    assert(!round_over(seats7));
    let s2 = act7;
    assert(is_first_passing(seats7, actionable_fn(), s1, s2, max));
    assert(s2 != s1) by {
        if s2 == s1 {
            assert(!seat_actionable(seats7[t]));
        }
    };
    let p7 = seat_player(seats7, s2);
    assert(p7 == seat_player(seats5, s2));
    assert(can_act(p7) && p7.state == PlayerState::Active);
    lemma_max_bet_of_single(seats7, s1);
    let q7 = blind_step(p7, bb, q6.current_bet as int);
    assert(fseats == seats7.update(s2, Some(q7)));
    lemma_seat_sum_element_le(seats7, chips_fn(), s2);
    lemma_blind_step_frame(p7, bb, q6.current_bet as int);
    // The final seats agree with the participation pattern everywhere,
    // so both scans carry over.
    assert(forall|j: int|
        #![trigger fseats[j]]
        0 <= j < max ==> (hand_eligible_fn()(fseats[j]) <==> hand_eligible_fn()(oldseats[j])));
    lemma_first_passing_transfer(
        seats5,
        fseats,
        actionable_fn(),
        hand_eligible_fn(),
        dealer,
        s1,
        max,
    );
    lemma_first_passing_transfer(
        seats7,
        fseats,
        actionable_fn(),
        hand_eligible_fn(),
        s1,
        s2,
        max,
    );
    // The stated blind outcomes are exactly what was posted.
    assert(seat_player(fseats, s1) == q6);
    assert(seat_player(fseats, s2) == q7);
    assert(p6 == (Player {
        state: PlayerState::Active,
        balance: seat_player(oldseats, s1).balance,
        current_bet: 0,
        total_bet: 0,
        ..seat_player(fseats, s1)
    }));
    assert(p7 == (Player {
        state: PlayerState::Active,
        balance: seat_player(oldseats, s2).balance,
        current_bet: 0,
        total_bet: 0,
        ..seat_player(fseats, s2)
    }));
    assert(blinds_posted(oldseats, g1, sb, bb, s1, s2));
}

impl Game {
    /// Posts one blind at the active seat: a bet of `amount`, falling
    /// back to forcing the seat all in when the bet is refused; a seat
    /// short of the blind is never rejected outright. After a posting
    /// the turn advances to the next seat owing a decision.
    fn post_blind(&mut self, amount: u64)
        requires
            old(self).players_by_seats@.len() == old(self).max_players,
            old(self).active_player < old(self).max_players,
            occupied(old(self).players_by_seats@, old(self).active_player as int),
            table_chips(old(self).players_by_seats@) <= u64::MAX,
        ensures
            *final(self) == (Game {
                players_by_seats: final (self).players_by_seats,
                active_player: final (self).active_player,
                ..*old(self)
            }),
            final (self).players_by_seats@ == old(self).players_by_seats@.update(
                old(self).active_player as int,
                Some(
                    blind_step(
                        seat_player(old(self).players_by_seats@, old(self).active_player as int),
                        amount,
                        max_bet_of(old(self).players_by_seats@),
                    ),
                ),
            ),
            ({
                let p = seat_player(old(self).players_by_seats@, old(self).active_player as int);
                let seats1 = final (self).players_by_seats@;
                if !can_act(p) || round_over(seats1) {
                    final (self).active_player == old(self).active_player
                } else {
                    is_first_passing(
                        seats1,
                        actionable_fn(),
                        old(self).active_player as int,
                        final (self).active_player as int,
                        old(self).max_players as int,
                    )
                }
            }),
    {
        let mb = self.max_bet();
        let active = self.active_player;
        let ghost oldseats = self.players_by_seats@;
        proof {
            assert(forall|o: Option<Player>| #[trigger] chips_fn()(o) >= 0);
            lemma_seat_sum_element_le(oldseats, chips_fn(), active as int);
        }
        let taken = {
            let slot = &mut self.players_by_seats[active];
            slot.take()
        };
        let mut p = match taken {
            Some(p) => p,
            None => {
                return;
            },
        };
        let mut acted = false;
        if !(p.state == PlayerState::Folded || p.state == PlayerState::Left) {
            let under_raise = amount <= u64::MAX - p.current_bet && amount + p.current_bet < mb;
            proof {
                assert(under_raise == (amount + p.current_bet < max_bet_of(oldseats)));
            }
            if !under_raise && amount <= p.balance {
                let _ = p.perform_action(PlayerAction::Bet, amount);
                acted = true;
            } else {
                let _ = p.perform_action(PlayerAction::AllIn, 0);
                acted = true;
            }
        }
        self.players_by_seats.set(active, Some(p));
        proof {
            assert(self.players_by_seats@ =~= oldseats.update(
                active as int,
                Some(blind_step(oldseats[active as int].unwrap(), amount, max_bet_of(oldseats))),
            ));
        }
        if acted {
            let over = self.round_end();
            if !over {
                self.set_next_active_player();
            }
        }
    }

    /// Prepares a hand: shuffles and deals, advances the dealer button,
    /// reactivates every participating seat, zeroes the wager pools, and
    /// moves the turn to the first seat owing a decision after the
    /// dealer. The blinds are not yet posted.
    #[verifier::rlimit(100)]
    fn prepare_hand(&mut self, first_round: bool)
        requires
            old(self).players_by_seats@.len() == old(self).max_players,
            old(self).nicknames@.len() == old(self).max_players,
            old(self).deck@.len() == 52,
            old(self).deck@.to_multiset() == full_deck().to_multiset(),
            old(self).community_cards@.len() == 5,
            old(self).community_cards_shown <= 5,
            old(self).max_players <= 23,
            old(self).max_players * old(self).initial_balance <= u64::MAX,
            seats_wf(old(self).players_by_seats@, old(self).nicknames@),
            id_map_wf(old(self).players@, old(self).players_by_seats@),
            old(self).game_state == GamePlayState::Started,
            occupied_count(old(self).players_by_seats@) >= 3,
            forall|i: int|
                #![trigger old(self).players_by_seats@[i]]
                0 <= i < old(self).players_by_seats@.len() && occupied(
                    old(self).players_by_seats@,
                    i,
                ) ==> seat_player(old(self).players_by_seats@, i).current_bet == 0,
            seat_sum(old(self).players_by_seats@, balance_fn()) == occupied_count(
                old(self).players_by_seats@,
            ) * old(self).initial_balance,
            wager_total(old(self).players_by_seats@) <= occupied_count(
                old(self).players_by_seats@,
            ) * old(self).initial_balance,
            !first_round ==> old(self).dealer_seat < old(self).max_players,
        ensures
            *final(self) == (Game {
                players_by_seats: final (self).players_by_seats,
                deck: final (self).deck,
                community_cards: final (self).community_cards,
                dealer_seat: final (self).dealer_seat,
                active_player: final (self).active_player,
                ..*old(self)
            }),
            final (self).players_by_seats@.len() == old(self).players_by_seats@.len(),
            final (self).deck@.len() == 52,
            final (self).deck@.to_multiset() == full_deck().to_multiset(),
            final (self).community_cards@.len() == 5,
            forall|k: int| 0 <= k < 5 ==> final (self).community_cards@[k] is Some,
            forall|i: int|
                #![trigger final(self).players_by_seats@[i]]
                0 <= i < old(self).players_by_seats@.len() ==> (occupied(
                    final (self).players_by_seats@,
                    i,
                ) <==> occupied(old(self).players_by_seats@, i)),
            forall|i: int|
                #![trigger final(self).players_by_seats@[i]]
                0 <= i < final (self).players_by_seats@.len() && occupied(
                    final (self).players_by_seats@,
                    i,
                ) ==> {
                    &&& seat_player(final (self).players_by_seats@, i).current_bet == 0
                    &&& seat_player(final (self).players_by_seats@, i).total_bet == 0
                    &&& seat_player(final (self).players_by_seats@, i).balance == seat_player(
                        old(self).players_by_seats@,
                        i,
                    ).balance
                    &&& seat_player(final (self).players_by_seats@, i).state == (if seat_player(
                        old(self).players_by_seats@,
                        i,
                    ).state == PlayerState::Left {
                        PlayerState::Left
                    } else {
                        PlayerState::Active
                    })
                    &&& seat_player(final (self).players_by_seats@, i).seat_index == i
                    &&& seat_player(final (self).players_by_seats@, i).cards@.len() == 2
                },
            table_chips(final (self).players_by_seats@) == occupied_count(
                final (self).players_by_seats@,
            ) * old(self).initial_balance,
            occupied_count(final (self).players_by_seats@) == occupied_count(
                old(self).players_by_seats@,
            ),
            final (self).dealer_seat < old(self).max_players,
            occupied(final (self).players_by_seats@, final (self).dealer_seat as int),
            final (self).active_player < old(self).max_players,
            occupied(final (self).players_by_seats@, final (self).active_player as int),
            is_first_passing(
                final (self).players_by_seats@,
                actionable_fn(),
                final (self).dealer_seat as int,
                final (self).active_player as int,
                old(self).max_players as int,
            ) || (none_between(
                final (self).players_by_seats@,
                actionable_fn(),
                0,
                old(self).max_players as int,
            ) && final (self).active_player == final (self).dealer_seat),
            first_round ==> no_occupied_between(
                final (self).players_by_seats@,
                0,
                final (self).dealer_seat as int,
            ),
            !first_round ==> (if !no_occupied_between(
                final (self).players_by_seats@,
                old(self).dealer_seat + 1,
                old(self).max_players as int,
            ) {
                old(self).dealer_seat < final (self).dealer_seat && no_occupied_between(
                    final (self).players_by_seats@,
                    old(self).dealer_seat + 1,
                    final (self).dealer_seat as int,
                )
            } else {
                no_occupied_between(
                    final (self).players_by_seats@,
                    0,
                    final (self).dealer_seat as int,
                )
            }),
    {
        let ghost oldseats = self.players_by_seats@;
        self.deal_cards();
        if first_round {
            self.dealer_seat = self.first_taken_seat();
        } else {
            self.dealer_seat = next_player(
                &self.players_by_seats,
                self.dealer_seat,
                self.max_players,
            );
        }
        proof {
            // An occupied seat exists, so the dealer helpers found one.
            if no_occupied_between(self.players_by_seats@, 0, self.max_players as int) {
                assert(forall|i: int|
                    0 <= i < self.players_by_seats@.len() ==> occupied_fn()(
                        #[trigger] self.players_by_seats@[i],
                    ) == 0);
                lemma_seat_sum_zero(self.players_by_seats@, occupied_fn());
                lemma_seat_sum_cross(
                    self.players_by_seats@,
                    oldseats,
                    occupied_fn(),
                    occupied_fn(),
                );
            }
        }
        self.active_player = self.dealer_seat;
        self.set_players_active(true);
        self.reset_players();
        proof {
            let seats5 = self.players_by_seats@;
            lemma_seat_sum_cross(seats5, oldseats, chips_fn(), balance_fn());
            lemma_seat_sum_cross(seats5, oldseats, occupied_fn(), occupied_fn());
            lemma_indicator_le_len(seats5, occupied_fn());
            assert(table_chips(seats5) == occupied_count(seats5) * self.initial_balance);
            assert(occupied_count(seats5) * self.initial_balance <= self.max_players
                * self.initial_balance) by (nonlinear_arith)
                requires
                    occupied_count(seats5) <= self.max_players,
                    self.initial_balance >= 0,
            ;
        }
        let ghost seats5 = self.players_by_seats@;
        self.set_next_active_player();
        proof {
            assert(self.players_by_seats@ == seats5);
            assert(occupied(self.players_by_seats@, self.active_player as int));
        }
    }

    /// Opens a hand: prepares it and posts the two blinds, leaving the
    /// betting round open as `hand_started_from` says.
    #[verifier::rlimit(100)]
    fn begin_hand(&mut self, first_round: bool)
        requires
            old(self).players_by_seats@.len() == old(self).max_players,
            old(self).nicknames@.len() == old(self).max_players,
            old(self).deck@.len() == 52,
            old(self).deck@.to_multiset() == full_deck().to_multiset(),
            old(self).community_cards@.len() == 5,
            old(self).community_cards_shown <= 5,
            old(self).max_players <= 23,
            old(self).max_players * old(self).initial_balance <= u64::MAX,
            seats_wf(old(self).players_by_seats@, old(self).nicknames@),
            id_map_wf(old(self).players@, old(self).players_by_seats@),
            old(self).game_state == GamePlayState::Started,
            occupied_count(old(self).players_by_seats@) >= 3,
            forall|i: int|
                #![trigger old(self).players_by_seats@[i]]
                0 <= i < old(self).players_by_seats@.len() && occupied(
                    old(self).players_by_seats@,
                    i,
                ) ==> seat_player(old(self).players_by_seats@, i).current_bet == 0,
            seat_sum(old(self).players_by_seats@, balance_fn()) == occupied_count(
                old(self).players_by_seats@,
            ) * old(self).initial_balance,
            wager_total(old(self).players_by_seats@) <= occupied_count(
                old(self).players_by_seats@,
            ) * old(self).initial_balance,
            !first_round ==> old(self).dealer_seat < old(self).max_players,
        ensures
            final (self).wf(),
            final (self).max_players == old(self).max_players,
            final (self).small_blind == old(self).small_blind,
            final (self).big_blind == old(self).big_blind,
            final (self).initial_balance == old(self).initial_balance,
            final (self).players@ == old(self).players@,
            final (self).nicknames@ == old(self).nicknames@,
            final (self).game_phase == old(self).game_phase,
            final (self).community_cards_shown == old(self).community_cards_shown,
            final (self).players_by_seats@.len() == old(self).players_by_seats@.len(),
            hand_started_from(
                old(self).players_by_seats@,
                *final(self),
                old(self).small_blind,
                old(self).big_blind,
            ),
            first_round ==> occupied(
                final (self).players_by_seats@,
                final (self).dealer_seat as int,
            ) && no_occupied_between(
                final (self).players_by_seats@,
                0,
                final (self).dealer_seat as int,
            ),
            !first_round ==> occupied(
                final (self).players_by_seats@,
                final (self).dealer_seat as int,
            ) && (if !no_occupied_between(
                final (self).players_by_seats@,
                old(self).dealer_seat + 1,
                old(self).max_players as int,
            ) {
                old(self).dealer_seat < final (self).dealer_seat && no_occupied_between(
                    final (self).players_by_seats@,
                    old(self).dealer_seat + 1,
                    final (self).dealer_seat as int,
                )
            } else {
                no_occupied_between(
                    final (self).players_by_seats@,
                    0,
                    final (self).dealer_seat as int,
                )
            }),
    {
        let ghost oldseats = self.players_by_seats@;
        self.prepare_hand(first_round);
        proof {
            lemma_indicator_le_len(self.players_by_seats@, occupied_fn());
            assert(occupied_count(self.players_by_seats@) * self.initial_balance
                <= self.max_players * self.initial_balance) by (nonlinear_arith)
                requires
                    occupied_count(self.players_by_seats@) <= self.max_players,
                    self.initial_balance >= 0,
            ;
        }
        let ghost seats5 = self.players_by_seats@;
        let ghost act6 = self.active_player;
        let sb = self.small_blind;
        self.post_blind(sb);
        proof {
            lemma_blind_update_preserves(seats5, act6 as int, sb);
            assert(occupied(self.players_by_seats@, self.active_player as int));
        }
        let ghost seats7 = self.players_by_seats@;
        let ghost act7 = self.active_player;
        let bb = self.big_blind;
        self.post_blind(bb);
        proof {
            lemma_blind_update_preserves(seats7, act7 as int, bb);
            assert(occupied(self.players_by_seats@, self.active_player as int));
        }
        proof {
            if two_hand_eligible(oldseats) {
                lemma_blinds_were_posted(
                    oldseats,
                    seats5,
                    act6 as int,
                    seats7,
                    act7 as int,
                    *self,
                    sb,
                    bb,
                );
            }
        }
    }

    /// Begins a hand, or ends the table. When at most two occupied seats
    /// still hold chips, the table transitions to `Ended` and deals no
    /// further hands, leaving everything else exactly as it was;
    /// otherwise the next hand opens as `begin_hand` says.
    pub fn start_round(&mut self, first_round: bool)
        requires
            old(self).players_by_seats@.len() == old(self).max_players,
            old(self).nicknames@.len() == old(self).max_players,
            old(self).deck@.len() == 52,
            old(self).deck@.to_multiset() == full_deck().to_multiset(),
            old(self).community_cards@.len() == 5,
            old(self).community_cards_shown <= 5,
            old(self).max_players <= 23,
            old(self).max_players * old(self).initial_balance <= u64::MAX,
            seats_wf(old(self).players_by_seats@, old(self).nicknames@),
            id_map_wf(old(self).players@, old(self).players_by_seats@),
            old(self).game_state == GamePlayState::Started,
            occupied_count(old(self).players_by_seats@) >= 3,
            forall|i: int|
                #![trigger old(self).players_by_seats@[i]]
                0 <= i < old(self).players_by_seats@.len() && occupied(
                    old(self).players_by_seats@,
                    i,
                ) ==> seat_player(old(self).players_by_seats@, i).current_bet == 0,
            seat_sum(old(self).players_by_seats@, balance_fn()) == occupied_count(
                old(self).players_by_seats@,
            ) * old(self).initial_balance,
            wager_total(old(self).players_by_seats@) <= occupied_count(
                old(self).players_by_seats@,
            ) * old(self).initial_balance,
            !first_round ==> old(self).dealer_seat < old(self).max_players,
        ensures
            final (self).wf(),
            final (self).max_players == old(self).max_players,
            final (self).small_blind == old(self).small_blind,
            final (self).big_blind == old(self).big_blind,
            final (self).initial_balance == old(self).initial_balance,
            final (self).players@ == old(self).players@,
            final (self).nicknames@ == old(self).nicknames@,
            final (self).game_phase == old(self).game_phase,
            final (self).community_cards_shown == old(self).community_cards_shown,
            final (self).players_by_seats@.len() == old(self).players_by_seats@.len(),
            forall|i: int|
                #![trigger final(self).players_by_seats@[i]]
                0 <= i < old(self).players_by_seats@.len() ==> (occupied(
                    final (self).players_by_seats@,
                    i,
                ) <==> occupied(old(self).players_by_seats@, i)),
            positive_count(old(self).players_by_seats@) <= 2 <==> final (self).game_state
                == GamePlayState::Ended,
            final (self).game_state == GamePlayState::Ended ==> *final(self) == (Game {
                players_by_seats: final (self).players_by_seats,
                game_state: GamePlayState::Ended,
                ..*old(self)
            }) && forall|i: int|
                #![trigger final(self).players_by_seats@[i]]
                0 <= i < old(self).players_by_seats@.len() ==> final (self).players_by_seats@[i]
                    == (match old(self).players_by_seats@[i] {
                    Some(p) => Some(reset_step(p)),
                    None => None::<Player>,
                }),
            final (self).game_state != GamePlayState::Ended ==> {
                &&& hand_started_from(
                    old(self).players_by_seats@,
                    *final(self),
                    old(self).small_blind,
                    old(self).big_blind,
                )
                &&& (first_round ==> occupied(
                    final (self).players_by_seats@,
                    final (self).dealer_seat as int,
                ) && no_occupied_between(
                    final (self).players_by_seats@,
                    0,
                    final (self).dealer_seat as int,
                ))
                &&& (!first_round ==> occupied(
                    final (self).players_by_seats@,
                    final (self).dealer_seat as int,
                ) && (if !no_occupied_between(
                    final (self).players_by_seats@,
                    old(self).dealer_seat + 1,
                    old(self).max_players as int,
                ) {
                    old(self).dealer_seat < final (self).dealer_seat && no_occupied_between(
                        final (self).players_by_seats@,
                        old(self).dealer_seat + 1,
                        final (self).dealer_seat as int,
                    )
                } else {
                    no_occupied_between(
                        final (self).players_by_seats@,
                        0,
                        final (self).dealer_seat as int,
                    )
                }))
            },
    {
        if self.someone_won() {
            // The table ends: zero the wager pools, so the conserved sum
            // stands in plain balances and an ended table's snapshot
            // shows no pot.
            let ghost oldseats = self.players_by_seats@;
            self.reset_players();
            self.game_state = GamePlayState::Ended;
            proof {
                lemma_seat_sum_cross(self.players_by_seats@, oldseats, chips_fn(), balance_fn());
                lemma_seat_sum_cross(
                    self.players_by_seats@,
                    oldseats,
                    occupied_fn(),
                    occupied_fn(),
                );
                lemma_seat_sum_cross(
                    self.players_by_seats@,
                    oldseats,
                    positive_fn(),
                    positive_fn(),
                );
            }
            return;
        }
        self.begin_hand(first_round);
    }
}

/// Every occupied seat has marked itself ready.
pub open spec fn all_ready(seats: Seq<Option<Player>>) -> bool {
    forall|i: int|
        #![trigger seats[i]]
        0 <= i < seats.len() && occupied(seats, i) ==> seat_player(seats, i).state
            == PlayerState::Ready
}

/// A freshly seated player: the initial balance, nothing wagered, not
/// yet ready, holding two placeholder hole cards.
pub open spec fn fresh_player(p: Player, seat: u8, initial_balance: u64, appearance: u8) -> bool {
    &&& p.seat_index == seat
    &&& p.balance == initial_balance
    &&& p.current_bet == 0
    &&& p.total_bet == 0
    &&& p.state == PlayerState::NotReady
    &&& p.appearance_type == appearance
    &&& p.cards@.len() == 2
}

impl Game {
    /// Starts the table when it may start: at least three occupied
    /// seats, every one of them ready, and only from `NotStarted`. On
    /// success the first hand begins at once, and the table is `Started`
    /// unless the stakes are degenerate (a zero initial balance leaves
    /// no seat with chips, so the table ends immediately).
    pub fn start_game(&mut self) -> (r: Result<u64, GameError>)
        requires
            old(self).wf(),
        ensures
            final (self).wf(),
            old(self).game_state != GamePlayState::NotStarted ==> r == Err::<u64, GameError>(
                GameError::GameNotJoinable,
            ) && *final(self) == *old(self),
            old(self).game_state == GamePlayState::NotStarted && occupied_count(
                old(self).players_by_seats@,
            ) < 3 ==> r == Err::<u64, GameError>(GameError::TooFewPlayers) && *final(self) == *old(self),
            old(self).game_state == GamePlayState::NotStarted && occupied_count(
                old(self).players_by_seats@,
            ) >= 3 && !all_ready(old(self).players_by_seats@) ==> r == Err::<u64, GameError>(
                GameError::NotAllReady,
            ) && *final(self) == *old(self),
            old(self).game_state == GamePlayState::NotStarted && occupied_count(
                old(self).players_by_seats@,
            ) >= 3 && all_ready(old(self).players_by_seats@) ==> {
                &&& r == Ok::<u64, GameError>(0)
                &&& (old(self).initial_balance > 0 ==> final (self).game_state
                    == GamePlayState::Started)
                &&& (old(self).initial_balance == 0 ==> final (self).game_state
                    == GamePlayState::Ended)
                &&& (final (self).game_state == GamePlayState::Started ==> hand_started_from(
                    old(self).players_by_seats@,
                    *final(self),
                    old(self).small_blind,
                    old(self).big_blind,
                ) && occupied(final (self).players_by_seats@, final (self).dealer_seat as int)
                    && no_occupied_between(
                    final (self).players_by_seats@,
                    0,
                    final (self).dealer_seat as int,
                ))
                &&& final (self).max_players == old(self).max_players
                &&& final (self).small_blind == old(self).small_blind
                &&& final (self).big_blind == old(self).big_blind
                &&& final (self).initial_balance == old(self).initial_balance
                &&& final (self).players@ == old(self).players@
                &&& final (self).nicknames@ == old(self).nicknames@
                &&& final (self).game_phase == old(self).game_phase
                &&& final (self).community_cards_shown == old(self).community_cards_shown
                &&& forall|i: int|
                    #![trigger final(self).players_by_seats@[i]]
                    0 <= i < old(self).players_by_seats@.len() ==> (occupied(
                        final (self).players_by_seats@,
                        i,
                    ) <==> occupied(old(self).players_by_seats@, i))
            },
    {
        if self.game_state != GamePlayState::NotStarted {
            return Err(GameError::GameNotJoinable);
        }
        let count = self.players_count();
        if count < 3 {
            return Err(GameError::TooFewPlayers);
        }
        let seats_len = self.players_by_seats.len();
        let mut i: usize = 0;
        while i < seats_len
            invariant
                *self == *old(self),
                self.wf(),
                self.game_state == GamePlayState::NotStarted,
                occupied_count(self.players_by_seats@) >= 3,
                seats_len == self.players_by_seats@.len(),
                i <= seats_len,
                forall|j: int|
                    #![trigger self.players_by_seats@[j]]
                    0 <= j < i && occupied(self.players_by_seats@, j) ==> seat_player(
                        self.players_by_seats@,
                        j,
                    ).state == PlayerState::Ready,
            decreases seats_len - i,
        {
            match &self.players_by_seats[i] {
                Some(pl) => {
                    if pl.state == PlayerState::NotReady {
                        return Err(GameError::NotAllReady);
                    }
                    proof {
                        // Pre-hand seats are either ready or not ready.
                        assert(pre_hand_seat(
                            seat_player(self.players_by_seats@, i as int),
                            self.initial_balance,
                        ));
                    }
                },
                None => (),
            }
            i = i + 1;
        }
        self.game_state = GamePlayState::Started;
        proof {
            let seats = self.players_by_seats@;
            assert(forall|o: Option<Player>| #[trigger] wager_fn()(o) >= 0);
            lemma_seat_sum_cross(seats, seats, balance_fn(), chips_fn());
            lemma_seat_sum_zero(seats, wager_fn());
            lemma_seat_sum_nonneg(seats, wager_fn());
            lemma_indicator_le_len(seats, occupied_fn());
            lemma_seat_sum_nonneg(seats, occupied_fn());
            assert(occupied_count(seats) * self.initial_balance >= 0) by (nonlinear_arith)
                requires
                    occupied_count(seats) >= 0,
                    self.initial_balance >= 0,
            ;
        }
        let ghost pre = *self;
        self.start_round(true);
        proof {
            // With every seat at the initial balance, the seats with
            // chips are all occupied seats or none at all.
            if self.initial_balance > 0 {
                lemma_seat_sum_cross(
                    pre.players_by_seats@,
                    pre.players_by_seats@,
                    positive_fn(),
                    occupied_fn(),
                );
            } else {
                assert(forall|i: int|
                    0 <= i < pre.players_by_seats@.len() ==> positive_fn()(
                        #[trigger] pre.players_by_seats@[i],
                    ) == 0);
                lemma_seat_sum_zero(pre.players_by_seats@, positive_fn());
            }
        }
        Ok(0)
    }
}



/// What a completed join leaves behind, given the identifier `player_id`
/// the new player was assigned: a freshly seated not-ready player, a
/// recorded nickname, one new participant entry, and a table otherwise
/// untouched and still not started.
pub open spec fn joined_seat(
    g0: Game,
    g1: Game,
    player_id: u64,
    seat_index: u8,
    nickname: Seq<char>,
    appearance_type: u8,
) -> bool {
    &&& g1.game_state == GamePlayState::NotStarted
    &&& g1.players_by_seats@.len() == g0.players_by_seats@.len()
    &&& occupied(g1.players_by_seats@, seat_index as int)
    &&& fresh_player(
        seat_player(g1.players_by_seats@, seat_index as int),
        seat_index,
        g0.initial_balance,
        appearance_type,
    )
    &&& forall|j: int|
        #![trigger g1.players_by_seats@[j]]
        0 <= j < g0.players_by_seats@.len() && j != seat_index as int ==> g1.players_by_seats@[j]
            == g0.players_by_seats@[j]
    &&& g1.nicknames@ == g0.nicknames@.update(
        seat_index as int,
        Some(g1.nicknames@[seat_index as int].unwrap()),
    )
    &&& g1.nicknames@[seat_index as int].unwrap()@ == nickname
    &&& g1.players@ == g0.players@.insert(player_id, seat_index as usize)
    &&& occupied_count(g1.players_by_seats@) == occupied_count(g0.players_by_seats@) + 1
    &&& g1.max_players == g0.max_players
    &&& g1.small_blind == g0.small_blind
    &&& g1.big_blind == g0.big_blind
    &&& g1.initial_balance == g0.initial_balance
    &&& g1.game_phase == g0.game_phase
    &&& g1.community_cards_shown == g0.community_cards_shown
    &&& g1.dealer_seat == g0.dealer_seat
    &&& g1.active_player == g0.active_player
    &&& g1.deck@ == g0.deck@
    &&& g1.community_cards@ == g0.community_cards@
}

/// Everything a join with a caller-given identifier promises, between
/// the table before (`g0`) and after (`g1`): the exact error on a
/// missing seat, a taken seat, a started table, or an identifier that is
/// already in use, and otherwise the completed join under exactly that
/// identifier.
pub open spec fn join_with_id_post(
    g0: Game,
    g1: Game,
    player_id: u64,
    seat_index: u8,
    nickname: Seq<char>,
    appearance_type: u8,
    r: Result<u64, GameError>,
) -> bool {
    &&& (seat_index as int >= g0.max_players ==> r == Err::<u64, GameError>(GameError::NotFound)
        && g1 == g0)
    &&& ((seat_index as int) < g0.max_players && occupied(g0.players_by_seats@, seat_index as int)
        ==> r == Err::<u64, GameError>(GameError::SeatTaken) && g1 == g0)
    &&& ((seat_index as int) < g0.max_players && !occupied(g0.players_by_seats@, seat_index as int)
        && g0.game_state != GamePlayState::NotStarted ==> r == Err::<u64, GameError>(
        GameError::GameNotJoinable,
    ) && g1 == g0)
    &&& ((seat_index as int) < g0.max_players && !occupied(g0.players_by_seats@, seat_index as int)
        && g0.game_state == GamePlayState::NotStarted && g0.players@.contains_key(player_id) ==> r
        == Err::<u64, GameError>(GameError::IdentifierTaken) && g1 == g0)
    &&& ((seat_index as int) < g0.max_players && !occupied(g0.players_by_seats@, seat_index as int)
        && g0.game_state == GamePlayState::NotStarted && !g0.players@.contains_key(player_id)
        ==> r == Ok::<u64, GameError>(player_id) && joined_seat(
        g0,
        g1,
        player_id,
        seat_index,
        nickname,
        appearance_type,
    ))
}

/// Everything `join_game` promises: as `join_with_id_post`, under a
/// randomly drawn identifier. The draw decides which identifier the
/// player gets, so on a joinable seat the join either completes under a
/// fresh identifier or reports the drawn one taken, leaving the table
/// untouched; drawing again is free.
pub open spec fn join_post(
    g0: Game,
    g1: Game,
    seat_index: u8,
    nickname: Seq<char>,
    appearance_type: u8,
    r: Result<u64, GameError>,
) -> bool {
    exists|player_id: u64|
        #[trigger] join_with_id_post(g0, g1, player_id, seat_index, nickname, appearance_type, r)
}


/// Everything `set_ready` promises, between the table before (`g0`) and
/// after (`g1`): rejected once the table has started or when the seat
/// holds nobody; otherwise the seat's readiness is toggled and a start
/// is attempted, so the table leaves `NotStarted` exactly when at least
/// three seats are occupied and every one of them is ready.
pub open spec fn set_ready_post(
    g0: Game,
    g1: Game,
    player_index: usize,
    ready: bool,
    r: Result<bool, GameError>,
) -> bool {
    &&& (g0.game_state != GamePlayState::NotStarted ==> r == Err::<bool, GameError>(
        GameError::GameNotJoinable,
    ) && g1 == g0)
    &&& (g0.game_state == GamePlayState::NotStarted && (player_index as int >= g0.max_players
        || !occupied(g0.players_by_seats@, player_index as int)) ==> r == Err::<bool, GameError>(
        GameError::NotFound,
    ) && g1 == g0)
    &&& (g0.game_state == GamePlayState::NotStarted && (player_index as int) < g0.max_players
        && occupied(g0.players_by_seats@, player_index as int) ==> {
        let toggled = g0.players_by_seats@.update(
            player_index as int,
            Some(
                (Player {
                    state: if ready {
                        PlayerState::Ready
                    } else {
                        PlayerState::NotReady
                    },
                    ..seat_player(g0.players_by_seats@, player_index as int)
                }),
            ),
        );
        &&& r == Ok::<bool, GameError>(ready)
        &&& !(occupied_count(toggled) >= 3 && all_ready(toggled)) ==> g1.players_by_seats@
            == toggled && g1.game_state == GamePlayState::NotStarted
        &&& (occupied_count(toggled) >= 3 && all_ready(toggled)) ==> {
            &&& (g0.initial_balance > 0 ==> g1.game_state == GamePlayState::Started)
            &&& (g0.initial_balance == 0 ==> g1.game_state == GamePlayState::Ended)
            &&& (g1.game_state == GamePlayState::Started ==> hand_started_from(
                toggled,
                g1,
                g0.small_blind,
                g0.big_blind,
            ) && occupied(g1.players_by_seats@, g1.dealer_seat as int) && no_occupied_between(
                g1.players_by_seats@,
                0,
                g1.dealer_seat as int,
            ))
        }
        &&& g1.players@ == g0.players@
        &&& g1.nicknames@ == g0.nicknames@
        &&& g1.max_players == g0.max_players
        &&& g1.initial_balance == g0.initial_balance
        &&& g1.small_blind == g0.small_blind
        &&& g1.big_blind == g0.big_blind
        &&& g1.game_phase == g0.game_phase
        &&& g1.community_cards_shown == g0.community_cards_shown
        &&& (!(occupied_count(toggled) >= 3 && all_ready(toggled)) ==> g1 == (Game {
            players_by_seats: g1.players_by_seats,
            ..g0
        }))
    })
}

impl Game {
    /// Seats a new player: the chosen seat must exist and be empty, and
    /// the table must not have started. The player gets the initial
    /// balance and a fresh participant identifier, which is returned.
    /// When the last seat fills, a start is attempted; it cannot yet
    /// succeed, because the newcomer is not ready.
    /// Seats a new player under the given participant identifier,
    /// exactly as `join_with_id_post` says; an identifier already in use
    /// at this table is refused, which keeps the participant map the
    /// exact inverse of seat occupancy.
    pub fn join_with_id(
        &mut self,
        player_id: u64,
        seat_index: u8,
        nickname: &str,
        appearance_type: u8,
    ) -> (r: Result<u64, GameError>)
        requires
            old(self).wf(),
        ensures
            final (self).wf(),
            join_with_id_post(
                *old(self),
                *final(self),
                player_id,
                seat_index,
                nickname@,
                appearance_type,
                r,
            ),
    {
        let seat = seat_index as usize;
        if seat >= self.players_by_seats.len() {
            return Err(GameError::NotFound);
        }
        match &self.players_by_seats[seat] {
            Some(_) => {
                return Err(GameError::SeatTaken);
            },
            None => (),
        }
        if self.game_state != GamePlayState::NotStarted {
            return Err(GameError::GameNotJoinable);
        }
        if self.players.contains_key(&player_id) {
            return Err(GameError::IdentifierTaken);
        }
        let player = Player::new_player(seat_index, self.initial_balance, appearance_type);
        let ghost oldseats = self.players_by_seats@;
        let ghost oldmap = self.players@;
        self.players.insert(player_id, seat);
        self.players_by_seats.set(seat, Some(player));
        self.nicknames.set(seat, Some(nickname.to_owned()));
        proof {
            lemma_seat_sum_update(oldseats, chips_fn(), seat as int, Some(player));
            lemma_seat_sum_update(oldseats, occupied_fn(), seat as int, Some(player));
            lemma_indicator_le_len(self.players_by_seats@, occupied_fn());
            assert((occupied_count(oldseats) + 1) * self.initial_balance == occupied_count(
                oldseats,
            ) * self.initial_balance + self.initial_balance) by (nonlinear_arith);
        }
        proof {
            assert(self.players_by_seats@[seat_index as int] == Some(player));
            assert(seat_player(self.players_by_seats@, seat_index as int).state
                == PlayerState::NotReady);
            assert(!all_ready(self.players_by_seats@));
            // The new identifier names the newly occupied seat; every
            // other occupied seat keeps its old name.
            assert forall|i: int|
                0 <= i < self.players_by_seats@.len() && occupied(
                    self.players_by_seats@,
                    i,
                ) implies seat_has_id(self.players@, i) by {
                if i == seat as int {
                    assert(self.players@.contains_key(player_id) && self.players@[player_id]
                        == i);
                } else {
                    assert(occupied(oldseats, i));
                    let w = choose|w: u64| #[trigger] oldmap.contains_key(w) && oldmap[w] == i;
                    assert(self.players@.contains_key(w) && self.players@[w] == i);
                }
            };
            assert(self.wf());
        }
        let count = self.players_count();
        if count as usize == self.max_players {
            let _ = self.start_game();
        }
        Ok(player_id)
    }

    /// Seats a new player under a freshly drawn identifier. The draw
    /// decides the identifier, so the join either completes under it or
    /// reports it taken and leaves the table untouched; a caller may
    /// simply join again.
    pub fn join_game(&mut self, seat_index: u8, nickname: &str, appearance_type: u8) -> (r: Result<
        u64,
        GameError,
    >)
        requires
            old(self).wf(),
        ensures
            final (self).wf(),
            join_post(*old(self), *final(self), seat_index, nickname@, appearance_type, r),
    {
        let player_id = fresh_id();
        self.join_with_id(player_id, seat_index, nickname, appearance_type)
    }

    /// Marks the seated player at `player_index` ready or not ready;
    /// legal only before the table starts. Every readiness change
    /// attempts a start, so the table starts exactly when the last
    /// occupied seat turns ready with at least three seats occupied.
    pub fn set_ready(&mut self, player_index: usize, ready: bool) -> (r: Result<bool, GameError>)
        requires
            old(self).wf(),
        ensures
            final (self).wf(),
            set_ready_post(*old(self), *final(self), player_index, ready, r),
    {
        if self.game_state != GamePlayState::NotStarted {
            return Err(GameError::GameNotJoinable);
        }
        if player_index >= self.players_by_seats.len() {
            return Err(GameError::NotFound);
        }
        match &self.players_by_seats[player_index] {
            None => {
                return Err(GameError::NotFound);
            },
            Some(_) => (),
        }
        let ghost oldseats = self.players_by_seats@;
        let taken = {
            let slot = &mut self.players_by_seats[player_index];
            slot.take()
        };
        let mut p = match taken {
            Some(p) => p,
            None => {
                return Err(GameError::NotFound);
            },
        };
        p.set_ready(ready);
        self.players_by_seats.set(player_index, Some(p));
        proof {
            assert(self.players_by_seats@ == oldseats.update(player_index as int, Some(p)));
            assert(oldseats[player_index as int] is Some);
            let oldp = seat_player(oldseats, player_index as int);
            assert(pre_hand_seat(oldp, self.initial_balance));
            lemma_seat_sum_update(oldseats, chips_fn(), player_index as int, Some(p));
            lemma_seat_sum_update(oldseats, occupied_fn(), player_index as int, Some(p));
            assert(chips_fn()(Some(p)) == chips_fn()(oldseats[player_index as int]));
            assert(table_chips(self.players_by_seats@) == table_chips(oldseats));
            assert(occupied_count(self.players_by_seats@) == occupied_count(oldseats));
            assert(self.wf());
        }
        let _ = self.start_game();
        Ok(ready)
    }
}


/// The phase that follows each phase; after the river the next hand
/// begins at the pre-flop.
pub open spec fn next_phase(ph: GamePhase) -> GamePhase {
    match ph {
        GamePhase::PreFlop => GamePhase::Flop,
        GamePhase::Flop => GamePhase::Turn,
        GamePhase::Turn => GamePhase::River,
        GamePhase::River => GamePhase::PreFlop,
    }
}

/// How many community cards the phase advance out of each phase reveals.
pub open spec fn shown_after(ph: GamePhase) -> int {
    match ph {
        GamePhase::PreFlop => 3,
        GamePhase::Flop => 4,
        GamePhase::Turn => 5,
        GamePhase::River => 0,
    }
}

/// The full acceptance decision for one player action: the exact error
/// on every rejected input, and the stepped player with the returned
/// wager on every accepted one. Calls and checks are measured against
/// the table's current highest wager; a bet may not land below it.
pub open spec fn action_verdict(g: Game, seat: usize, action: PlayerAction, amount: u64) -> Result<
    (Player, u64),
    GameError,
> {
    let seats = g.players_by_seats@;
    if g.game_state != GamePlayState::Started {
        Err(GameError::NotYourTurn)
    } else if seat != g.active_player {
        Err(GameError::NotYourTurn)
    } else if seat as int >= seats.len() || !occupied(seats, seat as int) {
        Err(GameError::NotFound)
    } else {
        let p = seat_player(seats, seat as int);
        let mb = max_bet_of(seats);
        if action == PlayerAction::Bet && amount + p.current_bet < mb {
            Err(GameError::BetTooSmall)
        } else {
            let target = if action == PlayerAction::Call || action == PlayerAction::Check {
                mb as u64
            } else {
                amount
            };
            player_step(p, action, target)
        }
    }
}


/// Everything `player_action` promises, between the table before (`g0`)
/// and after (`g1`): the table is untouched on every rejection, with
/// the exact error `action_verdict` names; on an accepted action the
/// acting seat steps as the verdict says, and the table advances by
/// turn, by phase, or through showdown into the next hand.
pub open spec fn action_post(
    g0: Game,
    g1: Game,
    player_index: usize,
    action: PlayerAction,
    amount: u64,
    r: Result<(), GameError>,
) -> bool {
    match action_verdict(g0, player_index, action, amount) {
        Err(e) => {
            &&& r == Err::<(), GameError>(e)
            &&& g1.players_by_seats@ == g0.players_by_seats@
            &&& g1 == (Game { players_by_seats: g1.players_by_seats, ..g0 })
        },
        Ok(qv) => {
            let seats1 = g0.players_by_seats@.update(player_index as int, Some(qv.0));
            &&& r == Ok::<(), GameError>(())
            &&& if !round_over(seats1) {
                &&& g1.players_by_seats@ == seats1
                &&& g1.game_phase == g0.game_phase
                &&& g1.community_cards_shown == g0.community_cards_shown
                &&& g1.game_state == GamePlayState::Started
                &&& g1.dealer_seat == g0.dealer_seat
                &&& is_first_passing(
                    seats1,
                    actionable_fn(),
                    g0.active_player as int,
                    g1.active_player as int,
                    g0.max_players as int,
                )
            } else if g0.game_phase != GamePhase::River {
                &&& g1.game_phase == next_phase(g0.game_phase)
                &&& g1.community_cards_shown == shown_after(g0.game_phase)
                &&& g1.game_state == GamePlayState::Started
                &&& g1.dealer_seat == g0.dealer_seat
                &&& g1.active_player == g0.active_player
                &&& g1.players_by_seats@.len() == seats1.len()
                &&& forall|i: int|
                    #![trigger g1.players_by_seats@[i]]
                    0 <= i < seats1.len() ==> g1.players_by_seats@[i] == (match seats1[i] {
                        Some(p2) => Some(collect_bet_step(set_active_step(p2, false))),
                        None => None::<Player>,
                    })
            } else {
                &&& g1.game_phase == GamePhase::PreFlop
                &&& g1.community_cards_shown == 0
                &&& (g1.game_state == GamePlayState::Started || g1.game_state
                    == GamePlayState::Ended)
                &&& hand_settled(
                    seats1,
                    g0.community_cards@,
                    g0.dealer_seat as int,
                    g0.small_blind,
                    g0.big_blind,
                    g1,
                )
            }
        },
    }
}

/// The seats with the last betting round's wagers collected into the
/// hand totals, as they stand at the moment of the showdown.
pub open spec fn collected_seats(seats: Seq<Option<Player>>) -> Seq<Option<Player>> {
    Seq::new(
        seats.len(),
        |i: int|
            match seats[i] {
                Some(p) => Some(collect_bet_step(p)),
                None => None,
            },
    )
}

/// The seats with both wager pools zeroed, as a table's end leaves them.
pub open spec fn reset_seats(seats: Seq<Option<Player>>) -> Seq<Option<Player>> {
    Seq::new(
        seats.len(),
        |i: int|
            match seats[i] {
                Some(p) => Some(reset_step(p)),
                None => None,
            },
    )
}

/// The seats after a hand settles: every seat's last round wager joins
/// its hand total, and the whole pot, every seat's wagered chips, joins
/// the winner's balance.
pub open spec fn settled_seats(seats: Seq<Option<Player>>, w: int) -> Seq<Option<Player>> {
    Seq::new(
        seats.len(),
        |i: int|
            match seats[i] {
                Some(p) => Some(
                    if i == w {
                        collect_win_step(collect_bet_step(p), wager_total(seats) as u64)
                    } else {
                        collect_bet_step(p)
                    },
                ),
                None => None,
            },
    )
}

/// A hand has settled and the table moved on: the winner seat `w` the
/// showdown scan picks over the collected seats (or, when no contending
/// hand evaluates, the earliest contender, or failing that the earliest
/// occupied seat) took the whole pot, and from that settled state the
/// table either ended, exactly when at most two seats still hold chips,
/// or advanced the dealer button and opened the next hand with its
/// blinds posted.
pub open spec fn hand_settled(
    oseats: Seq<Option<Player>>,
    community: Seq<Option<Card>>,
    odealer: int,
    sb: u64,
    bb: u64,
    g1: Game,
) -> bool {
    exists|w: int|
        #![trigger settled_seats(oseats, w)]
        {
            let settled = settled_seats(oseats, w);
            let max = oseats.len() as int;
            &&& 0 <= w < max
            &&& occupied(oseats, w)
            &&& (!none_between(oseats, eligible_fn(), 0, max) ==> seat_eligible(oseats[w]))
            &&& (match showdown_winner(collected_seats(oseats), community) {
                Some(wspec) => w == wspec,
                None => {
                    &&& (!none_between(oseats, eligible_fn(), 0, max) ==> none_between(
                        oseats,
                        eligible_fn(),
                        0,
                        w,
                    ))
                    &&& (none_between(oseats, eligible_fn(), 0, max) ==> no_occupied_between(
                        oseats,
                        0,
                        w,
                    ))
                },
            })
            &&& (positive_count(settled) <= 2 <==> g1.game_state == GamePlayState::Ended)
            &&& (g1.game_state == GamePlayState::Ended ==> g1.players_by_seats@ == reset_seats(
                settled,
            ))
            &&& (g1.game_state != GamePlayState::Ended ==> {
                &&& hand_started_from(settled, g1, sb, bb)
                &&& occupied(g1.players_by_seats@, g1.dealer_seat as int)
                &&& (if !no_occupied_between(g1.players_by_seats@, odealer + 1, max) {
                    odealer < g1.dealer_seat && no_occupied_between(
                        g1.players_by_seats@,
                        odealer + 1,
                        g1.dealer_seat as int,
                    )
                } else {
                    no_occupied_between(g1.players_by_seats@, 0, g1.dealer_seat as int)
                })
            })
        }
}

/// After collecting the wagers, paying the winner and starting the next
/// hand, the table stands in the settled relation to the seats the
/// river's round left behind.
proof fn lemma_hand_settled(
    oseats: Seq<Option<Player>>,
    community: Seq<Option<Card>>,
    seats2: Seq<Option<Player>>,
    w: int,
    pre: Game,
    g1: Game,
    odealer: int,
    sb: u64,
    bb: u64,
)
    requires
        0 <= w < oseats.len(),
        occupied(oseats, w),
        seats2.len() == oseats.len(),
        match showdown_winner(seats2, community) {
            Some(wspec) => w == wspec,
            None => {
                &&& (!none_between(seats2, eligible_fn(), 0, seats2.len() as int)
                    ==> none_between(seats2, eligible_fn(), 0, w))
                &&& (none_between(seats2, eligible_fn(), 0, seats2.len() as int)
                    ==> no_occupied_between(seats2, 0, w))
            },
        },
        forall|i: int|
            #![trigger seats2[i]]
            0 <= i < oseats.len() ==> seats2[i] == (match oseats[i] {
                Some(p) => Some(collect_bet_step(p)),
                None => None::<Player>,
            }),
        !none_between(seats2, eligible_fn(), 0, seats2.len() as int) ==> seat_eligible(seats2[w]),
        pre.players_by_seats@ == seats2.update(
            w,
            Some(collect_win_step(seat_player(seats2, w), wager_total(seats2) as u64)),
        ),
        pre.small_blind == sb,
        pre.big_blind == bb,
        pre.dealer_seat == odealer,
        pre.players_by_seats@.len() == oseats.len(),
        (positive_count(pre.players_by_seats@) <= 2 <==> g1.game_state == GamePlayState::Ended),
        g1.game_state == GamePlayState::Ended ==> g1 == (Game {
            players_by_seats: g1.players_by_seats,
            game_state: GamePlayState::Ended,
            ..pre
        }) && g1.players_by_seats@.len() == pre.players_by_seats@.len() && forall|i: int|
            #![trigger g1.players_by_seats@[i]]
            0 <= i < pre.players_by_seats@.len() ==> g1.players_by_seats@[i] == (match pre.players_by_seats@[i] {
                Some(p) => Some(reset_step(p)),
                None => None::<Player>,
            }),
        g1.game_state != GamePlayState::Ended ==> {
            &&& hand_started_from(pre.players_by_seats@, g1, sb, bb)
            &&& occupied(g1.players_by_seats@, g1.dealer_seat as int)
            &&& (if !no_occupied_between(
                g1.players_by_seats@,
                pre.dealer_seat + 1,
                pre.max_players as int,
            ) {
                pre.dealer_seat < g1.dealer_seat && no_occupied_between(
                    g1.players_by_seats@,
                    pre.dealer_seat + 1,
                    g1.dealer_seat as int,
                )
            } else {
                no_occupied_between(g1.players_by_seats@, 0, g1.dealer_seat as int)
            })
        },
        pre.max_players == oseats.len(),
        g1.game_state == GamePlayState::Started || g1.game_state == GamePlayState::Ended,
        table_chips(oseats) <= u64::MAX,
    ensures
        hand_settled(oseats, community, odealer, sb, bb, g1),
{
    let settled = settled_seats(oseats, w);
    assert(forall|o: Option<Player>| #[trigger] wager_fn()(o) >= 0);
    assert(forall|o: Option<Player>| #[trigger] chips_fn()(o) >= 0);
    assert forall|i: int| 0 <= i < oseats.len() implies wager_fn()(#[trigger] seats2[i])
        == wager_fn()(oseats[i]) by {
        lemma_seat_sum_element_le(oseats, chips_fn(), i);
    };
    lemma_seat_sum_cross(seats2, oseats, wager_fn(), wager_fn());
    assert(pre.players_by_seats@ =~= settled);
    // Collecting the wagers changes no seat's eligibility.
    assert(forall|j: int|
        #![trigger seats2[j]]
        0 <= j < seats2.len() ==> (seat_eligible(seats2[j]) <==> seat_eligible(oseats[j])));
    if !none_between(oseats, eligible_fn(), 0, oseats.len() as int) {
        let t = choose|t: int| 0 <= t < oseats.len() && eligible_fn()(#[trigger] oseats[t]);
        assert(seat_eligible(seats2[t]));
        assert(!none_between(seats2, eligible_fn(), 0, seats2.len() as int));
        assert(seat_eligible(oseats[w]));
    }
    // The winner scan ran over exactly the collected seats.
    assert(seats2 =~= collected_seats(oseats));
    match showdown_winner(collected_seats(oseats), community) {
        Some(wspec) => {
            assert(w == wspec);
        },
        None => {
            if !none_between(oseats, eligible_fn(), 0, oseats.len() as int) {
                assert forall|j: int| 0 <= j < w implies !eligible_fn()(
                    #[trigger] oseats[j],
                ) by {
                    assert(!eligible_fn()(seats2[j]));
                };
            } else {
                assert(none_between(seats2, eligible_fn(), 0, seats2.len() as int)) by {
                    assert(forall|j: int|
                        0 <= j < seats2.len() ==> (eligible_fn()(#[trigger] seats2[j])
                            <==> eligible_fn()(oseats[j])));
                };
                assert forall|j: int| 0 <= j < w implies !occupied(oseats, j) by {
                    assert(!occupied(seats2, j));
                };
            }
        },
    }
    if g1.game_state == GamePlayState::Ended {
        assert(g1.players_by_seats@ =~= reset_seats(settled));
    }
    assert(settled_seats(oseats, w) == settled);
}

impl Game {
    /// Settles the hand after the river's betting round: collects the
    /// last wagers, pays the whole pot to the computed winner, returns
    /// the phase to the pre-flop with no community cards revealed, and
    /// begins the next hand, or ends the table when at most two seats
    /// still hold chips.
    #[verifier::rlimit(100)]
    fn finish_hand(&mut self)
        requires
            old(self).wf(),
            old(self).game_state == GamePlayState::Started,
        ensures
            final (self).wf(),
            final (self).max_players == old(self).max_players,
            final (self).small_blind == old(self).small_blind,
            final (self).big_blind == old(self).big_blind,
            final (self).initial_balance == old(self).initial_balance,
            final (self).players@ == old(self).players@,
            final (self).nicknames@ == old(self).nicknames@,
            final (self).game_phase == GamePhase::PreFlop,
            final (self).community_cards_shown == 0,
            final (self).game_state == GamePlayState::Started || final (self).game_state
                == GamePlayState::Ended,
            final (self).players_by_seats@.len() == old(self).players_by_seats@.len(),
            forall|i: int|
                #![trigger final(self).players_by_seats@[i]]
                0 <= i < old(self).players_by_seats@.len() ==> (occupied(
                    final (self).players_by_seats@,
                    i,
                ) <==> occupied(old(self).players_by_seats@, i)),
            hand_settled(
                old(self).players_by_seats@,
                old(self).community_cards@,
                old(self).dealer_seat as int,
                old(self).small_blind,
                old(self).big_blind,
                *final(self),
            ),
    {
        let ghost seats0 = self.players_by_seats@;
        proof {
            self.lemma_seat_chips_bounded(0);
            assert(forall|o: Option<Player>| #[trigger] chips_fn()(o) >= 0);
            assert(forall|o: Option<Player>| #[trigger] wager_fn()(o) >= 0);
            assert(forall|o: Option<Player>|
                #[trigger] chips_fn()(o) == balance_fn()(o) + wager_fn()(o));
        }
        self.collect_bets();
        let ghost seats2 = self.players_by_seats@;
        proof {
            assert forall|i: int| 0 <= i < seats0.len() implies chips_fn()(
                #[trigger] seats2[i],
            ) == chips_fn()(seats0[i]) by {
                lemma_seat_sum_element_le(seats0, chips_fn(), i);
            };
            lemma_seat_sum_pointwise_eq(seats2, seats0, chips_fn());
            lemma_seat_sum_cross(seats2, seats0, occupied_fn(), occupied_fn());
            assert(table_chips(seats2) == occupied_count(seats2) * self.initial_balance);
            // An occupied seat exists, since at least three are occupied.
            if no_occupied_between(seats2, 0, self.max_players as int) {
                assert(forall|i: int|
                    0 <= i < seats2.len() ==> occupied_fn()(#[trigger] seats2[i]) == 0);
                lemma_seat_sum_zero(seats2, occupied_fn());
            }
        }
        let winner_seat = self.get_winner_seat();
        proof {
            lemma_seat_sum_monotone(seats2, wager_fn(), chips_fn());
            lemma_seat_sum_nonneg(seats2, wager_fn());
        }
        self.distribute_winnings(winner_seat);
        let ghost seats3 = self.players_by_seats@;
        proof {
            lemma_seat_sum_add(seats2, chips_fn(), balance_fn(), wager_fn());
            assert(seat_sum(seats3, balance_fn()) == occupied_count(seats3)
                * self.initial_balance);
            assert(wager_total(seats3) <= occupied_count(seats3) * self.initial_balance);
        }
        self.game_phase = GamePhase::PreFlop;
        self.community_cards_shown = 0;
        let ghost pre = *self;
        self.start_round(false);
        proof {
            lemma_hand_settled(
                old(self).players_by_seats@,
                old(self).community_cards@,
                seats2,
                winner_seat as int,
                pre,
                *self,
                old(self).dealer_seat as int,
                old(self).small_blind,
                old(self).big_blind,
            );
        }
    }

    /// Applies one action by the seat whose turn it is, exactly as
    /// `action_verdict` decides, and then advances the table: to the
    /// next seat owing a decision while the betting round stays open; to
    /// the next phase, collecting the round's wagers and revealing
    /// community cards, when the round closes; and through showdown,
    /// payout and the next hand when the river's round closes.
    #[verifier::rlimit(100)]
    pub fn player_action(&mut self, player_index: usize, action: PlayerAction, amount: u64) -> (r:
        Result<(), GameError>)
        requires
            old(self).wf(),
        ensures
            final (self).wf(),
            final (self).max_players == old(self).max_players,
            final (self).small_blind == old(self).small_blind,
            final (self).big_blind == old(self).big_blind,
            final (self).initial_balance == old(self).initial_balance,
            final (self).players@ == old(self).players@,
            final (self).nicknames@ == old(self).nicknames@,
            action_post(*old(self), *final(self), player_index, action, amount, r),
    {
        if self.game_state != GamePlayState::Started {
            return Err(GameError::NotYourTurn);
        }
        if player_index != self.active_player {
            return Err(GameError::NotYourTurn);
        }
        if player_index >= self.players_by_seats.len() {
            return Err(GameError::NotFound);
        }
        let current_bet = match &self.players_by_seats[player_index] {
            Some(p) => p.current_bet,
            None => {
                return Err(GameError::NotFound);
            },
        };
        let mb = self.max_bet();
        let ghost oldseats = self.players_by_seats@;
        if action == PlayerAction::Bet {
            let under_raise = amount <= u64::MAX - current_bet && amount + current_bet < mb;
            proof {
                assert(under_raise == (amount + current_bet < max_bet_of(oldseats)));
            }
            if under_raise {
                return Err(GameError::BetTooSmall);
            }
        }
        let target = match action {
            PlayerAction::Call | PlayerAction::Check => mb,
            _ => amount,
        };
        proof {
            self.lemma_seat_chips_bounded(player_index as int);
            lemma_max_bet_of_bounds(oldseats);
        }
        let taken = {
            let slot = &mut self.players_by_seats[player_index];
            slot.take()
        };
        let mut p = match taken {
            Some(p) => p,
            None => {
                return Err(GameError::NotFound);
            },
        };
        let res = p.perform_action(action, target);
        self.players_by_seats.set(player_index, Some(p));
        match res {
            Err(e) => {
                proof {
                    assert(self.players_by_seats@ =~= oldseats);
                }
                return Err(e);
            },
            Ok(_) => (),
        }
        let ghost seats1 = self.players_by_seats@;
        proof {
            let q = match action_verdict(*old(self), player_index, action, amount) {
                Ok(qv) => qv.0,
                Err(_) => p,
            };
            assert(seats1 =~= oldseats.update(player_index as int, Some(q)));
            lemma_player_step_preserves_chips(
                seat_player(oldseats, player_index as int),
                action,
                target,
            );
            lemma_seat_sum_update(oldseats, chips_fn(), player_index as int, Some(q));
            lemma_seat_sum_update(oldseats, occupied_fn(), player_index as int, Some(q));
        }
        let over = self.round_end();
        if !over {
            proof {
                assert(!none_between(
                    seats1,
                    actionable_fn(),
                    0,
                    self.max_players as int,
                )) by {
                    assert(!round_over(seats1));
                    let w = choose|i: int|
                        0 <= i < seats1.len() && occupied(seats1, i) && seat_player(
                            seats1,
                            i,
                        ).state == PlayerState::Active;
                    assert(actionable_fn()(seats1[w]));
                };
            }
            self.set_next_active_player();
            return Ok(());
        }
        proof {
            assert(self.wf());
        }
        self.advance_after_round();
        Ok(())
    }
}


impl Game {
    /// Advances the table once a betting round has closed: before the
    /// river, the next phase opens with community cards revealed, every
    /// seat reactivated short of forcing, and the round's wagers
    /// collected; after the river, the hand settles and the next one
    /// begins or the table ends.
    #[verifier::rlimit(100)]
    fn advance_after_round(&mut self)
        requires
            old(self).wf(),
            old(self).game_state == GamePlayState::Started,
        ensures
            final (self).wf(),
            final (self).max_players == old(self).max_players,
            final (self).small_blind == old(self).small_blind,
            final (self).big_blind == old(self).big_blind,
            final (self).initial_balance == old(self).initial_balance,
            final (self).players@ == old(self).players@,
            final (self).nicknames@ == old(self).nicknames@,
            old(self).game_phase != GamePhase::River ==> {
                &&& final (self).game_phase == next_phase(old(self).game_phase)
                &&& final (self).community_cards_shown == shown_after(old(self).game_phase)
                &&& final (self).game_state == GamePlayState::Started
                &&& final (self).dealer_seat == old(self).dealer_seat
                &&& final (self).active_player == old(self).active_player
                &&& final (self).players_by_seats@.len() == old(self).players_by_seats@.len()
                &&& forall|i: int|
                    #![trigger final(self).players_by_seats@[i]]
                    0 <= i < old(self).players_by_seats@.len()
                        ==> final (self).players_by_seats@[i] == (match old(self).players_by_seats@[i] {
                        Some(p2) => Some(collect_bet_step(set_active_step(p2, false))),
                        None => None::<Player>,
                    })
            },
            old(self).game_phase == GamePhase::River ==> {
                &&& final (self).game_phase == GamePhase::PreFlop
                &&& final (self).community_cards_shown == 0
                &&& (final (self).game_state == GamePlayState::Started || final (self).game_state
                    == GamePlayState::Ended)
                &&& hand_settled(
                    old(self).players_by_seats@,
                    old(self).community_cards@,
                    old(self).dealer_seat as int,
                    old(self).small_blind,
                    old(self).big_blind,
                    *final(self),
                )
            },
    {
        let ghost seats1 = self.players_by_seats@;
        proof {
            self.lemma_seat_chips_bounded(0);
        }
        match self.game_phase {
            GamePhase::PreFlop => {
                self.game_phase = GamePhase::Flop;
                self.set_players_active(false);
                self.community_cards_shown = 3;
                proof {
                    lemma_seat_sum_pointwise_eq(self.players_by_seats@, seats1, chips_fn());
                }
                self.collect_bets();
            },
            GamePhase::Flop => {
                self.game_phase = GamePhase::Turn;
                self.set_players_active(false);
                self.community_cards_shown = 4;
                proof {
                    lemma_seat_sum_pointwise_eq(self.players_by_seats@, seats1, chips_fn());
                }
                self.collect_bets();
            },
            GamePhase::Turn => {
                self.game_phase = GamePhase::River;
                self.set_players_active(false);
                self.community_cards_shown = 5;
                proof {
                    lemma_seat_sum_pointwise_eq(self.players_by_seats@, seats1, chips_fn());
                }
                self.collect_bets();
            },
            GamePhase::River => {
                self.finish_hand();
                return;
            },
        }
        proof {
            let seats3 = self.players_by_seats@;
            assert(forall|o: Option<Player>| #[trigger] chips_fn()(o) >= 0);
            assert forall|i: int| 0 <= i < seats1.len() implies chips_fn()(#[trigger] seats3[i])
                == chips_fn()(seats1[i]) by {
                lemma_seat_sum_element_le(seats1, chips_fn(), i);
            };
            lemma_seat_sum_pointwise_eq(seats3, seats1, chips_fn());
            lemma_seat_sum_cross(seats3, seats1, occupied_fn(), occupied_fn());
        }
    }
}

/// Everything a viewer's snapshot shows of a table: the public seat
/// data, the pot, the revealed community cards with the rest withheld,
/// and the viewer's own hole cards only while a hand is running.
pub open spec fn snapshot_post(g: Game, player_id: u64, st: crate::games_manager::GameState) -> bool {
    let seats = g.players_by_seats@;
    &&& st.active_seat == g.active_player
    &&& st.small_blind == g.small_blind
    &&& st.big_blind == g.big_blind
    &&& st.game_state == g.game_state
    &&& st.dealer_seat == g.dealer_seat
    &&& st.pot == wager_total(seats)
    &&& st.asker_seat == (if g.players@.contains_key(player_id) {
        Some(g.players@[player_id])
    } else {
        None::<usize>
    })
    &&& st.community_cards@.len() == 5
    &&& forall|k: int|
        0 <= k < 5 ==> st.community_cards@[k] == (if k < g.community_cards_shown {
            g.community_cards@[k]
        } else {
            None::<Card>
        })
    &&& st.personal_cards@.len() == 2
    &&& (if g.players@.contains_key(player_id) && g.game_state == GamePlayState::Started {
        let pl = seat_player(seats, g.players@[player_id] as int);
        st.personal_cards@[0] == Some(pl.cards@[0]) && st.personal_cards@[1] == Some(pl.cards@[1])
    } else {
        st.personal_cards@[0] is None && st.personal_cards@[1] is None
    })
    &&& st.bets_placed@.len() == g.max_players
    &&& forall|i: int| 0 <= i < g.max_players ==> #[trigger] st.bets_placed@[i] is None
    &&& st.players@.len() == g.max_players
    &&& forall|i: int|
        #![trigger st.players@[i]]
        0 <= i < g.max_players ==> (match seats[i] {
            None => st.players@[i] is None,
            Some(p) => {
                &&& st.players@[i] is Some
                &&& st.players@[i].unwrap().seat_index == p.seat_index
                &&& st.players@[i].unwrap().balance == p.balance
                &&& st.players@[i].unwrap().state == p.state
                &&& st.players@[i].unwrap().bet_amount == p.current_bet
                &&& st.players@[i].unwrap().nickname@ == g.nicknames@[i].unwrap()@
            },
        })
}

impl Game {
    /// A viewer's snapshot of this table, as `snapshot_post` says: every
    /// seat's public data and the pot, the revealed community cards, and
    /// the viewer's own hole cards only while a hand runs; a viewer with
    /// no seat here gets the fully withheld view.
    pub fn collect_state_data(&self, player_id: u64) -> (st: crate::games_manager::GameState)
        requires
            self.wf(),
        ensures
            snapshot_post(*self, player_id, st),
    {
        let seats_len = self.players_by_seats.len();
        proof {
            assert(forall|o: Option<Player>| #[trigger] wager_fn()(o) >= 0);
            assert(forall|o: Option<Player>| #[trigger] chips_fn()(o) >= 0);
            assert(forall|o: Option<Player>| #[trigger] wager_fn()(o) <= #[trigger] chips_fn()(o));
            lemma_indicator_le_len(self.players_by_seats@, occupied_fn());
            lemma_seat_sum_monotone(self.players_by_seats@, wager_fn(), chips_fn());
            assert(occupied_count(self.players_by_seats@) * self.initial_balance
                <= self.max_players * self.initial_balance) by (nonlinear_arith)
                requires
                    occupied_count(self.players_by_seats@) <= self.max_players,
                    self.initial_balance >= 0,
            ;
            assert(wager_total(self.players_by_seats@) <= u64::MAX);
        }
        let mut pot: u64 = 0;
        let mut i: usize = 0;
        while i < seats_len
            invariant
                seats_len == self.players_by_seats@.len(),
                i <= seats_len,
                wager_total(self.players_by_seats@) <= u64::MAX,
                pot == wager_total(self.players_by_seats@.subrange(0, i as int)),
            decreases seats_len - i,
        {
            proof {
                assert(forall|o: Option<Player>| #[trigger] wager_fn()(o) >= 0);
                lemma_seat_sum_prefix(self.players_by_seats@, wager_fn(), i as int);
                lemma_seat_sum_prefix_le(self.players_by_seats@, wager_fn(), i as int + 1);
            }
            match &self.players_by_seats[i] {
                Some(pl) => {
                    pot = pot + pl.current_bet + pl.total_bet;
                },
                None => (),
            }
            i = i + 1;
        }
        proof {
            lemma_seat_sum_whole(self.players_by_seats@, wager_fn());
        }
        let mut cards_to_show: Vec<Option<Card>> = Vec::new();
        let mut k: usize = 0;
        while k < 5
            invariant
                self.wf(),
                k <= 5,
                cards_to_show@.len() == k,
                forall|m: int|
                    0 <= m < k ==> cards_to_show@[m] == (if m < self.community_cards_shown {
                        self.community_cards@[m]
                    } else {
                        None::<Card>
                    }),
            decreases 5 - k,
        {
            if k < self.community_cards_shown {
                let c = self.community_cards[k];
                cards_to_show.push(c);
            } else {
                cards_to_show.push(None);
            }
            k = k + 1;
        }
        let asker_seat: Option<usize> = match self.players.get(&player_id) {
            Some(seat) => Some(*seat),
            None => None,
        };
        let mut personal_cards: Vec<Option<Card>> = Vec::new();
        match asker_seat {
            Some(seat) if self.game_state == GamePlayState::Started => {
                match &self.players_by_seats[seat] {
                    Some(pl) => {
                        personal_cards.push(Some(pl.cards[0]));
                        personal_cards.push(Some(pl.cards[1]));
                    },
                    None => {
                        // The identifier map points only at occupied
                        // seats, so this arm is unreachable.
                        proof {
                            assert(false);
                        }
                        personal_cards.push(None);
                        personal_cards.push(None);
                    },
                }
            },
            _ => {
                personal_cards.push(None);
                personal_cards.push(None);
            },
        }
        let mut bets_placed: Vec<Option<u64>> = Vec::new();
        let mut b: usize = 0;
        while b < seats_len
            invariant
                seats_len == self.players_by_seats@.len(),
                b <= seats_len,
                bets_placed@.len() == b,
                forall|m: int| 0 <= m < b ==> #[trigger] bets_placed@[m] is None,
            decreases seats_len - b,
        {
            bets_placed.push(None);
            b = b + 1;
        }
        let mut player_views: Vec<Option<PlayerData>> = Vec::new();
        let mut j: usize = 0;
        while j < seats_len
            invariant
                self.wf(),
                seats_len == self.players_by_seats@.len(),
                j <= seats_len,
                player_views@.len() == j,
                forall|m: int|
                    #![trigger player_views@[m]]
                    0 <= m < j ==> (match self.players_by_seats@[m] {
                        None => player_views@[m] is None,
                        Some(p) => {
                            &&& player_views@[m] is Some
                            &&& player_views@[m].unwrap().seat_index == p.seat_index
                            &&& player_views@[m].unwrap().balance == p.balance
                            &&& player_views@[m].unwrap().state == p.state
                            &&& player_views@[m].unwrap().bet_amount == p.current_bet
                            &&& player_views@[m].unwrap().nickname@ == self.nicknames@[m].unwrap()@
                        },
                    }),
            decreases seats_len - j,
        {
            match &self.players_by_seats[j] {
                Some(pl) => {
                    let nickname: String = match &self.nicknames[j] {
                        Some(n) => n.clone(),
                        None => {
                            // An occupied seat always has a nickname.
                            proof {
                                assert(false);
                            }
                            String::new()
                        },
                    };
                    player_views.push(
                        Some(
                            PlayerData {
                                seat_index: pl.seat_index,
                                balance: pl.balance,
                                state: pl.state,
                                bet_amount: pl.current_bet,
                                nickname,
                            },
                        ),
                    );
                },
                None => {
                    player_views.push(None);
                },
            }
            j = j + 1;
        }
        crate::games_manager::GameState {
            asker_seat,
            active_seat: self.active_player,
            community_cards: cards_to_show,
            personal_cards,
            bets_placed,
            pot,
            players: player_views,
            small_blind: self.small_blind,
            big_blind: self.big_blind,
            game_state: self.game_state,
            dealer_seat: self.dealer_seat,
        }
    }
}


/// Chip conservation, read off the table invariant: while a table has
/// not ended, the chips at it sum to exactly the number of occupied
/// seats times the initial balance, however many joins, blinds, bets,
/// round advances, payouts and hands have happened, the table's end
/// included.
pub proof fn lemma_table_conserves_chips(g: Game)
    requires
        g.wf(),
    ensures
        table_chips(g.players_by_seats@) == occupied_count(g.players_by_seats@)
            * g.initial_balance,
{
}

/// Blind posting with a shortfall: a seat that can still act but whose
/// balance is below the blind is forced all in for whatever it has,
/// never rejected; at a hand start, where nothing is yet wagered, its
/// round wager becomes exactly its old balance.
pub proof fn lemma_blind_shortfall(p: Player, amount: u64, mb: int)
    requires
        can_act(p),
        p.balance < amount,
        p.current_bet + p.balance <= u64::MAX,
    ensures
        blind_step(p, amount, mb).state == PlayerState::AllIn,
        blind_step(p, amount, mb).balance == 0,
        blind_step(p, amount, mb).current_bet == p.current_bet + p.balance,
        p.current_bet == 0 ==> blind_step(p, amount, mb).current_bet == p.balance,
{
}

} // verus!
