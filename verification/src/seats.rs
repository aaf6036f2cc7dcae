//! Sums over a table's seat array. A seat is `Option<Player>`; the chip
//! conservation invariant and the occupancy counts are all sums of a
//! per-seat quantity, so one recursive sum with a handful of lemmas
//! carries every proof about them.

use vstd::prelude::*;

use crate::player::{player_chips, Player};

verus! {

/// The sum of `f` over every seat.
pub open spec fn seat_sum(seats: Seq<Option<Player>>, f: spec_fn(Option<Player>) -> int) -> int
    decreases seats.len(),
{
    if seats.len() == 0 {
        0
    } else {
        seat_sum(seats.drop_last(), f) + f(seats.last())
    }
}

/// The chips a seat holds claim to; an empty seat holds none.
pub open spec fn seat_chips(o: Option<Player>) -> int {
    match o {
        Some(p) => player_chips(p),
        None => 0,
    }
}

/// Per-seat chip count, as one shared function value.
pub open spec fn chips_fn() -> spec_fn(Option<Player>) -> int {
    |o: Option<Player>| seat_chips(o)
}


/// The chips a seat holds as plain balance.
pub open spec fn balance_fn() -> spec_fn(Option<Player>) -> int {
    |o: Option<Player>|
        match o {
            Some(p) => p.balance as int,
            None => 0,
        }
}

/// Indicator of an occupied seat.
pub open spec fn occupied_fn() -> spec_fn(Option<Player>) -> int {
    |o: Option<Player>|
        match o {
            Some(p) => 1,
            None => 0,
        }
}

/// Indicator of an occupied seat with a strictly positive balance.
pub open spec fn positive_fn() -> spec_fn(Option<Player>) -> int {
    |o: Option<Player>|
        match o {
            Some(p) => if p.balance > 0 {
                1
            } else {
                0
            },
            None => 0,
        }
}

/// The chips a seat has wagered this hand: current round plus collected.
pub open spec fn wager_fn() -> spec_fn(Option<Player>) -> int {
    |o: Option<Player>|
        match o {
            Some(p) => p.current_bet + p.total_bet,
            None => 0,
        }
}

/// All chips at the table.
pub open spec fn table_chips(seats: Seq<Option<Player>>) -> int {
    seat_sum(seats, chips_fn())
}

/// How many seats hold a player.
pub open spec fn occupied_count(seats: Seq<Option<Player>>) -> int {
    seat_sum(seats, occupied_fn())
}

/// How many seats hold a player with chips left.
pub open spec fn positive_count(seats: Seq<Option<Player>>) -> int {
    seat_sum(seats, positive_fn())
}

/// The pot: every seat's wagered chips, current round included.
pub open spec fn wager_total(seats: Seq<Option<Player>>) -> int {
    seat_sum(seats, wager_fn())
}

/// Replacing one seat changes the sum by exactly the difference at that
/// seat.
pub proof fn lemma_seat_sum_update(
    seats: Seq<Option<Player>>,
    f: spec_fn(Option<Player>) -> int,
    i: int,
    x: Option<Player>,
)
    requires
        0 <= i < seats.len(),
    ensures
        seat_sum(seats.update(i, x), f) == seat_sum(seats, f) - f(seats[i]) + f(x),
    decreases seats.len(),
{
    if i == seats.len() - 1 {
        assert(seats.update(i, x).drop_last() =~= seats.drop_last());
    } else {
        assert(seats.update(i, x).drop_last() =~= seats.drop_last().update(i, x));
        lemma_seat_sum_update(seats.drop_last(), f, i, x);
    }
}

/// A sum grows one seat at a time: the sum over a prefix one longer adds
/// the seat at its end.
pub proof fn lemma_seat_sum_prefix(
    seats: Seq<Option<Player>>,
    f: spec_fn(Option<Player>) -> int,
    i: int,
)
    requires
        0 <= i < seats.len(),
    ensures
        seat_sum(seats.subrange(0, i + 1), f) == seat_sum(seats.subrange(0, i), f) + f(seats[i]),
{
    assert(seats.subrange(0, i + 1).drop_last() =~= seats.subrange(0, i));
}

/// The sum over the whole seat array equals the sum over the full-length
/// prefix.
pub proof fn lemma_seat_sum_whole(seats: Seq<Option<Player>>, f: spec_fn(Option<Player>) -> int)
    ensures
        seat_sum(seats.subrange(0, seats.len() as int), f) == seat_sum(seats, f),
{
    assert(seats.subrange(0, seats.len() as int) =~= seats);
}

/// A sum of non-negative per-seat quantities is non-negative.
pub proof fn lemma_seat_sum_nonneg(seats: Seq<Option<Player>>, f: spec_fn(Option<Player>) -> int)
    requires
        forall|o: Option<Player>| #[trigger] f(o) >= 0,
    ensures
        seat_sum(seats, f) >= 0,
    decreases seats.len(),
{
    if seats.len() > 0 {
        lemma_seat_sum_nonneg(seats.drop_last(), f);
    }
}

/// With non-negative per-seat quantities, one seat's quantity never
/// exceeds the whole sum.
pub proof fn lemma_seat_sum_element_le(
    seats: Seq<Option<Player>>,
    f: spec_fn(Option<Player>) -> int,
    i: int,
)
    requires
        forall|o: Option<Player>| #[trigger] f(o) >= 0,
        0 <= i < seats.len(),
    ensures
        f(seats[i]) <= seat_sum(seats, f),
    decreases seats.len(),
{
    lemma_seat_sum_nonneg(seats.drop_last(), f);
    if i == seats.len() - 1 {
    } else {
        lemma_seat_sum_element_le(seats.drop_last(), f, i);
    }
}

/// Sums respect a pointwise bound between two per-seat quantities.
pub proof fn lemma_seat_sum_monotone(
    seats: Seq<Option<Player>>,
    f: spec_fn(Option<Player>) -> int,
    g: spec_fn(Option<Player>) -> int,
)
    requires
        forall|o: Option<Player>| #[trigger] f(o) <= #[trigger] g(o),
    ensures
        seat_sum(seats, f) <= seat_sum(seats, g),
    decreases seats.len(),
{
    if seats.len() > 0 {
        lemma_seat_sum_monotone(seats.drop_last(), f, g);
    }
}

/// Two seat arrays whose seats carry the same per-seat quantity have the
/// same sum, whatever else differs about the players in them.
pub proof fn lemma_seat_sum_pointwise_eq(
    s1: Seq<Option<Player>>,
    s2: Seq<Option<Player>>,
    f: spec_fn(Option<Player>) -> int,
)
    requires
        s1.len() == s2.len(),
        forall|i: int| 0 <= i < s1.len() ==> f(s1[i]) == f(s2[i]),
    ensures
        seat_sum(s1, f) == seat_sum(s2, f),
    decreases s1.len(),
{
    if s1.len() > 0 {
        lemma_seat_sum_pointwise_eq(s1.drop_last(), s2.drop_last(), f);
    }
}

/// A sum over every seat vanishes when the per-seat quantity does.
pub proof fn lemma_seat_sum_zero(seats: Seq<Option<Player>>, f: spec_fn(Option<Player>) -> int)
    requires
        forall|i: int| 0 <= i < seats.len() ==> f(#[trigger] seats[i]) == 0,
    ensures
        seat_sum(seats, f) == 0,
    decreases seats.len(),
{
    if seats.len() > 0 {
        lemma_seat_sum_zero(seats.drop_last(), f);
    }
}

/// With non-negative per-seat quantities, a prefix sums to no more than
/// the whole.
pub proof fn lemma_seat_sum_prefix_le(
    seats: Seq<Option<Player>>,
    f: spec_fn(Option<Player>) -> int,
    i: int,
)
    requires
        forall|o: Option<Player>| #[trigger] f(o) >= 0,
        0 <= i <= seats.len(),
    ensures
        seat_sum(seats.subrange(0, i), f) <= seat_sum(seats, f),
    decreases seats.len() - i,
{
    if i == seats.len() {
        lemma_seat_sum_whole(seats, f);
    } else {
        lemma_seat_sum_prefix(seats, f, i);
        lemma_seat_sum_prefix_le(seats, f, i + 1);
    }
}

/// With non-negative per-seat quantities, prefix sums grow with the
/// prefix.
pub proof fn lemma_seat_sum_prefix_mono(
    seats: Seq<Option<Player>>,
    f: spec_fn(Option<Player>) -> int,
    i: int,
    j: int,
)
    requires
        forall|o: Option<Player>| #[trigger] f(o) >= 0,
        0 <= i <= j <= seats.len(),
    ensures
        seat_sum(seats.subrange(0, i), f) <= seat_sum(seats.subrange(0, j), f),
    decreases j - i,
{
    if i < j {
        lemma_seat_sum_prefix(seats, f, i);
        lemma_seat_sum_prefix_mono(seats, f, i + 1, j);
    }
}

/// Sums agree across two seat arrays whose seats carry pointwise equal
/// quantities, even under different per-seat functions.
pub proof fn lemma_seat_sum_cross(
    s1: Seq<Option<Player>>,
    s2: Seq<Option<Player>>,
    f: spec_fn(Option<Player>) -> int,
    g: spec_fn(Option<Player>) -> int,
)
    requires
        s1.len() == s2.len(),
        forall|i: int| 0 <= i < s1.len() ==> f(s1[i]) == g(s2[i]),
    ensures
        seat_sum(s1, f) == seat_sum(s2, g),
    decreases s1.len(),
{
    if s1.len() > 0 {
        lemma_seat_sum_cross(s1.drop_last(), s2.drop_last(), f, g);
    }
}

/// A per-seat quantity that splits into two parts splits the sum.
pub proof fn lemma_seat_sum_add(
    seats: Seq<Option<Player>>,
    f: spec_fn(Option<Player>) -> int,
    g: spec_fn(Option<Player>) -> int,
    h: spec_fn(Option<Player>) -> int,
)
    requires
        forall|o: Option<Player>| #[trigger] f(o) == g(o) + h(o),
    ensures
        seat_sum(seats, f) == seat_sum(seats, g) + seat_sum(seats, h),
    decreases seats.len(),
{
    if seats.len() > 0 {
        lemma_seat_sum_add(seats.drop_last(), f, g, h);
    }
}

/// An indicator sum is at most the number of seats.
pub proof fn lemma_indicator_le_len(seats: Seq<Option<Player>>, f: spec_fn(Option<Player>) -> int)
    requires
        forall|o: Option<Player>| 0 <= #[trigger] f(o) <= 1,
    ensures
        0 <= seat_sum(seats, f) <= seats.len(),
    decreases seats.len(),
{
    if seats.len() > 0 {
        lemma_indicator_le_len(seats.drop_last(), f);
    }
}

} // verus!
