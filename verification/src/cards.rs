//! Card identity: a rank, a suit, and the fixed 52-card deck order a
//! table starts from before each shuffle.

use vstd::prelude::*;

verus! {

/// One of the four suits.
#[derive(Clone, Copy, Debug, PartialEq, Eq, Structural)]
pub enum Color {
    Hearts,
    Diamonds,
    Spades,
    Clubs,
}

/// One of the thirteen ranks, two through ace.
#[derive(Clone, Copy, Debug, PartialEq, Eq, Structural)]
pub enum Rank {
    Two,
    Three,
    Four,
    Five,
    Six,
    Seven,
    Eight,
    Nine,
    Ten,
    Jack,
    Queen,
    King,
    Ace,
}

/// An immutable card: a rank and a suit.
#[derive(Clone, Copy, Debug, PartialEq, Eq, Structural)]
pub struct Card {
    pub rank: Rank,
    pub color: Color,
}

impl Card {
    /// Builds the card with the given suit and rank.
    pub fn new(color: Color, rank: Rank) -> (c: Card)
        ensures
            c == (Card { rank, color }),
    {
        Card { color, rank }
    }
}

/// The suit of position `i` in the unshuffled deck: thirteen spades,
/// then hearts, then diamonds, then clubs.
pub open spec fn suit_at(i: int) -> Color {
    if i < 13 {
        Color::Spades
    } else if i < 26 {
        Color::Hearts
    } else if i < 39 {
        Color::Diamonds
    } else {
        Color::Clubs
    }
}

/// The rank of position `i` in the unshuffled deck: two through ace
/// within each suit.
pub open spec fn rank_at(i: int) -> Rank {
    let r = i % 13;
    if r == 0 {
        Rank::Two
    } else if r == 1 {
        Rank::Three
    } else if r == 2 {
        Rank::Four
    } else if r == 3 {
        Rank::Five
    } else if r == 4 {
        Rank::Six
    } else if r == 5 {
        Rank::Seven
    } else if r == 6 {
        Rank::Eight
    } else if r == 7 {
        Rank::Nine
    } else if r == 8 {
        Rank::Ten
    } else if r == 9 {
        Rank::Jack
    } else if r == 10 {
        Rank::Queen
    } else if r == 11 {
        Rank::King
    } else {
        Rank::Ace
    }
}

/// The card at position `i` of the unshuffled deck.
pub open spec fn card_at(i: int) -> Card {
    Card { rank: rank_at(i), color: suit_at(i) }
}

/// The 52 cards of the unshuffled deck, in order.
pub open spec fn full_deck() -> Seq<Card> {
    Seq::new(52, |i: int| card_at(i))
}

/// The fixed deck holds 52 distinct cards: position determines the card.
pub proof fn lemma_full_deck_no_duplicates()
    ensures
        full_deck().no_duplicates(),
{
    assert forall|i: int, j: int|
        0 <= i < 52 && 0 <= j < 52 && i != j implies full_deck()[i] != full_deck()[j] by {
        if card_at(i) == card_at(j) {
            assert(rank_at(i) == rank_at(j));
            assert(suit_at(i) == suit_at(j));
            assert(i % 13 == j % 13);
            assert(false);
        }
    };
}

/// Any deck holding the same cards as the fixed deck, in any order, has
/// no duplicates either.
pub proof fn lemma_deck_no_duplicates(deck: Seq<Card>)
    requires
        deck.to_multiset() == full_deck().to_multiset(),
    ensures
        deck.no_duplicates(),
{
    lemma_full_deck_no_duplicates();
    full_deck().lemma_multiset_has_no_duplicates();
    deck.lemma_multiset_has_no_duplicates_conv();
}

fn rank_of_position(r: usize) -> (rank: Rank)
    requires
        r < 13,
    ensures
        rank == rank_at(r as int),
{
    match r {
        0 => Rank::Two,
        1 => Rank::Three,
        2 => Rank::Four,
        3 => Rank::Five,
        4 => Rank::Six,
        5 => Rank::Seven,
        6 => Rank::Eight,
        7 => Rank::Nine,
        8 => Rank::Ten,
        9 => Rank::Jack,
        10 => Rank::Queen,
        11 => Rank::King,
        _ => Rank::Ace,
    }
}

/// Builds the 52-card deck in its fixed pre-shuffle order.
pub fn new_deck() -> (deck: Vec<Card>)
    ensures
        deck@ == full_deck(),
{
    let mut deck: Vec<Card> = Vec::new();
    let mut i: usize = 0;
    while i < 52
        invariant
            i <= 52,
            deck@.len() == i,
            forall|j: int| 0 <= j < i ==> deck@[j] == card_at(j),
        decreases 52 - i,
    {
        let color = if i < 13 {
            Color::Spades
        } else if i < 26 {
            Color::Hearts
        } else if i < 39 {
            Color::Diamonds
        } else {
            Color::Clubs
        };
        let rank = rank_of_position(i % 13);
        deck.push(Card { rank, color });
        i = i + 1;
    }
    assert(deck@ =~= full_deck());
    deck
}

} // verus!
