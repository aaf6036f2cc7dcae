//! The hand evaluator, consumed as an opaque capability: seven cards go
//! in, a totally ordered rank value comes out. The evaluation itself is
//! done by the `poker` crate; this module declares its types and wraps
//! the few calls the showdown logic makes.

use vstd::prelude::*;

use poker::Card as EvaluatorCard;
use poker::Evaluator;
use poker::Rank as EvaluatorRank;
use poker::Suit as EvaluatorColor;

verus! {

/// Relies on poker::Evaluator, the lookup-table hand evaluator; opaque
/// here.
#[verifier::external_type_specification]
#[verifier::external_body]
pub struct ExEvaluator(Evaluator);

/// Relies on poker::Card, the evaluator's card encoding; opaque here.
#[verifier::external_type_specification]
#[verifier::external_body]
pub struct ExEvaluatorCard(EvaluatorCard);

/// Relies on poker::Rank, the evaluator's thirteen ranks; opaque here.
#[verifier::external_type_specification]
#[verifier::external_body]
pub struct ExEvaluatorRank(EvaluatorRank);

/// Relies on poker::Suit, the evaluator's four suits; opaque here.
#[verifier::external_type_specification]
#[verifier::external_body]
pub struct ExEvaluatorColor(EvaluatorColor);

/// Relies on poker::Evaluator::new: builds the evaluator's lookup tables.
#[verifier::external_body]
pub fn new_evaluator() -> Evaluator {
    Evaluator::new()
}

/// The evaluator's verdict on two hands, as a name: whether the best
/// five-card hand among the cards of `h1` ranks strictly better than the
/// best among those of `h2`, or nothing when either hand does not
/// evaluate (fewer than five cards, or two equal cards). The verdict is
/// a function of the cards alone: the lookup tables every evaluator
/// builds are identical.
pub uninterp spec fn beats_of(h1: Seq<crate::cards::Card>, h2: Seq<crate::cards::Card>) -> Option<
    bool,
>;

/// Relies on poker::Evaluator::evaluate_five and poker::Eval::is_better_than:
/// evaluates both hands and compares their ranks, which is the named
/// verdict `beats_of`; nothing comes back when either evaluation fails.
#[verifier::external_body]
pub fn hand_beats(
    evaluator: &Evaluator,
    h1: &Vec<crate::cards::Card>,
    h2: &Vec<crate::cards::Card>,
) -> (r: Option<bool>)
    ensures
        r == beats_of(h1@, h2@),
{
    let mut c1: Vec<EvaluatorCard> = Vec::new();
    for c in h1.iter() {
        c1.push(c.to_evaluate());
    }
    let mut c2: Vec<EvaluatorCard> = Vec::new();
    for c in h2.iter() {
        c2.push(c.to_evaluate());
    }
    match (evaluator.evaluate_five(c1).ok(), evaluator.evaluate_five(c2).ok()) {
        (Some(a), Some(b)) => Some(a.is_better_than(b)),
        _ => None,
    }
}

impl crate::cards::Rank {
    /// Relies on poker::Rank: the same thirteen ranks, carried over one
    /// for one for the evaluator's use.
    #[verifier::external_body]
    pub fn to_evaluate(self) -> EvaluatorRank {
        match self {
            crate::cards::Rank::Two => EvaluatorRank::Two,
            crate::cards::Rank::Three => EvaluatorRank::Three,
            crate::cards::Rank::Four => EvaluatorRank::Four,
            crate::cards::Rank::Five => EvaluatorRank::Five,
            crate::cards::Rank::Six => EvaluatorRank::Six,
            crate::cards::Rank::Seven => EvaluatorRank::Seven,
            crate::cards::Rank::Eight => EvaluatorRank::Eight,
            crate::cards::Rank::Nine => EvaluatorRank::Nine,
            crate::cards::Rank::Ten => EvaluatorRank::Ten,
            crate::cards::Rank::Jack => EvaluatorRank::Jack,
            crate::cards::Rank::Queen => EvaluatorRank::Queen,
            crate::cards::Rank::King => EvaluatorRank::King,
            crate::cards::Rank::Ace => EvaluatorRank::Ace,
        }
    }
}

impl crate::cards::Color {
    /// Relies on poker::Suit: the same four suits, carried over one for
    /// one for the evaluator's use.
    #[verifier::external_body]
    pub fn to_evaluate(self) -> EvaluatorColor {
        match self {
            crate::cards::Color::Hearts => EvaluatorColor::Hearts,
            crate::cards::Color::Diamonds => EvaluatorColor::Diamonds,
            crate::cards::Color::Spades => EvaluatorColor::Spades,
            crate::cards::Color::Clubs => EvaluatorColor::Clubs,
        }
    }
}

impl crate::cards::Card {
    /// Relies on poker::Card::new: the evaluator's form of this card.
    #[verifier::external_body]
    pub fn to_evaluate(&self) -> EvaluatorCard {
        EvaluatorCard::new(self.rank.to_evaluate(), self.color.to_evaluate())
    }
}

} // verus!
