//! The nine hand categories, in increasing categorical strength, and the
//! per-category score bounds.

use vstd::prelude::*;

verus! {

/// A hand category. The declaration order is the canonical order: each
/// variant is categorically stronger than the ones before it.
#[derive(Debug, Clone, Copy, PartialEq, Eq, Hash, Structural)]
pub enum Hand {
    Violin,
    Pareja,
    DoblePareja,
    Trio,
    EscaleraMenor,
    EscaleraMayor,
    Full,
    Poker,
    Repoker,
}

/// Position of a category in the canonical order, 0 to 8.
pub open spec fn hand_ordinal(h: Hand) -> int {
    match h {
        Hand::Violin => 0,
        Hand::Pareja => 1,
        Hand::DoblePareja => 2,
        Hand::Trio => 3,
        Hand::EscaleraMenor => 4,
        Hand::EscaleraMayor => 5,
        Hand::Full => 6,
        Hand::Poker => 7,
        Hand::Repoker => 8,
    }
}

/// Category at a given position in the canonical order.
pub open spec fn hand_of_ordinal(i: int) -> Hand {
    if i == 0 {
        Hand::Violin
    } else if i == 1 {
        Hand::Pareja
    } else if i == 2 {
        Hand::DoblePareja
    } else if i == 3 {
        Hand::Trio
    } else if i == 4 {
        Hand::EscaleraMenor
    } else if i == 5 {
        Hand::EscaleraMayor
    } else if i == 6 {
        Hand::Full
    } else if i == 7 {
        Hand::Poker
    } else {
        Hand::Repoker
    }
}

/// Lower end of the category's score range.
pub open spec fn min_score(h: Hand) -> int {
    match h {
        Hand::Violin => 0,
        Hand::Pareja => 22,
        Hand::DoblePareja => 63,
        Hand::Trio => 302,
        Hand::EscaleraMenor => 1,
        Hand::EscaleraMayor => 1,
        Hand::Full => 340,
        Hand::Poker => 4002,
        Hand::Repoker => 50000,
    }
}

/// Upper end of the category's score range.
pub open spec fn max_score(h: Hand) -> int {
    match h {
        Hand::Violin => 0,
        Hand::Pareja => 125,
        Hand::DoblePareja => 224,
        Hand::Trio => 1805,
        Hand::EscaleraMenor => 1,
        Hand::EscaleraMayor => 1,
        Hand::Full => 1900,
        Hand::Poker => 24005,
        Hand::Repoker => 300000,
    }
}

impl Hand {
    /// Position of this category in the canonical order.
    pub fn ordinal(&self) -> (i: usize)
        ensures
            i == hand_ordinal(*self),
            i < 9,
            hand_of_ordinal(i as int) == *self,
    {
        match self {
            Hand::Violin => 0,
            Hand::Pareja => 1,
            Hand::DoblePareja => 2,
            Hand::Trio => 3,
            Hand::EscaleraMenor => 4,
            Hand::EscaleraMayor => 5,
            Hand::Full => 6,
            Hand::Poker => 7,
            Hand::Repoker => 8,
        }
    }

    /// All nine categories, in canonical order.
    pub fn all() -> (r: Vec<Hand>)
        ensures
            r@.len() == 9,
            forall|i: int| 0 <= i < 9 ==> r@[i] == hand_of_ordinal(i),
    {
        let mut v: Vec<Hand> = Vec::new();
        v.push(Hand::Violin);
        v.push(Hand::Pareja);
        v.push(Hand::DoblePareja);
        v.push(Hand::Trio);
        v.push(Hand::EscaleraMenor);
        v.push(Hand::EscaleraMayor);
        v.push(Hand::Full);
        v.push(Hand::Poker);
        v.push(Hand::Repoker);
        v
    }

    /// Printable label of the category.
    pub fn name(&self) -> (r: &'static str)
        ensures
            r@ == spec_name(*self),
    {
        match self {
            Hand::Violin => "Violin",
            Hand::Pareja => "Pareja",
            Hand::DoblePareja => "DoblePareja",
            Hand::Trio => "Trio",
            Hand::EscaleraMenor => "EscaleraMenor",
            Hand::EscaleraMayor => "EscaleraMayor",
            Hand::Full => "Full",
            Hand::Poker => "Poker",
            Hand::Repoker => "Repoker",
        }
    }

    /// Lower end of this category's score range.
    pub fn min_score_value(&self) -> (r: u32)
        ensures
            r as int == min_score(*self),
    {
        match self {
            Hand::Violin => 0,
            Hand::Pareja => 22,
            Hand::DoblePareja => 63,
            Hand::Trio => 302,
            Hand::EscaleraMenor => 1,
            Hand::EscaleraMayor => 1,
            Hand::Full => 340,
            Hand::Poker => 4002,
            Hand::Repoker => 50000,
        }
    }

    /// Upper end of this category's score range.
    pub fn max_score_value(&self) -> (r: u32)
        ensures
            r as int == max_score(*self),
    {
        match self {
            Hand::Violin => 0,
            Hand::Pareja => 125,
            Hand::DoblePareja => 224,
            Hand::Trio => 1805,
            Hand::EscaleraMenor => 1,
            Hand::EscaleraMayor => 1,
            Hand::Full => 1900,
            Hand::Poker => 24005,
            Hand::Repoker => 300000,
        }
    }
}

/// Label of each category, as a character sequence.
pub open spec fn spec_name(h: Hand) -> Seq<char> {
    match h {
        Hand::Violin => "Violin"@,
        Hand::Pareja => "Pareja"@,
        Hand::DoblePareja => "DoblePareja"@,
        Hand::Trio => "Trio"@,
        Hand::EscaleraMenor => "EscaleraMenor"@,
        Hand::EscaleraMayor => "EscaleraMayor"@,
        Hand::Full => "Full"@,
        Hand::Poker => "Poker"@,
        Hand::Repoker => "Repoker"@,
    }
}

/// No category scores above the top of the Repoker range.
pub proof fn lemma_max_score_bound(h: Hand)
    ensures
        0 <= min_score(h) <= max_score(h) <= 300000,
{
}

} // verus!
