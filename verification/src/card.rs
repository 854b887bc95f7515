//! Drill cards and the stage each one has reached in a session.

use vstd::prelude::*;
use crate::drill_point::DrillPoint;

verus! {

/// The stage of a card within a session.
#[derive(Debug, Clone, Copy, PartialEq, Eq, Structural)]
pub enum Goal {
    /// The card is still being learned.
    Learn,
    /// The card was shown again on request and awaits another look.
    Review,
    /// The card has been passed; nothing more is asked of it.
    Celebrate,
}

/// The prompt side of a card.
#[derive(Debug, PartialEq, Eq)]
pub struct CardFront {
    pub kanji: String,
}

/// The answer side of a card.
#[derive(Debug, PartialEq, Eq)]
pub struct CardBack {
    pub yomi: String,
    pub meaning: String,
}

impl Clone for CardFront {
    fn clone(&self) -> (copy: CardFront)
        ensures
            copy == *self,
    {
        CardFront { kanji: self.kanji.clone() }
    }
}

impl Clone for CardBack {
    fn clone(&self) -> (copy: CardBack)
        ensures
            copy == *self,
    {
        CardBack { yomi: self.yomi.clone(), meaning: self.meaning.clone() }
    }
}

/// A drill card: fixed content and the stage it has reached. The identifier
/// names the stored phrase that the card was made from; a card made from a
/// drill point alone has none.
#[derive(Debug, PartialEq, Eq)]
pub struct Card {
    pub id: Option<i64>,
    pub goal: Goal,
    pub front: CardFront,
    pub back: CardBack,
}

/// The number of turns a card at stage `goal` still asks for.
pub open spec fn turns_of(goal: Goal) -> nat {
    match goal {
        Goal::Learn => 1,
        Goal::Review => 1,
        Goal::Celebrate => 0,
    }
}

impl Goal {
    /// Whether this is the final stage.
    pub fn is_celebrate(&self) -> (yes: bool)
        ensures
            yes == (*self == Goal::Celebrate),
    {
        match self {
            Goal::Celebrate => true,
            _ => false,
        }
    }
}

impl Clone for Card {
    fn clone(&self) -> (copy: Card)
        ensures
            copy == *self,
    {
        Card { id: self.id, goal: self.goal, front: self.front.clone(), back: self.back.clone() }
    }
}

impl Card {
    /// A card for a drill point, at the first stage and without an
    /// identifier: the point's word is the prompt, its reading and meaning
    /// are the answer.
    pub fn new(drill: DrillPoint) -> (card: Card)
        ensures
            card == (Card {
                id: None,
                goal: Goal::Learn,
                front: CardFront { kanji: drill.kanji },
                back: CardBack { yomi: drill.yomi, meaning: drill.meaning },
            }),
    {
        Card {
            id: None,
            goal: Goal::Learn,
            front: CardFront { kanji: drill.kanji },
            back: CardBack { yomi: drill.yomi, meaning: drill.meaning },
        }
    }

    /// The same card at stage `goal`.
    pub open spec fn with_goal(self, goal: Goal) -> Card {
        Card { goal, ..self }
    }

    /// The card's content, which no event changes: the card at the first stage.
    pub open spec fn content(self) -> Card {
        self.with_goal(Goal::Learn)
    }

    /// How many turns the card still asks for: one until it is passed.
    pub fn turns_remaining(&self) -> (turns: usize)
        ensures
            turns == turns_of(self.goal),
    {
        match self.goal {
            Goal::Learn => 1,
            Goal::Review => 1,
            Goal::Celebrate => 0,
        }
    }
}

} // verus!
