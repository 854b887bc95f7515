//! The rows of a review sheet that hints with the meanings only, as tags.

use vstd::prelude::*;
use crate::drill_point::{meanings_of, split_meanings, DrillPoint};

verus! {

/// The hint of one row: the meanings as tags, covered until the learner
/// asks.
#[derive(Debug, Clone, PartialEq, Eq)]
pub struct Hint {
    pub index: usize,
    pub tags: Vec<String>,
    pub visible: bool,
}

/// One row of the sheet.
#[derive(Debug, Clone, PartialEq, Eq)]
pub struct Lesson {
    pub index: usize,
    pub prompt: String,
    pub hint: Hint,
}

impl Hint {
    /// A covered hint for the row `index`, with the meanings of `text` as
    /// its tags.
    pub fn new(text: String, index: usize) -> (hint: Hint)
        ensures
            hint.index == index,
            hint.tags.deep_view() == meanings_of(text@),
            !hint.visible,
    {
        let tags = split_meanings(text.as_str());
        Hint { index, tags, visible: false }
    }
}

impl Lesson {
    /// The row for a drill point: the word is the prompt, its meanings are
    /// the hint.
    pub fn new(index: usize, drill: DrillPoint) -> (lesson: Lesson)
        ensures
            lesson.index == index,
            lesson.prompt == drill.kanji,
            lesson.hint.index == index,
            lesson.hint.tags.deep_view() == meanings_of(drill.meaning@),
            !lesson.hint.visible,
    {
        Lesson { index, prompt: drill.kanji, hint: Hint::new(drill.meaning, index) }
    }
}

} // verus!
