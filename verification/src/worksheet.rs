//! The rows of a worksheet: a word with its hints in the open.

use vstd::prelude::*;
use crate::drill_point::DrillPoint;
use crate::hint::{get_hints, hint_views, hints_for, Hint};

verus! {

/// One row of a worksheet.
#[derive(Debug, Clone, PartialEq, Eq)]
pub struct Answer {
    pub index: usize,
    pub kanji: String,
    pub hints: Vec<Hint>,
}

impl Answer {
    /// The row for a drill point: its word, and its hints.
    pub fn new(index: usize, drill_point: DrillPoint) -> (answer: Answer)
        ensures
            answer.index == index,
            answer.kanji == drill_point.kanji,
            hint_views(answer.hints@) == hints_for(drill_point.yomi@, drill_point.meaning@),
    {
        let hints = get_hints(&drill_point);
        Answer { index, kanji: drill_point.kanji, hints }
    }
}

} // verus!
