//! The rows of a review sheet: a word, and its hints behind a cover.

use vstd::prelude::*;
use crate::drill_point::DrillPoint;
use crate::hint::{get_hints, hint_views, hints_for, Hint};

verus! {

/// The answer to one row: its hints, covered until the learner asks.
#[derive(Debug, Clone, PartialEq, Eq)]
pub struct Answer {
    pub lesson_index: usize,
    pub hints: Vec<Hint>,
    pub visible: bool,
}

/// One row of a review sheet.
#[derive(Debug, Clone, PartialEq, Eq)]
pub struct Lesson {
    pub index: usize,
    pub prompt: String,
    pub answer: Answer,
}

impl Answer {
    /// A covered answer for the row `lesson_index`.
    pub fn new(lesson_index: usize, hints: Vec<Hint>) -> (answer: Answer)
        ensures
            answer == (Answer { lesson_index, hints, visible: false }),
    {
        Answer { lesson_index, hints, visible: false }
    }
}

impl Lesson {
    /// The row for a drill point: the word is the prompt, and the answer
    /// holds the point's hints, covered.
    pub fn new(index: usize, drill: DrillPoint) -> (lesson: Lesson)
        ensures
            lesson.index == index,
            lesson.prompt == drill.kanji,
            lesson.answer.lesson_index == index,
            !lesson.answer.visible,
            hint_views(lesson.answer.hints@) == hints_for(drill.yomi@, drill.meaning@),
    {
        let hints = get_hints(&drill);
        Lesson { index, prompt: drill.kanji, answer: Answer::new(index, hints) }
    }
}

/// The row `lesson` with its answer uncovered.
pub open spec fn uncovered(lesson: Lesson) -> Lesson {
    Lesson { answer: Answer { visible: true, ..lesson.answer }, ..lesson }
}

/// Uncovers the answer of the row at `index`; the other rows stay as
/// they are.
pub fn show_answer(lessons: &mut Vec<Lesson>, index: usize)
    requires
        index < old(lessons)@.len(),
    ensures
        final(lessons)@ == old(lessons)@.update(index as int, uncovered(old(lessons)@[index as int])),
{
    let ghost before = lessons@;
    let mut lesson = lessons.remove(index);
    lesson.answer.visible = true;
    lessons.insert(index, lesson);
    proof {
        assert(lessons@ =~= before.update(index as int, uncovered(before[index as int])));
    }
}

} // verus!
