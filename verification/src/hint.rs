//! Hints for a drill point: its reading, then each of its meanings.

use vstd::prelude::*;
use crate::drill_point::{meanings_of, DrillPoint};

verus! {

/// What kind of hint a text is.
#[derive(Debug, Clone, Copy, PartialEq, Eq, Structural)]
pub enum HintStyle {
    Definition,
    Reading,
}

/// A hint shown with a word.
#[derive(Debug, Clone, PartialEq, Eq)]
pub struct Hint {
    pub style: HintStyle,
    pub text: String,
}

/// A hint as its kind and its characters.
pub struct HintView {
    pub style: HintStyle,
    pub text: Seq<char>,
}

impl View for Hint {
    type V = HintView;

    open spec fn view(&self) -> HintView {
        HintView { style: self.style, text: self.text@ }
    }
}

/// The views of `hints`, in order.
pub open spec fn hint_views(hints: Seq<Hint>) -> Seq<HintView> {
    Seq::new(hints.len(), |i: int| hints[i]@)
}

/// The hints for a word with the reading `yomi` and the meaning text
/// `meaning`: the reading first, then one definition for each meaning.
pub open spec fn hints_for(yomi: Seq<char>, meaning: Seq<char>) -> Seq<HintView> {
    let meanings = meanings_of(meaning);
    Seq::new(
        meanings.len() + 1,
        |i: int|
            if i == 0 {
                HintView { style: HintStyle::Reading, text: yomi }
            } else {
                HintView { style: HintStyle::Definition, text: meanings[i - 1] }
            },
    )
}

impl Hint {
    /// A hint that gives a meaning.
    pub fn definition(text: String) -> (hint: Hint)
        ensures
            hint == (Hint { style: HintStyle::Definition, text }),
    {
        Hint { style: HintStyle::Definition, text }
    }

    /// A hint that gives the reading.
    pub fn reading(text: String) -> (hint: Hint)
        ensures
            hint == (Hint { style: HintStyle::Reading, text }),
    {
        Hint { style: HintStyle::Reading, text }
    }
}

/// Makes the hints for a drill point: its reading, then its meanings.
pub fn get_hints(drill: &DrillPoint) -> (hints: Vec<Hint>)
    ensures
        hint_views(hints@) == hints_for(drill.yomi@, drill.meaning@),
{
    let meanings = drill.to_meanings();
    let mut hints: Vec<Hint> = Vec::new();
    hints.push(Hint::reading(drill.yomi.clone()));
    let mut k: usize = 0;
    while k < meanings.len()
        invariant
            k <= meanings@.len(),
            meanings.deep_view() == meanings_of(drill.meaning@),
            hints@.len() == k + 1,
            hints@[0]@ == (HintView { style: HintStyle::Reading, text: drill.yomi@ }),
            forall|j: int|
                1 <= j < k + 1 ==> (#[trigger] hints@[j])@ == (HintView {
                    style: HintStyle::Definition,
                    text: meanings@[j - 1]@,
                }),
        decreases meanings@.len() - k,
    {
        hints.push(Hint::definition(meanings[k].clone()));
        k = k + 1;
    }
    proof {
        assert forall|i: int| 0 <= i < hints@.len() implies hint_views(hints@)[i] == hints_for(
            drill.yomi@,
            drill.meaning@,
        )[i] by {
            if i > 0 {
                assert(meanings.deep_view()[i - 1] == meanings@[i - 1]@);
            }
        }
        assert(hint_views(hints@) =~= hints_for(drill.yomi@, drill.meaning@));
    }
    hints
}

} // verus!
