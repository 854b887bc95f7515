//! Drill points: a word written with its reading in brackets, taken apart
//! into the word and the reading.
//!
//! The written form is a run of segments, each closed by a full-width
//! closing bracket. A segment is a stretch of text, optionally followed by a
//! full-width opening bracket and the reading of that stretch.

use vstd::prelude::*;
use vstd::string::StrSliceExecFns;
use vstd::string::StringExecFns;
use crate::error::DrillError;
use crate::text::{
    is_blank,
    is_blank_range,
    lemma_split_on_len,
    piece,
    pieces,
    ranges_within,
    split_on,
    split_ranges,
    trim,
    trim_range,
};

verus! {

/// The full-width opening bracket, which begins a reading.
pub const OPEN: char = '\u{ff08}';

/// The full-width closing bracket, which ends a segment.
pub const CLOSE: char = '\u{ff09}';

/// The comma, which parts the meanings of a word.
pub const COMMA: char = ',';

/// One entry of a word list.
#[derive(Debug, Clone, PartialEq, Eq)]
pub struct DrillPoint {
    pub chapter: usize,
    /// The word as it was written, readings in brackets.
    pub furi: String,
    pub meaning: String,
    /// The word without its readings.
    pub kanji: String,
    /// The reading of the word.
    pub yomi: String,
}

/// The segments of a written form.
pub open spec fn segments_of(furi: Seq<char>) -> Seq<Seq<char>> {
    split_on(furi, CLOSE)
}

/// Whether a segment has at most one opening bracket.
pub open spec fn segment_ok(segment: Seq<char>) -> bool {
    split_on(segment, OPEN).len() <= 2
}

/// Whether every segment of a written form has at most one opening
/// bracket.
pub open spec fn well_formed(furi: Seq<char>) -> bool {
    forall|k: int| 0 <= k < segments_of(furi).len() ==> segment_ok(#[trigger] segments_of(furi)[k])
}

/// What a segment adds to the word: the text before its bracket.
pub open spec fn word_part(segment: Seq<char>) -> Seq<char> {
    split_on(segment, OPEN)[0]
}

/// What a segment adds to the reading: the text in its bracket; the text
/// before the bracket too where the bracket holds only white space; and the
/// whole segment where it has no bracket.
pub open spec fn reading_part(segment: Seq<char>) -> Seq<char> {
    let parts = split_on(segment, OPEN);
    if parts.len() == 1 {
        parts[0]
    } else if is_blank(parts[1]) {
        parts[0] + parts[1]
    } else {
        parts[1]
    }
}

/// The word parts of `segments`, joined.
pub open spec fn words_of(segments: Seq<Seq<char>>) -> Seq<char>
    decreases segments.len(),
{
    if segments.len() == 0 {
        Seq::empty()
    } else {
        words_of(segments.drop_last()) + word_part(segments.last())
    }
}

/// The reading parts of `segments`, joined.
pub open spec fn readings_of(segments: Seq<Seq<char>>) -> Seq<char>
    decreases segments.len(),
{
    if segments.len() == 0 {
        Seq::empty()
    } else {
        readings_of(segments.drop_last()) + reading_part(segments.last())
    }
}

/// The test "is not empty" on texts.
pub open spec fn not_empty() -> spec_fn(Seq<char>) -> bool {
    |text: Seq<char>| text.len() > 0
}

/// Trimming, as a function on texts.
pub open spec fn trimmed() -> spec_fn(Seq<char>) -> Seq<char> {
    |text: Seq<char>| trim(text)
}

/// The meanings in a list parted by commas: each item without the white
/// space around it, the empty ones left out.
pub open spec fn meanings_of(text: Seq<char>) -> Seq<Seq<char>> {
    split_on(text, COMMA).map_values(trimmed()).filter(not_empty())
}

/// Takes a list parted by commas apart into its meanings.
pub fn split_meanings(text: &str) -> (meanings: Vec<String>)
    ensures
        meanings.deep_view() == meanings_of(text@),
{
    let length: usize = text.unicode_len();
    let items = split_ranges(text, 0, length, COMMA);
    let ghost all = split_on(text@, COMMA);
    let mut meanings: Vec<String> = Vec::new();
    let mut k: usize = 0;
    proof {
        assert(text@.subrange(0, length as int) =~= text@);
        assert(all.take(0).map_values(trimmed()) =~= Seq::<Seq<char>>::empty());
        Seq::<Seq<char>>::empty().lemma_filter_len(not_empty());
        assert(meanings.deep_view() =~= all.take(0).map_values(trimmed()).filter(not_empty()));
    }
    while k < items.len()
        invariant
            k <= items@.len(),
            length == text@.len(),
            ranges_within(items@, 0, length as int),
            pieces(text@, items@) == all,
            meanings.deep_view() == all.take(k as int).map_values(trimmed()).filter(not_empty()),
        decreases items@.len() - k,
    {
        let range: (usize, usize) = items[k];
        let inner: (usize, usize) = trim_range(text, range.0, range.1);
        let ghost before = all.take(k as int);
        let ghost kept = meanings.deep_view();
        proof {
            assert(all[k as int] == piece(text@, items@[k as int]));
            assert(all.take(k + 1) =~= before.push(all[k as int]));
            before.lemma_push_map_commute(trimmed(), all[k as int]);
            before.map_values(trimmed()).lemma_filter_push(trim(all[k as int]), not_empty());
        }
        if inner.0 < inner.1 {
            let meaning = String::from_str(text.substring_char(inner.0, inner.1));
            meanings.push(meaning);
            proof {
                assert(meanings.deep_view() =~= kept.push(trim(all[k as int])));
            }
        } else {
            proof {
                assert(trim(all[k as int]).len() == 0);
                assert(meanings.deep_view() =~= kept);
            }
        }
        k = k + 1;
    }
    proof {
        assert(all.take(k as int) =~= all);
    }
    meanings
}

impl DrillPoint {
    /// Takes a written form apart. The word is what the segments hold
    /// before their brackets; the reading is what stands in the brackets,
    /// and the text itself where a segment has no reading of its own. A
    /// segment with more than one opening bracket is refused.
    pub fn new(chapter: usize, furi: &str, meaning: &str) -> (made: Result<DrillPoint, DrillError>)
        ensures
            well_formed(furi@) <==> made is Ok,
            made is Err ==> made == Err::<DrillPoint, DrillError>(DrillError::MalformedContent),
            made is Ok ==> {
                let point = made->Ok_0;
                &&& point.chapter == chapter
                &&& point.furi@ == furi@
                &&& point.meaning@ == meaning@
                &&& point.kanji@ == words_of(segments_of(furi@))
                &&& point.yomi@ == readings_of(segments_of(furi@))
            },
    {
        let length: usize = furi.unicode_len();
        let segments = split_ranges(furi, 0, length, CLOSE);
        let ghost all = segments_of(furi@);
        let mut kanji = String::new();
        let mut yomi = String::new();
        let mut k: usize = 0;
        proof {
            assert(furi@.subrange(0, length as int) =~= furi@);
        }
        while k < segments.len()
            invariant
                k <= segments@.len(),
                length == furi@.len(),
                all == segments_of(furi@),
                ranges_within(segments@, 0, length as int),
                pieces(furi@, segments@) == all,
                kanji@ == words_of(all.take(k as int)),
                yomi@ == readings_of(all.take(k as int)),
                forall|j: int| 0 <= j < k ==> segment_ok(#[trigger] all[j]),
            decreases segments@.len() - k,
        {
            let range: (usize, usize) = segments[k];
            let parts = split_ranges(furi, range.0, range.1, OPEN);
            let ghost segment = all[k as int];
            proof {
                assert(segment == piece(furi@, segments@[k as int]));
                lemma_split_on_len(segment, OPEN);
                assert(all.take(k + 1).drop_last() =~= all.take(k as int));
                assert(all.take(k + 1).last() == segment);
                assert(pieces(furi@, parts@).len() == parts@.len());
            }
            if parts.len() > 2 {
                return Err(DrillError::MalformedContent);
            }
            let first: (usize, usize) = parts[0];
            let word = furi.substring_char(first.0, first.1);
            proof {
                assert(word@ == pieces(furi@, parts@)[0]);
            }
            kanji.append(word);
            if parts.len() == 2 {
                let second: (usize, usize) = parts[1];
                let reading = furi.substring_char(second.0, second.1);
                proof {
                    assert(reading@ == pieces(furi@, parts@)[1]);
                }
                if is_blank_range(furi, second.0, second.1) {
                    yomi.append(word);
                }
                yomi.append(reading);
            } else {
                yomi.append(word);
            }
            k = k + 1;
        }
        proof {
            assert(all.take(k as int) =~= all);
        }
        Ok(DrillPoint { chapter, furi: furi.to_owned(), meaning: meaning.to_owned(), kanji, yomi })
    }

    /// The meanings of the word: the items of its meaning text, which
    /// commas part, each without the white space around it, the empty ones
    /// left out.
    pub fn to_meanings(&self) -> (meanings: Vec<String>)
        ensures
            meanings.deep_view() == meanings_of(self.meaning@),
    {
        split_meanings(self.meaning.as_str())
    }
}

} // verus!
