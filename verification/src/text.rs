//! Text as sequences of characters: splitting at a separator and trimming
//! white space.

use vstd::prelude::*;
use vstd::string::StrSliceExecFns;

verus! {

/// Whether `c` is white space, as `char::is_whitespace` decides it.
pub uninterp spec fn is_whitespace(c: char) -> bool;

/// Calls `char::is_whitespace`, which tells whether the character has the
/// Unicode property `White_Space`. The result is the named predicate on
/// the character.
#[verifier::external_body]
pub(crate) fn char_is_whitespace(c: char) -> (yes: bool)
    ensures
        yes == is_whitespace(c),
{
    c.is_whitespace()
}

/// The pieces of `text` between the occurrences of `sep`, in order. There
/// is always one piece more than there are separators, so some pieces may
/// be empty.
pub open spec fn split_on(text: Seq<char>, sep: char) -> Seq<Seq<char>>
    decreases text.len(),
{
    if text.len() == 0 {
        seq![Seq::<char>::empty()]
    } else {
        let before = split_on(text.drop_last(), sep);
        if text.last() == sep {
            before.push(Seq::<char>::empty())
        } else {
            before.drop_last().push(before.last().push(text.last()))
        }
    }
}

/// Splitting gives at least one piece.
pub proof fn lemma_split_on_len(text: Seq<char>, sep: char)
    ensures
        split_on(text, sep).len() >= 1,
    decreases text.len(),
{
    if text.len() > 0 {
        lemma_split_on_len(text.drop_last(), sep);
    }
}

/// Whether every character of `text` is white space.
pub open spec fn is_blank(text: Seq<char>) -> bool {
    forall|i: int| 0 <= i < text.len() ==> is_whitespace(#[trigger] text[i])
}

/// `text` without the white space at its start.
pub open spec fn trim_start(text: Seq<char>) -> Seq<char>
    decreases text.len(),
{
    if text.len() > 0 && is_whitespace(text.first()) {
        trim_start(text.drop_first())
    } else {
        text
    }
}

/// `text` without the white space at its end.
pub open spec fn trim_end(text: Seq<char>) -> Seq<char>
    decreases text.len(),
{
    if text.len() > 0 && is_whitespace(text.last()) {
        trim_end(text.drop_last())
    } else {
        text
    }
}

/// `text` without the white space at its start and at its end.
pub open spec fn trim(text: Seq<char>) -> Seq<char> {
    trim_end(trim_start(text))
}

/// The characters of `text` from position `range.0` up to `range.1`.
pub open spec fn piece(text: Seq<char>, range: (usize, usize)) -> Seq<char> {
    text.subrange(range.0 as int, range.1 as int)
}

/// The pieces of `text` that `ranges` cut out, in order.
pub open spec fn pieces(text: Seq<char>, ranges: Seq<(usize, usize)>) -> Seq<Seq<char>> {
    Seq::new(ranges.len(), |k: int| piece(text, ranges[k]))
}

/// Whether each of `ranges` lies between `from` and `to`.
pub open spec fn ranges_within(ranges: Seq<(usize, usize)>, from: int, to: int) -> bool {
    forall|k: int|
        0 <= k < ranges.len() ==> from <= (#[trigger] ranges[k]).0 <= ranges[k].1 <= to
}

/// Splits the part of `text` from `from` to `to` at each `sep` and gives
/// the pieces as ranges of positions in `text`.
pub fn split_ranges(text: &str, from: usize, to: usize, sep: char) -> (ranges: Vec<(usize, usize)>)
    requires
        from <= to <= text@.len(),
    ensures
        ranges_within(ranges@, from as int, to as int),
        pieces(text@, ranges@) == split_on(text@.subrange(from as int, to as int), sep),
{
    let mut ranges: Vec<(usize, usize)> = Vec::new();
    let mut start: usize = from;
    let mut i: usize = from;
    proof {
        assert(text@.subrange(from as int, from as int) =~= Seq::<char>::empty());
        assert(pieces(text@, ranges@).push(text@.subrange(start as int, i as int)) =~= seq![
            Seq::<char>::empty(),
        ]);
    }
    while i < to
        invariant
            from <= start <= i <= to <= text@.len(),
            ranges_within(ranges@, from as int, i as int),
            split_on(text@.subrange(from as int, i as int), sep) == pieces(text@, ranges@).push(
                text@.subrange(start as int, i as int),
            ),
        decreases to - i,
    {
        let c: char = text.get_char(i);
        let ghost done = pieces(text@, ranges@);
        let ghost current = text@.subrange(start as int, i as int);
        proof {
            let longer = text@.subrange(from as int, i + 1);
            assert(longer.drop_last() =~= text@.subrange(from as int, i as int));
            assert(longer.last() == c);
            assert(done.push(current).drop_last() =~= done);
        }
        if c == sep {
            ranges.push((start, i));
            start = i + 1;
            proof {
                assert(pieces(text@, ranges@) =~= done.push(current));
                assert(text@.subrange(start as int, i + 1) =~= Seq::<char>::empty());
            }
        } else {
            proof {
                assert(text@.subrange(start as int, i + 1) =~= current.push(c));
            }
        }
        i = i + 1;
    }
    ranges.push((start, to));
    proof {
        assert(pieces(text@, ranges@) =~= split_on(text@.subrange(from as int, to as int), sep));
    }
    ranges
}

/// For each character of `text`, whether it is white space.
pub open spec fn blanks_of(text: Seq<char>) -> Seq<bool> {
    Seq::new(text.len(), |i: int| is_whitespace(text[i]))
}

/// Whether `range` cuts the set flags off both ends of `flags`: every flag
/// before it and after it is set, and it begins and ends with a flag that
/// is not set. Where every flag is set, it is the empty range at the end.
pub open spec fn is_kept_range(flags: Seq<bool>, range: (usize, usize)) -> bool {
    &&& range.0 <= range.1 <= flags.len()
    &&& forall|i: int| 0 <= i < range.0 ==> flags[i]
    &&& forall|i: int| range.1 <= i < flags.len() ==> flags[i]
    &&& range.0 < range.1 ==> !flags[range.0 as int] && !flags[range.1 - 1]
    &&& range.0 == range.1 ==> range.0 == flags.len()
}

/// Marks the white space in the part of `text` from `from` to `to`.
fn whitespace_flags(text: &str, from: usize, to: usize) -> (flags: Vec<bool>)
    requires
        from <= to <= text@.len(),
    ensures
        flags@ == blanks_of(text@.subrange(from as int, to as int)),
{
    let mut flags: Vec<bool> = Vec::new();
    let mut i: usize = from;
    while i < to
        invariant
            from <= i <= to <= text@.len(),
            flags@ == blanks_of(text@.subrange(from as int, i as int)),
        decreases to - i,
    {
        flags.push(char_is_whitespace(text.get_char(i)));
        proof {
            assert(flags@ =~= blanks_of(text@.subrange(from as int, i + 1)));
        }
        i = i + 1;
    }
    flags
}

/// Decides whether every flag is set.
pub fn all_set(flags: &Vec<bool>) -> (yes: bool)
    ensures
        yes == (forall|i: int| 0 <= i < flags@.len() ==> flags@[i]),
{
    let mut i: usize = 0;
    while i < flags.len()
        invariant
            i <= flags@.len(),
            forall|j: int| 0 <= j < i ==> flags@[j],
        decreases flags@.len() - i,
    {
        if !flags[i] {
            return false;
        }
        i = i + 1;
    }
    true
}

/// Finds the range that is left when the set flags are cut off both ends.
pub fn kept_range(flags: &Vec<bool>) -> (range: (usize, usize))
    ensures
        is_kept_range(flags@, range),
{
    let mut a: usize = 0;
    while a < flags.len() && flags[a]
        invariant
            a <= flags@.len(),
            forall|i: int| 0 <= i < a ==> flags@[i],
        decreases flags@.len() - a,
    {
        a = a + 1;
    }
    let mut b: usize = flags.len();
    while b > a && flags[b - 1]
        invariant
            a <= b <= flags@.len(),
            forall|i: int| b <= i < flags@.len() ==> flags@[i],
        decreases b - a,
    {
        b = b - 1;
    }
    (a, b)
}

/// Trimming at the start drops a first stretch of white space that ends
/// before a character of another kind, or at the end of the text.
proof fn lemma_trim_start(text: Seq<char>, a: int)
    requires
        0 <= a <= text.len(),
        forall|i: int| 0 <= i < a ==> is_whitespace(text[i]),
        a < text.len() ==> !is_whitespace(text[a]),
    ensures
        trim_start(text) == text.subrange(a, text.len() as int),
    decreases a,
{
    if a == 0 {
        assert(text.subrange(0, text.len() as int) =~= text);
    } else {
        let rest = text.drop_first();
        assert forall|i: int| 0 <= i < a - 1 implies is_whitespace(rest[i]) by {
            assert(rest[i] == text[i + 1]);
        }
        lemma_trim_start(rest, a - 1);
        assert(rest.subrange(a - 1, rest.len() as int) =~= text.subrange(a, text.len() as int));
    }
}

/// Trimming at the end drops a last stretch of white space that begins
/// after a character of another kind, or at the start of the text.
proof fn lemma_trim_end(text: Seq<char>, b: int)
    requires
        0 <= b <= text.len(),
        forall|i: int| b <= i < text.len() ==> is_whitespace(text[i]),
        b > 0 ==> !is_whitespace(text[b - 1]),
    ensures
        trim_end(text) == text.subrange(0, b),
    decreases text.len() - b,
{
    if b == text.len() {
        assert(text.subrange(0, b) =~= text);
    } else {
        let rest = text.drop_last();
        lemma_trim_end(rest, b);
        assert(rest.subrange(0, b) =~= text.subrange(0, b));
    }
}

/// Trimming a text leaves the range that is kept of its white-space
/// flags.
pub proof fn lemma_trim_is_kept_range(text: Seq<char>, range: (usize, usize))
    requires
        is_kept_range(blanks_of(text), range),
    ensures
        trim(text) == piece(text, range),
{
    let a = range.0 as int;
    let b = range.1 as int;
    let flags = blanks_of(text);
    assert forall|i: int| 0 <= i < a implies is_whitespace(text[i]) by {
        assert(flags[i]);
    }
    lemma_trim_start(text, a);
    let tail = text.subrange(a, text.len() as int);
    assert forall|i: int| b - a <= i < tail.len() implies is_whitespace(tail[i]) by {
        assert(flags[a + i]);
    }
    if b > a {
        assert(!flags[b - 1]);
    }
    lemma_trim_end(tail, b - a);
    assert(tail.subrange(0, b - a) =~= text.subrange(a, b));
}

/// Decides whether the part of `text` from `from` to `to` is all white
/// space.
pub fn is_blank_range(text: &str, from: usize, to: usize) -> (blank: bool)
    requires
        from <= to <= text@.len(),
    ensures
        blank == is_blank(text@.subrange(from as int, to as int)),
{
    let flags = whitespace_flags(text, from, to);
    let blank = all_set(&flags);
    proof {
        let part = text@.subrange(from as int, to as int);
        if blank {
            assert forall|i: int| 0 <= i < part.len() implies is_whitespace(#[trigger] part[i]) by {
                assert(flags@[i]);
            }
        } else {
            let i = choose|i: int| 0 <= i < flags@.len() && !flags@[i];
            assert(!is_whitespace(part[i]));
        }
    }
    blank
}

/// Finds the part of `text` between `from` and `to` that is left when the
/// white space at both ends is taken away.
pub fn trim_range(text: &str, from: usize, to: usize) -> (range: (usize, usize))
    requires
        from <= to <= text@.len(),
    ensures
        from <= range.0 <= range.1 <= to,
        piece(text@, range) == trim(text@.subrange(from as int, to as int)),
{
    let flags = whitespace_flags(text, from, to);
    let kept: (usize, usize) = kept_range(&flags);
    proof {
        let part = text@.subrange(from as int, to as int);
        lemma_trim_is_kept_range(part, kept);
        assert(part.subrange(kept.0 as int, kept.1 as int) =~= text@.subrange(
            from + kept.0,
            from + kept.1,
        ));
    }
    (from + kept.0, from + kept.1)
}

} // verus!
