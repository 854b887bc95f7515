//! Choosing the phrases of a session: the due ones first, filled up with
//! resting ones where too few are due.

use vstd::prelude::*;
use rand::rngs::StdRng;
use crate::card::{Card, CardBack, CardFront, Goal};
use crate::error::DrillError;
use crate::lesson_status::LessonStatus;
use crate::perm::{
    lemma_filter_len_permutation,
    lemma_filter_len_uniform,
    lemma_permutation_contains,
    lemma_permutation_no_duplicates,
};
use crate::readiness::{day_boundary_of, due_at, is_due, Timestamp};
use crate::rng::{seeded, shuffle};

verus! {

/// A stored phrase with the times that decide its readiness.
#[derive(Debug, Clone, PartialEq, Eq)]
pub struct PersistedItem {
    pub id: i64,
    pub prompt: String,
    pub reading: String,
    pub translation: String,
    /// When the phrase was last passed, if ever.
    pub last_passed_at: Option<Timestamp>,
    /// When the phrase's content was last changed, if ever.
    pub content_changed_at: Option<Timestamp>,
}

impl PersistedItem {
    /// Whether the phrase is due at `now`.
    pub open spec fn due(self, now: Timestamp) -> bool {
        due_at(self.last_passed_at, self.content_changed_at, now)
    }

    /// The card that a session shows for the phrase.
    pub open spec fn card(self) -> Card {
        Card {
            id: Some(self.id),
            goal: Goal::Learn,
            front: CardFront { kanji: self.prompt },
            back: CardBack { yomi: self.reading, meaning: self.translation },
        }
    }

    /// Decides whether the phrase is due at `now`.
    pub fn is_due(&self, now: Timestamp) -> (due: bool)
        ensures
            due == self.due(now),
    {
        is_due(self.last_passed_at, self.content_changed_at, now)
    }

    /// The phrase after a pass at `now`: only the time of its last pass
    /// changes.
    pub open spec fn passed(self, now: Timestamp) -> PersistedItem {
        PersistedItem { last_passed_at: Some(now), ..self }
    }

    /// Makes the phrase as it is after a pass at `now`.
    pub fn passed_at(&self, now: Timestamp) -> (after: PersistedItem)
        ensures
            after == self.passed(now),
    {
        PersistedItem {
            id: self.id,
            prompt: self.prompt.clone(),
            reading: self.reading.clone(),
            translation: self.translation.clone(),
            last_passed_at: Some(now),
            content_changed_at: self.content_changed_at,
        }
    }

    /// Makes the card that a session shows for the phrase.
    pub fn to_card(&self) -> (card: Card)
        ensures
            card == self.card(),
    {
        Card {
            id: Some(self.id),
            goal: Goal::Learn,
            front: CardFront { kanji: self.prompt.clone() },
            back: CardBack { yomi: self.reading.clone(), meaning: self.translation.clone() },
        }
    }
}

/// The test "is due at `now`" on phrases.
pub open spec fn due_pred(now: Timestamp) -> spec_fn(PersistedItem) -> bool {
    |item: PersistedItem| item.due(now)
}

/// The number of phrases of `items` that are due at `now`.
pub open spec fn due_count(items: Seq<PersistedItem>, now: Timestamp) -> nat {
    items.filter(due_pred(now)).len()
}

/// The test "is the position of a phrase that is due at `now`".
pub open spec fn due_position(items: Seq<PersistedItem>, now: Timestamp) -> spec_fn(usize) -> bool {
    |i: usize| i < items.len() && items[i as int].due(now)
}

/// `list` holds positions of `items`, none twice, and each is the position
/// of a due phrase (`due`) or of a resting one (`!due`).
pub open spec fn positions_of(
    items: Seq<PersistedItem>,
    now: Timestamp,
    due: bool,
    list: Seq<usize>,
) -> bool {
    &&& list.no_duplicates()
    &&& forall|k: int|
        0 <= k < list.len() ==> (#[trigger] list[k]) < items.len() && items[list[k] as int].due(
            now,
        ) == due
}

/// `list` holds the position of every due phrase (`due`) or of every
/// resting one (`!due`).
pub open spec fn covers(items: Seq<PersistedItem>, now: Timestamp, due: bool, list: Seq<usize>) -> bool {
    forall|i: usize| i < items.len() && items[i as int].due(now) == due ==> list.contains(i)
}

/// The smaller of two numbers.
pub open spec fn least(a: int, b: int) -> int {
    if a <= b {
        a
    } else {
        b
    }
}

/// What a session of at most `target` phrases holds, as positions in
/// `items`: no position twice; as many due phrases as there are, up to
/// `target`; and resting phrases for the places that the due ones leave
/// free, as far as there are any. So every due phrase is in the session
/// unless more than `target` are due, and every phrase is in it when all of
/// them fit.
pub open spec fn is_selection(
    items: Seq<PersistedItem>,
    now: Timestamp,
    target: nat,
    picks: Seq<usize>,
) -> bool {
    let due = due_count(items, now) as int;
    let resting = items.len() - due;
    let due_taken = least(due, target as int);
    let resting_taken = least(resting, target - due_taken);
    &&& picks.no_duplicates()
    &&& forall|k: int| 0 <= k < picks.len() ==> (#[trigger] picks[k]) < items.len()
    &&& picks.len() == due_taken + resting_taken
    &&& picks.filter(due_position(items, now)).len() == due_taken
    &&& due <= target ==> covers(items, now, true, picks)
    &&& items.len() <= target ==> covers(items, now, false, picks)
}

/// The cards for the phrases at the positions `picks`, in that order.
pub open spec fn cards_of(items: Seq<PersistedItem>, picks: Seq<usize>) -> Seq<Card> {
    Seq::new(picks.len(), |k: int| items[picks[k] as int].card())
}

/// Sorts the positions of `items` into those of the due phrases and those
/// of the resting ones.
fn partition(items: &Vec<PersistedItem>, now: Timestamp) -> (parts: (Vec<usize>, Vec<usize>))
    ensures
        positions_of(items@, now, true, parts.0@),
        positions_of(items@, now, false, parts.1@),
        covers(items@, now, true, parts.0@),
        covers(items@, now, false, parts.1@),
        parts.0@.len() == due_count(items@, now),
        parts.1@.len() == items@.len() - due_count(items@, now),
{
    let mut due: Vec<usize> = Vec::new();
    let mut resting: Vec<usize> = Vec::new();
    let mut i: usize = 0;
    proof {
        items@.take(0).lemma_filter_len(due_pred(now));
    }
    while i < items.len()
        invariant
            i <= items@.len(),
            positions_of(items@, now, true, due@),
            positions_of(items@, now, false, resting@),
            forall|k: int| 0 <= k < due@.len() ==> (#[trigger] due@[k]) < i,
            forall|k: int| 0 <= k < resting@.len() ==> (#[trigger] resting@[k]) < i,
            forall|j: usize| j < i && items@[j as int].due(now) ==> due@.contains(j),
            forall|j: usize| j < i && !items@[j as int].due(now) ==> resting@.contains(j),
            due@.len() == due_count(items@.take(i as int), now),
            due@.len() + resting@.len() == i,
        decreases items@.len() - i,
    {
        proof {
            assert(items@.take(i + 1) =~= items@.take(i as int).push(items@[i as int]));
            items@.take(i as int).lemma_filter_len_push(due_pred(now), items@[i as int]);
        }
        let ghost due_before = due@;
        let ghost resting_before = resting@;
        if items[i].is_due(now) {
            due.push(i);
            proof {
                assert forall|j: usize| j < i + 1 && items@[j as int].due(now) implies due@.contains(
                    j,
                ) by {
                    if j < i {
                        assert(due_before.contains(j));
                        let k = choose|k: int| 0 <= k < due_before.len() && due_before[k] == j;
                        assert(due@[k] == j);
                    } else {
                        assert(due@[due_before.len() as int] == j);
                    }
                }
            }
        } else {
            resting.push(i);
            proof {
                assert forall|j: usize|
                    j < i + 1 && !items@[j as int].due(now) implies resting@.contains(j) by {
                    if j < i {
                        assert(resting_before.contains(j));
                        let k = choose|k: int|
                            0 <= k < resting_before.len() && resting_before[k] == j;
                        assert(resting@[k] == j);
                    } else {
                        assert(resting@[resting_before.len() as int] == j);
                    }
                }
            }
        }
        i = i + 1;
    }
    proof {
        assert(items@.take(i as int) =~= items@);
    }
    (due, resting)
}

/// A rearrangement of a list of positions is a list of the same kind.
proof fn lemma_positions_permutation(
    items: Seq<PersistedItem>,
    now: Timestamp,
    due: bool,
    a: Seq<usize>,
    b: Seq<usize>,
)
    requires
        a.to_multiset() == b.to_multiset(),
        positions_of(items, now, due, a),
    ensures
        positions_of(items, now, due, b),
        covers(items, now, due, a) ==> covers(items, now, due, b),
        b.len() == a.len(),
{
    lemma_permutation_no_duplicates(a, b);
    lemma_permutation_contains(a, b);
    assert forall|k: int| 0 <= k < b.len() implies (#[trigger] b[k]) < items.len()
        && items[b[k] as int].due(now) == due by {
        assert(b.contains(b[k]));
        assert(a.contains(b[k]));
        let j = choose|j: int| 0 <= j < a.len() && a[j] == b[k];
        assert(a[j] < items.len());
    }
}

/// The session that due and resting positions in given orders make: the
/// first `target` due ones, then resting ones for the places left.
pub open spec fn session_of(due: Seq<usize>, resting: Seq<usize>, target: nat) -> Seq<usize> {
    let due_taken = least(due.len() as int, target as int);
    let resting_taken = least(resting.len() as int, target - due_taken);
    due.take(due_taken) + resting.take(resting_taken)
}

/// Puts a session together from the due and the resting positions in the
/// orders given.
pub fn fill_session(due: Vec<usize>, resting: Vec<usize>, target: usize) -> (picks: Vec<usize>)
    ensures
        picks@ == session_of(due@, resting@, target as nat),
{
    let mut picks = due;
    let mut rest = resting;
    picks.truncate(target);
    let free: usize = target - picks.len();
    rest.truncate(free);
    picks.append(&mut rest);
    proof {
        assert(picks@ =~= session_of(due@, resting@, target as nat));
    }
    picks
}

/// A session put together from all the due positions and all the resting
/// ones, in whatever orders they come, is a selection.
pub proof fn lemma_session_is_selection(
    items: Seq<PersistedItem>,
    now: Timestamp,
    target: nat,
    due: Seq<usize>,
    resting: Seq<usize>,
)
    requires
        positions_of(items, now, true, due),
        positions_of(items, now, false, resting),
        covers(items, now, true, due),
        covers(items, now, false, resting),
        due.len() == due_count(items, now),
        due.len() + resting.len() == items.len(),
    ensures
        is_selection(items, now, target, session_of(due, resting, target)),
{
    let is_due = due_position(items, now);
    let due_taken = least(due.len() as int, target as int);
    let resting_taken = least(resting.len() as int, target - due_taken);
    let due_part = due.take(due_taken);
    let resting_part = resting.take(resting_taken);
    let picks = due_part + resting_part;
    lemma_filter_len_uniform(due_part, is_due, true);
    lemma_filter_len_uniform(resting_part, is_due, false);
    Seq::filter_distributes_over_add(due_part, resting_part, is_due);
    assert forall|a: int, b: int| 0 <= a < picks.len() && 0 <= b < picks.len() && a != b implies picks[a]
        != picks[b] by {
        let first = if a < due_part.len() {
            due[a]
        } else {
            resting[a - due_part.len()]
        };
        let second = if b < due_part.len() {
            due[b]
        } else {
            resting[b - due_part.len()]
        };
        assert(picks[a] == first && picks[b] == second);
    }
    assert forall|k: int| 0 <= k < picks.len() implies (#[trigger] picks[k]) < items.len() by {
        if k < due_part.len() {
            assert(picks[k] == due[k]);
        } else {
            assert(picks[k] == resting[k - due_part.len()]);
        }
    }
    if due.len() <= target {
        assert(due_part =~= due);
        assert forall|i: usize| i < items.len() && items[i as int].due(now) implies picks.contains(
            i,
        ) by {
            assert(due.contains(i));
            let j = choose|j: int| 0 <= j < due.len() && due[j] == i;
            assert(picks[j] == i);
        }
    }
    if items.len() <= target {
        assert(resting_part =~= resting);
        assert forall|i: usize| i < items.len() && !items[i as int].due(now) implies picks.contains(
            i,
        ) by {
            assert(resting.contains(i));
            let j = choose|j: int| 0 <= j < resting.len() && resting[j] == i;
            assert(picks[due_part.len() + j] == i);
        }
    }
}

/// A selection in another order is a selection.
pub proof fn lemma_selection_permutation(
    items: Seq<PersistedItem>,
    now: Timestamp,
    target: nat,
    picks: Seq<usize>,
    mixed: Seq<usize>,
)
    requires
        is_selection(items, now, target, picks),
        picks.to_multiset() == mixed.to_multiset(),
    ensures
        is_selection(items, now, target, mixed),
{
    lemma_permutation_no_duplicates(picks, mixed);
    lemma_permutation_contains(picks, mixed);
    lemma_filter_len_permutation(picks, mixed, due_position(items, now));
    assert forall|k: int| 0 <= k < mixed.len() implies (#[trigger] mixed[k]) < items.len() by {
        assert(mixed.contains(mixed[k]));
        assert(picks.contains(mixed[k]));
        let j = choose|j: int| 0 <= j < picks.len() && picks[j] == mixed[k];
        assert(picks[j] < items.len());
    }
}

/// Picks the positions of a session's phrases: the due ones in a random
/// order, cut to `target`; where they leave places free, resting ones in a
/// random order for as many places, and all of them shuffled together.
pub fn select_positions(
    items: &Vec<PersistedItem>,
    now: Timestamp,
    target: usize,
    rng: &mut StdRng,
) -> (picks: Vec<usize>)
    ensures
        is_selection(items@, now, target as nat, picks@),
{
    let (due, resting) = partition(items, now);
    let mut due = due;
    let mut resting = resting;
    let ghost due_sorted = due@;
    let ghost resting_sorted = resting@;
    shuffle(&mut due, rng);
    let filling: bool = due.len() < target;
    if filling {
        shuffle(&mut resting, rng);
    }
    proof {
        lemma_positions_permutation(items@, now, true, due_sorted, due@);
        lemma_positions_permutation(items@, now, false, resting_sorted, resting@);
        lemma_session_is_selection(items@, now, target as nat, due@, resting@);
    }
    let mut picks = fill_session(due, resting, target);
    if filling {
        let ghost joined = picks@;
        shuffle(&mut picks, rng);
        proof {
            lemma_selection_permutation(items@, now, target as nat, joined, picks@);
        }
    }
    picks
}

/// Makes the cards for the phrases at the positions `picks`.
fn cards_at(items: &Vec<PersistedItem>, picks: &Vec<usize>) -> (cards: Vec<Card>)
    requires
        forall|k: int| 0 <= k < picks@.len() ==> (#[trigger] picks@[k]) < items@.len(),
    ensures
        cards@ == cards_of(items@, picks@),
{
    let mut cards: Vec<Card> = Vec::new();
    let mut k: usize = 0;
    while k < picks.len()
        invariant
            k <= picks@.len(),
            forall|j: int| 0 <= j < picks@.len() ==> (#[trigger] picks@[j]) < items@.len(),
            cards@ == cards_of(items@, picks@.take(k as int)),
        decreases picks@.len() - k,
    {
        let position: usize = picks[k];
        cards.push(items[position].to_card());
        proof {
            assert(cards@ =~= cards_of(items@, picks@.take(k + 1)));
        }
        k = k + 1;
    }
    proof {
        assert(picks@.take(k as int) =~= picks@);
    }
    cards
}

/// Builds the card pool of a session of at most `target_size` cards from
/// the stored phrases: every card is made from a phrase of its own, the due
/// phrases come first, and resting ones fill the places that are left. The
/// order of the cards is random, drawn from a generator seeded with `seed`.
/// Without phrases there is no session.
pub fn select_session(
    items: Vec<PersistedItem>,
    now: Timestamp,
    target_size: usize,
    seed: u64,
) -> (session: Result<Vec<Card>, DrillError>)
    ensures
        items@.len() == 0 <==> session is Err,
        session is Err ==> session == Err::<Vec<Card>, DrillError>(DrillError::EmptyPool),
        session is Ok ==> exists|picks: Seq<usize>|
            is_selection(items@, now, target_size as nat, picks) && session->Ok_0@ == cards_of(
                items@,
                picks,
            ),
{
    if items.len() == 0 {
        return Err(DrillError::EmptyPool);
    }
    let mut rng = seeded(seed);
    let picks = select_positions(&items, now, target_size, &mut rng);
    let cards = cards_at(&items, &picks);
    Ok(cards)
}

/// Counts the due and the resting phrases of a lesson at `now`, by the rule
/// that also picks a session's phrases.
pub fn compute_status(lesson_id: i64, items: &Vec<PersistedItem>, now: Timestamp) -> (status:
    LessonStatus)
    ensures
        status.lesson_id == lesson_id,
        status.ready == due_count(items@, now),
        status.learned == items@.len() - due_count(items@, now),
{
    let mut ready: usize = 0;
    let mut learned: usize = 0;
    let mut i: usize = 0;
    proof {
        items@.take(0).lemma_filter_len(due_pred(now));
    }
    while i < items.len()
        invariant
            i <= items@.len(),
            ready == due_count(items@.take(i as int), now),
            ready + learned == i,
        decreases items@.len() - i,
    {
        proof {
            assert(items@.take(i + 1) =~= items@.take(i as int).push(items@[i as int]));
            items@.take(i as int).lemma_filter_len_push(due_pred(now), items@[i as int]);
        }
        if items[i].is_due(now) {
            ready = ready + 1;
        } else {
            learned = learned + 1;
        }
        i = i + 1;
    }
    proof {
        assert(items@.take(i as int) =~= items@);
    }
    LessonStatus { lesson_id, ready, learned }
}

/// The phrases after passes at `now` were recorded for those whose
/// identifier is among `ids`: these have `now` as the time of their last
/// pass, the others are unchanged.
pub open spec fn recorded(items: Seq<PersistedItem>, ids: Seq<i64>, now: Timestamp) -> Seq<
    PersistedItem,
> {
    Seq::new(
        items.len(),
        |i: int|
            if ids.contains(items[i].id) {
                items[i].passed(now)
            } else {
                items[i]
            },
    )
}

/// Decides whether `id` is among `ids`.
fn is_listed(ids: &Vec<i64>, id: i64) -> (listed: bool)
    ensures
        listed == ids@.contains(id),
{
    let mut k: usize = 0;
    while k < ids.len()
        invariant
            k <= ids@.len(),
            forall|j: int| 0 <= j < k ==> ids@[j] != id,
        decreases ids@.len() - k,
    {
        if ids[k] == id {
            return true;
        }
        k = k + 1;
    }
    false
}

/// Records passes at `now` for the phrases whose identifier is among
/// `ids`.
pub fn record_passes(items: &mut Vec<PersistedItem>, ids: &Vec<i64>, now: Timestamp)
    ensures
        final(items)@ == recorded(old(items)@, ids@, now),
{
    let ghost before = items@;
    let mut i: usize = 0;
    while i < items.len()
        invariant
            i <= items@.len(),
            items@.len() == before.len(),
            forall|j: int| 0 <= j < i ==> items@[j] == recorded(before, ids@, now)[j],
            forall|j: int| i <= j < items@.len() ==> items@[j] == before[j],
        decreases items@.len() - i,
    {
        if is_listed(ids, items[i].id) {
            let after = items[i].passed_at(now);
            items.set(i, after);
        }
        i = i + 1;
    }
    proof {
        assert(items@ =~= recorded(before, ids@, now));
    }
}

/// A pass that is recorded at or after the day's cutover puts the phrase
/// to rest for the remainder of the day, unless its content changes later.
pub proof fn lemma_recorded_pass_rests(item: PersistedItem, passed_at: Timestamp, now: Timestamp)
    requires
        day_boundary_of(now as int) <= passed_at,
        item.content_changed_at matches Some(changed) ==> changed <= passed_at,
    ensures
        !item.passed(passed_at).due(now),
{
}

} // verus!
