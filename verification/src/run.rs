//! Sessions as runs of decks and events, and what holds of every run.

use vstd::prelude::*;
use vstd::multiset::Multiset;
use crate::card::{Card, Goal};
use crate::deck::{
    all_celebrate, counter_of, goal_after, lemma_step_keeps_pool, DeckView, SessionEvent,
};
use crate::perm::{lemma_filter_insert, lemma_filter_whole};

verus! {

/// Whether `decks` and `events` record a session: each event leads from one
/// deck to the next.
pub open spec fn is_run(decks: Seq<DeckView>, events: Seq<SessionEvent>) -> bool {
    &&& decks.len() == events.len() + 1
    &&& forall|i: int|
        0 <= i < events.len() ==> (#[trigger] decks[i]).steps_to(events[i], decks[i + 1])
}

/// How often `event` occurs among `events`.
pub open spec fn occurrences(events: Seq<SessionEvent>, event: SessionEvent) -> nat
    decreases events.len(),
{
    if events.len() == 0 {
        0
    } else {
        occurrences(events.drop_last(), event) + if events.last() == event {
            1nat
        } else {
            0nat
        }
    }
}

/// The number of passes among `events`.
pub open spec fn passes_in(events: Seq<SessionEvent>) -> nat {
    occurrences(events, SessionEvent::Pass)
}

/// Throughout a session the deck keeps its size and its pool: at every
/// step it holds the cards it started with, none twice and none missing.
pub proof fn lemma_run_keeps_pool(decks: Seq<DeckView>, events: Seq<SessionEvent>, at: int)
    requires
        is_run(decks, events),
        0 <= at < decks.len(),
    ensures
        decks[at].len() == decks[0].len(),
        decks[at].pool() == decks[0].pool(),
    decreases at,
{
    if at > 0 {
        lemma_run_keeps_pool(decks, events, at - 1);
        assert(decks[at - 1].steps_to(events[at - 1], decks[at - 1 + 1]));
        lemma_step_keeps_pool(decks[at - 1], events[at - 1], decks[at]);
    }
}

/// A session counts its events, each kind by itself: as long as a counter
/// does not run over, it has grown at the end by the number of events of
/// its kind.
pub proof fn lemma_run_counts(
    decks: Seq<DeckView>,
    events: Seq<SessionEvent>,
    event: SessionEvent,
)
    requires
        is_run(decks, events),
        counter_of(decks[0].stats, event) + occurrences(events, event) <= usize::MAX,
    ensures
        counter_of(decks.last().stats, event) == counter_of(decks[0].stats, event) + occurrences(
            events,
            event,
        ),
    decreases events.len(),
{
    if events.len() > 0 {
        let n = events.len() as int;
        let earlier = decks.drop_last();
        let before = events.drop_last();
        assert forall|i: int| 0 <= i < before.len() implies (#[trigger] earlier[i]).steps_to(
            before[i],
            earlier[i + 1],
        ) by {
            assert(decks[i].steps_to(events[i], decks[i + 1]));
        }
        lemma_run_counts(earlier, before, event);
        assert(earlier.last() == decks[n - 1]);
        assert(decks[n - 1].steps_to(events[n - 1], decks[n - 1 + 1]));
    }
}

/// A session that starts with no pass counted is complete at the end
/// exactly when as many passes occurred as the deck has cards, in whatever
/// order and among whatever other events.
pub proof fn lemma_passes_complete(decks: Seq<DeckView>, events: Seq<SessionEvent>)
    requires
        is_run(decks, events),
        decks[0].stats.passed == 0,
        passes_in(events) <= usize::MAX,
    ensures
        decks.last().all_passed() <==> passes_in(events) == decks[0].len(),
{
    lemma_run_counts(decks, events, SessionEvent::Pass);
    lemma_run_keeps_pool(decks, events, decks.len() - 1);
}

/// The test "has been passed" on cards.
pub open spec fn is_celebrate() -> spec_fn(Card) -> bool {
    |c: Card| c.goal == Goal::Celebrate
}

/// The number of cards among `cards` that have been passed.
pub open spec fn celebrated(cards: Multiset<Card>) -> nat {
    cards.filter(is_celebrate()).len()
}

/// Whether no card of the deck has been passed yet.
pub open spec fn is_fresh(deck: DeckView) -> bool {
    forall|c: Card| deck.cards().contains(c) ==> c.goal != Goal::Celebrate
}

/// A step changes the deck's cards in one place only: the card that was
/// on top is now at the stage that the event gives it.
pub proof fn lemma_step_cards(deck: DeckView, event: SessionEvent, next: DeckView)
    requires
        deck.steps_to(event, next),
    ensures
        next.cards() == deck.pending.to_multiset().insert(deck.top.with_goal(goal_after(event))),
        next.cards().len() == next.len(),
        deck.cards().len() == deck.len(),
{
    broadcast use vstd::multiset::group_multiset_axioms;

    deck.pending.to_multiset_ensures();
    next.pending.to_multiset_ensures();
    let top = deck.top.with_goal(goal_after(event));
    let pending = deck.pending.to_multiset();
    if !all_celebrate(pending) {
        assert(pending.count(next.top) > 0);
        assert(pending.remove(next.top).insert(top).insert(next.top) =~= pending.insert(top));
    }
    lemma_step_keeps_pool(deck, event, next);
}

/// After a step the top card is one that is not yet passed, unless every
/// card of the deck has been passed. So no event ever meets a passed card
/// while another card still waits.
pub proof fn lemma_step_top_unfinished(deck: DeckView, event: SessionEvent, next: DeckView)
    requires
        deck.steps_to(event, next),
    ensures
        next.top.goal == Goal::Celebrate ==> all_celebrate(next.cards()),
{
    broadcast use vstd::multiset::group_multiset_axioms;

    if next.top.goal == Goal::Celebrate {
        let pending = next.pending.to_multiset();
        assert(all_celebrate(pending));
        assert forall|c: Card| next.cards().contains(c) implies c.goal == Goal::Celebrate by {
            if c != next.top {
                assert(pending.count(c) > 0);
                assert(pending.contains(c));
            }
        }
    }
}

/// In a session of passes only that starts with no card passed, the first
/// `at` passes each meet a card that is not yet passed, and after them
/// exactly `at` cards are passed.
pub proof fn lemma_pass_run(decks: Seq<DeckView>, events: Seq<SessionEvent>, at: int)
    requires
        is_run(decks, events),
        forall|i: int| 0 <= i < events.len() ==> events[i] == SessionEvent::Pass,
        is_fresh(decks[0]),
        0 <= at <= events.len(),
        at <= decks[0].len(),
    ensures
        celebrated(decks[at].cards()) == at,
        decks[at].cards().len() == decks[0].len(),
        at < decks[0].len() ==> decks[at].top.goal != Goal::Celebrate,
    decreases at,
{
    broadcast use vstd::multiset::group_multiset_axioms;

    let start = decks[0];
    if at == 0 {
        start.pending.to_multiset_ensures();
        assert(start.cards().contains(start.top));
        assert forall|c: Card| start.cards().filter(is_celebrate()).count(c) == 0 by {
            if start.cards().count(c) > 0 {
                assert(start.cards().contains(c));
            }
        }
        assert(start.cards().filter(is_celebrate()) =~= Multiset::<Card>::empty());
    } else {
        let deck = decks[at - 1];
        let next = decks[at];
        lemma_pass_run(decks, events, at - 1);
        assert(deck.steps_to(events[at - 1], decks[at - 1 + 1]));
        lemma_step_cards(deck, SessionEvent::Pass, next);
        let pending = deck.pending.to_multiset();
        let passed = deck.top.with_goal(Goal::Celebrate);
        lemma_filter_insert(pending, is_celebrate(), deck.top);
        lemma_filter_insert(pending, is_celebrate(), passed);
        if next.top.goal == Goal::Celebrate {
            lemma_step_top_unfinished(deck, SessionEvent::Pass, next);
            lemma_filter_whole(next.cards(), is_celebrate());
        }
    }
}

/// Passing every card once completes the session. From a deck with no
/// card passed and no pass counted, as many passes as the deck has cards
/// each meet a card that was not passed before, whatever the shuffles
/// bring up; at the end every card is passed and the session is complete.
pub proof fn lemma_passing_each_card_once(decks: Seq<DeckView>, events: Seq<SessionEvent>)
    requires
        is_run(decks, events),
        forall|i: int| 0 <= i < events.len() ==> events[i] == SessionEvent::Pass,
        is_fresh(decks[0]),
        decks[0].wf(),
        decks[0].stats.passed == 0,
        events.len() == decks[0].len(),
    ensures
        forall|i: int| 0 <= i < events.len() ==> (#[trigger] decks[i]).top.goal != Goal::Celebrate,
        all_celebrate(decks.last().cards()),
        decks.last().all_passed(),
{
    assert forall|i: int| 0 <= i < events.len() implies (#[trigger] decks[i]).top.goal
        != Goal::Celebrate by {
        lemma_pass_run(decks, events, i);
    }
    lemma_pass_run(decks, events, events.len() as int);
    lemma_filter_whole(decks.last().cards(), is_celebrate());
    lemma_passes_all(events);
    lemma_passes_complete(decks, events);
}

/// Where every event is a pass, the passes are as many as the events.
proof fn lemma_passes_all(events: Seq<SessionEvent>)
    requires
        forall|i: int| 0 <= i < events.len() ==> events[i] == SessionEvent::Pass,
    ensures
        passes_in(events) == events.len(),
    decreases events.len(),
{
    if events.len() > 0 {
        lemma_passes_all(events.drop_last());
    }
}

} // verus!
