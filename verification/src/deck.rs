//! The practice deck: one card on top, the others pending, and the rotation
//! that brings the next card that still needs work to the top.

use vstd::prelude::*;
use vstd::multiset::Multiset;
use rand::rngs::StdRng;
use crate::card::{turns_of, Card, Goal};
use crate::error::DrillError;
use crate::perm::lemma_map_permutation;
use crate::rng::{seeded, shuffle};

verus! {

/// Counters of the events of one session.
#[derive(Debug, Clone, Copy, PartialEq, Eq, Structural)]
pub struct Stats {
    pub learned: usize,
    pub failed: usize,
    pub repeated: usize,
    pub passed: usize,
}

/// What the learner can do with the card on top.
#[derive(Debug, Clone, Copy, PartialEq, Eq, Structural)]
pub enum SessionEvent {
    /// The answer was wrong.
    Fail,
    /// The learner wants to see the card again.
    Repeat,
    /// The card was studied, not answered.
    Learn,
    /// The answer was right.
    Pass,
}

/// A session's deck.
#[derive(Debug, PartialEq, Eq)]
pub struct Deck {
    pub rng: StdRng,
    pub top: Card,
    cards: Vec<Card>,
    pub stats: Stats,
}

/// The stage an event leaves the top card at.
pub open spec fn goal_after(event: SessionEvent) -> Goal {
    match event {
        SessionEvent::Fail => Goal::Learn,
        SessionEvent::Repeat => Goal::Review,
        SessionEvent::Learn => Goal::Learn,
        SessionEvent::Pass => Goal::Celebrate,
    }
}

/// The counter an event advances, read from `stats`.
pub open spec fn counter_of(stats: Stats, event: SessionEvent) -> usize {
    match event {
        SessionEvent::Fail => stats.failed,
        SessionEvent::Repeat => stats.repeated,
        SessionEvent::Learn => stats.learned,
        SessionEvent::Pass => stats.passed,
    }
}

/// The counters after an event: the event's own counter is one higher, the
/// others are unchanged.
pub open spec fn stats_after(stats: Stats, event: SessionEvent) -> Stats {
    match event {
        SessionEvent::Fail => Stats { failed: (stats.failed + 1) as usize, ..stats },
        SessionEvent::Repeat => Stats { repeated: (stats.repeated + 1) as usize, ..stats },
        SessionEvent::Learn => Stats { learned: (stats.learned + 1) as usize, ..stats },
        SessionEvent::Pass => Stats { passed: (stats.passed + 1) as usize, ..stats },
    }
}

/// Whether every card of `cards`, a multiset, has been passed.
pub open spec fn all_celebrate(cards: Multiset<Card>) -> bool {
    forall|c: Card| cards.contains(c) ==> c.goal == Goal::Celebrate
}

/// The outcomes of a rotation. With every pending card passed, the top card
/// stays and the pending cards are only rearranged. Otherwise some pending
/// card that is not yet passed becomes the top, and the former top takes its
/// place among the pending cards.
pub open spec fn rotates_to(
    top: Card,
    pending: Multiset<Card>,
    next_top: Card,
    next_pending: Multiset<Card>,
) -> bool {
    if all_celebrate(pending) {
        next_top == top && next_pending == pending
    } else {
        &&& pending.contains(next_top)
        &&& next_top.goal != Goal::Celebrate
        &&& next_pending == pending.remove(next_top).insert(top)
    }
}

/// The total of the turns that the cards of `cards` still ask for.
pub open spec fn turns_in(cards: Seq<Card>) -> nat
    decreases cards.len(),
{
    if cards.len() == 0 {
        0
    } else {
        turns_in(cards.drop_last()) + turns_of(cards.last().goal)
    }
}

/// The content of each card of `cards`, in the same order.
pub open spec fn contents_of(cards: Seq<Card>) -> Seq<Card> {
    cards.map_values(|c: Card| c.content())
}

/// What a deck is, apart from its generator: the card on top, the pending
/// cards in the order they are held, and the counters.
pub struct DeckView {
    pub top: Card,
    pub pending: Seq<Card>,
    pub stats: Stats,
}

impl DeckView {
    /// The number of cards in the deck, the top card included.
    pub open spec fn len(self) -> nat {
        self.pending.len() + 1
    }

    /// The deck's cards can be counted in a machine word.
    pub open spec fn wf(self) -> bool {
        self.len() <= usize::MAX
    }

    /// Every card of the deck, each as often as the deck holds it.
    pub open spec fn cards(self) -> Multiset<Card> {
        self.pending.to_multiset().insert(self.top)
    }

    /// The session pool: the content of every card of the deck, each as
    /// often as the deck holds it, whatever stage the cards are at.
    pub open spec fn pool(self) -> Multiset<Card> {
        contents_of(self.pending.push(self.top)).to_multiset()
    }

    /// Whether as many passes were counted as the deck has cards.
    pub open spec fn all_passed(self) -> bool {
        self.stats.passed == self.len()
    }

    /// Whether `next` is an outcome of applying `event` to this deck.
    pub open spec fn steps_to(self, event: SessionEvent, next: DeckView) -> bool {
        &&& next.stats == stats_after(self.stats, event)
        &&& rotates_to(
            self.top.with_goal(goal_after(event)),
            self.pending.to_multiset(),
            next.top,
            next.pending.to_multiset(),
        )
    }
}

impl View for Deck {
    type V = DeckView;

    closed spec fn view(&self) -> DeckView {
        DeckView { top: self.top, pending: self.cards@, stats: self.stats }
    }
}

impl Clone for Deck {
    fn clone(&self) -> (copy: Deck)
        ensures
            copy@ == self@,
    {
        proof {
            use_type_invariant(self);
        }
        let cards = self.cards.clone();
        proof {
            assert forall|i: int| 0 <= i < cards@.len() implies cards@[i] == self.cards@[i] by {
                assert(cloned::<Card>(self.cards@[i], cards@[i]));
            }
            assert(cards@ =~= self.cards@);
        }
        Deck { rng: self.rng.clone(), top: self.top.clone(), cards, stats: self.stats }
    }
}

impl Deck {
    /// A deck never holds more cards than a machine word can count.
    #[verifier::type_invariant]
    spec fn counted(self) -> bool {
        self.cards@.len() < usize::MAX
    }

    /// Builds a deck from a pool of cards. The last card of the pool goes on
    /// top, the others are pending in their order, and all counters are
    /// zero. An empty pool is refused.
    pub fn from_cards(cards: Vec<Card>, seed: u64) -> (made: Result<Deck, DrillError>)
        ensures
            cards@.len() == 0 <==> made is Err,
            made is Err ==> made == Err::<Deck, DrillError>(DrillError::EmptyPool),
            made is Ok ==> {
                let deck = made->Ok_0;
                &&& deck@.top == cards@.last()
                &&& deck@.pending == cards@.drop_last()
                &&& deck@.stats == (Stats { learned: 0, failed: 0, repeated: 0, passed: 0 })
                &&& deck@.wf()
                &&& deck@.len() == cards@.len()
                &&& deck@.pool() == contents_of(cards@).to_multiset()
            },
    {
        let mut cards = cards;
        let ghost pool = cards@;
        let size: usize = cards.len();
        assert(pool.len() == size);
        match cards.pop() {
            None => Err(DrillError::EmptyPool),
            Some(top) => {
                assert(cards@.push(top) =~= pool);
                assert(cards@ =~= pool.drop_last());
                Ok(
                    Deck {
                        rng: seeded(seed),
                        top,
                        cards,
                        stats: Stats { learned: 0, failed: 0, repeated: 0, passed: 0 },
                    },
                )
            },
        }
    }

    /// The counters of the session so far.
    pub fn counters(&self) -> (stats: Stats)
        ensures
            stats == self@.stats,
    {
        self.stats
    }

    /// A copy of the card on top.
    pub fn top_card(&self) -> (card: Card)
        ensures
            card == self@.top,
    {
        self.top.clone()
    }

    /// Hands back every card of the deck: the pending cards in their order,
    /// then the top card.
    pub fn into_cards(self) -> (cards: Vec<Card>)
        ensures
            cards@ == self@.pending.push(self@.top),
            contents_of(cards@).to_multiset() == self@.pool(),
    {
        let mut cards = self.cards;
        cards.push(self.top);
        cards
    }

    /// Whether the session is complete: as many passes as cards.
    pub fn is_all_passed(&self) -> (done: bool)
        ensures
            done == self@.all_passed(),
    {
        self.stats.passed > 0 && self.stats.passed - 1 == self.cards.len()
    }

    /// The turns that the deck's cards still ask for, all together.
    pub fn turns_remaining(&self) -> (turns: usize)
        ensures
            turns == turns_in(self@.pending) + turns_of(self@.top.goal),
    {
        proof {
            use_type_invariant(self);
        }
        let mut card_turns: usize = 0;
        let mut i: usize = 0;
        while i < self.cards.len()
            invariant
                i <= self.cards@.len(),
                card_turns == turns_in(self.cards@.take(i as int)),
                card_turns <= i,
            decreases self.cards@.len() - i,
        {
            assert(self.cards@.take(i + 1).drop_last() =~= self.cards@.take(i as int));
            card_turns = card_turns + self.cards[i].turns_remaining();
            i = i + 1;
        }
        assert(self.cards@.take(i as int) =~= self.cards@);
        self.top.turns_remaining() + card_turns
    }

    /// Applies `event` to the top card and rotates.
    pub fn apply_event(self, event: SessionEvent) -> (next: Deck)
        requires
            counter_of(self@.stats, event) < usize::MAX,
        ensures
            self@.steps_to(event, next@),
            next@.wf(),
            next@.len() == self@.len(),
            next@.pool() == self@.pool(),
    {
        let next = match event {
            SessionEvent::Fail => self.fail(),
            SessionEvent::Repeat => self.repeat(),
            SessionEvent::Learn => self.learn(),
            SessionEvent::Pass => self.pass(),
        };
        next
    }

    /// The card was studied: it is set to the first stage, the event is
    /// counted, and the deck rotates.
    pub fn learn(self) -> (next: Deck)
        requires
            self@.stats.learned < usize::MAX,
        ensures
            self@.steps_to(SessionEvent::Learn, next@),
            next@.wf(),
            next@.len() == self@.len(),
            next@.pool() == self@.pool(),
    {
        proof {
            use_type_invariant(&self);
        }
        let mut deck = self;
        deck.stats.learned = deck.stats.learned + 1;
        deck.top.goal = Goal::Learn;
        let next = deck.cycle_top();
        proof {
            lemma_step_keeps_pool(self@, SessionEvent::Learn, next@);
        }
        next
    }

    /// The answer was wrong: the card is set back to the first stage, the
    /// event is counted, and the deck rotates.
    pub fn fail(self) -> (next: Deck)
        requires
            self@.stats.failed < usize::MAX,
        ensures
            self@.steps_to(SessionEvent::Fail, next@),
            next@.wf(),
            next@.len() == self@.len(),
            next@.pool() == self@.pool(),
    {
        proof {
            use_type_invariant(&self);
        }
        let mut deck = self;
        deck.stats.failed = deck.stats.failed + 1;
        deck.top.goal = Goal::Learn;
        let next = deck.cycle_top();
        proof {
            lemma_step_keeps_pool(self@, SessionEvent::Fail, next@);
        }
        next
    }

    /// The learner asked to see the card again: it is set to the second
    /// stage, the event is counted, and the deck rotates.
    pub fn repeat(self) -> (next: Deck)
        requires
            self@.stats.repeated < usize::MAX,
        ensures
            self@.steps_to(SessionEvent::Repeat, next@),
            next@.wf(),
            next@.len() == self@.len(),
            next@.pool() == self@.pool(),
    {
        proof {
            use_type_invariant(&self);
        }
        let mut deck = self;
        deck.stats.repeated = deck.stats.repeated + 1;
        deck.top.goal = Goal::Review;
        let next = deck.cycle_top();
        proof {
            lemma_step_keeps_pool(self@, SessionEvent::Repeat, next@);
        }
        next
    }

    /// The answer was right: the card is set to the final stage, the event
    /// is counted, and the deck rotates.
    pub fn pass(self) -> (next: Deck)
        requires
            self@.stats.passed < usize::MAX,
        ensures
            self@.steps_to(SessionEvent::Pass, next@),
            next@.wf(),
            next@.len() == self@.len(),
            next@.pool() == self@.pool(),
    {
        proof {
            use_type_invariant(&self);
        }
        let mut deck = self;
        deck.stats.passed = deck.stats.passed + 1;
        deck.top.goal = Goal::Celebrate;
        let next = deck.cycle_top();
        proof {
            lemma_step_keeps_pool(self@, SessionEvent::Pass, next@);
        }
        next
    }

    /// Shuffles the pending cards, then rotates: the first of them that is
    /// not yet passed comes to the top and the former top joins the pending
    /// cards. With every pending card passed, the top card stays.
    fn cycle_top(self) -> (next: Deck)
        ensures
            next.stats == self.stats,
            rotates_to(self.top, self.cards@.to_multiset(), next.top, next.cards@.to_multiset()),
    {
        proof {
            use_type_invariant(&self);
        }
        let Deck { rng, top, cards, stats } = self;
        let mut rng = rng;
        let mut cards = cards;
        shuffle(&mut cards, &mut rng);
        let ghost shuffled = cards@;
        proof {
            self.cards@.to_multiset_ensures();
            shuffled.to_multiset_ensures();
        }
        let (top, cards) = rotate(top, cards);
        proof {
            lemma_rotation_outcome(self.top, shuffled, top, cards@);
        }
        Deck { rng, top, cards, stats }
    }
}

/// Whether `position` is that of the first card of `cards` that is not yet
/// passed.
pub open spec fn is_first_unfinished(cards: Seq<Card>, position: int) -> bool {
    &&& 0 <= position < cards.len()
    &&& cards[position].goal != Goal::Celebrate
    &&& forall|j: int| 0 <= j < position ==> cards[j].goal == Goal::Celebrate
}

/// Whether every card of `cards`, a sequence, has been passed.
pub open spec fn all_finished(cards: Seq<Card>) -> bool {
    forall|j: int| 0 <= j < cards.len() ==> cards[j].goal == Goal::Celebrate
}

/// What a rotation makes of a top card and pending cards in a given
/// order. The first pending card that is not yet passed becomes the top;
/// it leaves its place, and the former top goes to the end. With every
/// pending card passed, nothing changes.
pub open spec fn rotation_into(
    top: Card,
    pending: Seq<Card>,
    next_top: Card,
    next_pending: Seq<Card>,
) -> bool {
    &&& all_finished(pending) ==> next_top == top && next_pending == pending
    &&& forall|position: int| #[trigger]
        is_first_unfinished(pending, position) ==> next_top == pending[position] && next_pending
            == pending.remove(position).push(top)
}

/// Finds the first card of `cards` that is not yet passed.
pub fn first_unfinished(cards: &Vec<Card>) -> (found: Option<usize>)
    ensures
        match found {
            Some(position) => is_first_unfinished(cards@, position as int),
            None => all_finished(cards@),
        },
{
    let mut i: usize = 0;
    while i < cards.len()
        invariant
            i <= cards@.len(),
            forall|j: int| 0 <= j < i ==> cards@[j].goal == Goal::Celebrate,
        decreases cards@.len() - i,
    {
        if !cards[i].goal.is_celebrate() {
            return Some(i);
        }
        i = i + 1;
    }
    None
}

/// Rotates a deck whose pending cards are in the order given: brings the
/// first pending card that is not yet passed to the top.
pub fn rotate(top: Card, pending: Vec<Card>) -> (rotated: (Card, Vec<Card>))
    ensures
        rotation_into(top, pending@, rotated.0, rotated.1@),
        rotated.1@.len() == pending@.len(),
{
    let mut cards = pending;
    match first_unfinished(&cards) {
        Some(position) => {
            let next_top = cards.remove(position);
            cards.push(top);
            proof {
                assert forall|other: int| #[trigger]
                    is_first_unfinished(pending@, other) implies other == position by {
                    if other < position {
                        assert(pending@[other].goal == Goal::Celebrate);
                    } else if position < other {
                        assert(pending@[position as int].goal == Goal::Celebrate);
                    }
                }
            }
            (next_top, cards)
        },
        None => {
            proof {
                assert forall|other: int| #[trigger]
                    is_first_unfinished(pending@, other) implies false by {
                    assert(pending@[other].goal == Goal::Celebrate);
                }
            }
            (top, cards)
        },
    }
}

/// A rotation of the pending cards in any order is one of the outcomes
/// that `rotates_to` allows for the cards as a multiset.
pub proof fn lemma_rotation_outcome(
    top: Card,
    pending: Seq<Card>,
    next_top: Card,
    next_pending: Seq<Card>,
)
    requires
        rotation_into(top, pending, next_top, next_pending),
    ensures
        rotates_to(top, pending.to_multiset(), next_top, next_pending.to_multiset()),
{
    let cards = pending.to_multiset();
    pending.to_multiset_ensures();
    if all_finished(pending) {
        assert forall|c: Card| cards.contains(c) implies c.goal == Goal::Celebrate by {
            assert(pending.contains(c));
        }
    } else {
        let position = first_unfinished_of(pending, pending.len() as int);
        lemma_first_unfinished_of(pending, pending.len() as int);
        assert(is_first_unfinished(pending, position));
        pending.remove(position).to_multiset_ensures();
        assert(pending.contains(next_top));
        assert(cards.count(next_top) > 0);
        assert(cards.contains(next_top));
        assert(!all_celebrate(cards));
    }
}

/// The first position below `bound` of a card that is not yet passed, or
/// `bound` where there is none.
spec fn first_unfinished_of(cards: Seq<Card>, bound: int) -> int
    decreases bound,
{
    if bound <= 0 {
        0
    } else {
        let before = first_unfinished_of(cards, bound - 1);
        if before < bound - 1 || cards[bound - 1].goal != Goal::Celebrate {
            before
        } else {
            bound
        }
    }
}

/// `first_unfinished_of` finds the first card that is not yet passed.
proof fn lemma_first_unfinished_of(cards: Seq<Card>, bound: int)
    requires
        0 <= bound <= cards.len(),
    ensures
        0 <= first_unfinished_of(cards, bound) <= bound,
        forall|j: int|
            0 <= j < first_unfinished_of(cards, bound) ==> cards[j].goal == Goal::Celebrate,
        first_unfinished_of(cards, bound) < bound ==> cards[first_unfinished_of(
            cards,
            bound,
        )].goal != Goal::Celebrate,
    decreases bound,
{
    if bound > 0 {
        lemma_first_unfinished_of(cards, bound - 1);
    }
}

/// A step keeps the deck's size and its pool: no card is added, dropped or
/// held twice, whatever the event and however the pending cards were
/// rearranged.
pub proof fn lemma_step_keeps_pool(deck: DeckView, event: SessionEvent, next: DeckView)
    requires
        deck.steps_to(event, next),
    ensures
        next.len() == deck.len(),
        next.pool() == deck.pool(),
{
    let top = deck.top.with_goal(goal_after(event));
    let strip = |c: Card| c.content();
    let before = deck.pending;
    let after = next.pending;
    before.to_multiset_ensures();
    after.to_multiset_ensures();
    assert(top.content() == deck.top.content());
    assert(contents_of(before.push(deck.top)) =~= contents_of(before.push(top)));
    if all_celebrate(before.to_multiset()) {
        before.push(top).to_multiset_ensures();
        assert(before.push(top).to_multiset() =~= after.push(next.top).to_multiset());
        lemma_map_permutation(before.push(top), after.push(next.top), strip);
    } else {
        assert(before.contains(next.top));
        let i = choose|i: int| 0 <= i < before.len() && before[i] == next.top;
        let moved = before.remove(i).push(top);
        before.remove(i).to_multiset_ensures();
        moved.to_multiset_ensures();
        assert(moved.to_multiset() =~= after.to_multiset());
        assert(moved.push(next.top).to_multiset() =~= after.push(next.top).to_multiset());
        assert(moved.push(next.top).to_multiset() =~= before.push(top).to_multiset());
        lemma_map_permutation(before.push(top), after.push(next.top), strip);
    }
}

/// The test "has been passed and names a stored phrase".
pub open spec fn is_recordable() -> spec_fn(Card) -> bool {
    |c: Card| c.goal == Goal::Celebrate && c.id is Some
}

/// The identifier of a card, as a function on cards.
pub open spec fn id_of() -> spec_fn(Card) -> i64 {
    |c: Card|
        match c.id {
            Some(id) => id,
            None => 0,
        }
}

/// The identifiers of the cards of `cards` that have been passed and name
/// a stored phrase, in the order of the cards.
pub open spec fn passed_ids_of(cards: Seq<Card>) -> Seq<i64> {
    cards.filter(is_recordable()).map_values(id_of())
}

/// Lists the stored phrases whose pass is to be recorded after a session:
/// the identifiers of the cards that have been passed.
pub fn passed_ids(cards: &Vec<Card>) -> (ids: Vec<i64>)
    ensures
        ids@ == passed_ids_of(cards@),
{
    let mut ids: Vec<i64> = Vec::new();
    let mut i: usize = 0;
    proof {
        cards@.take(0).lemma_filter_len(is_recordable());
        assert(ids@ =~= passed_ids_of(cards@.take(0)));
    }
    while i < cards.len()
        invariant
            i <= cards@.len(),
            ids@ == passed_ids_of(cards@.take(i as int)),
        decreases cards@.len() - i,
    {
        let ghost before = cards@.take(i as int);
        proof {
            assert(cards@.take(i + 1) =~= before.push(cards@[i as int]));
            before.lemma_filter_push(cards@[i as int], is_recordable());
            before.filter(is_recordable()).lemma_push_map_commute(id_of(), cards@[i as int]);
        }
        if cards[i].goal.is_celebrate() {
            match cards[i].id {
                Some(id) => {
                    ids.push(id);
                },
                None => {},
            }
        }
        i = i + 1;
    }
    proof {
        assert(cards@.take(i as int) =~= cards@);
    }
    ids
}

} // verus!
