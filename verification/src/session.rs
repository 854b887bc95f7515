//! A practice session as a state machine: what the learner sees, what each
//! command does to it, and what the caller is asked to do in turn.

use vstd::prelude::*;
use crate::card::Card;
use crate::deck::{counter_of, contents_of, Deck, DeckView, SessionEvent, Stats};
use crate::error::DrillError;

verus! {

/// Where a session stands.
#[derive(Debug, Clone, PartialEq, Eq)]
pub enum SessionState {
    /// No session is running.
    Start,
    /// The top card's prompt is shown.
    Prompt { deck: Deck },
    /// The top card's answer is shown for study.
    Learn { deck: Deck },
    /// The top card's answer is shown to check the learner's own.
    Check { deck: Deck },
    /// Every card has been passed; the counters are shown.
    Done { deck: Deck },
}

/// What the learner can ask for.
#[derive(Debug, Clone, PartialEq, Eq)]
pub enum Command {
    /// Start a session with these cards and this seed.
    Begin { cards: Vec<Card>, seed: u64 },
    /// Show the answer to study it.
    ShowLearn,
    /// Show the answer to check against.
    ShowCheck,
    /// The card was studied; go on.
    Next,
    /// The answer was wrong.
    Fail,
    /// Show this card again later.
    Repeat,
    /// The answer was right.
    Pass,
    /// Leave the finished session.
    Finish,
}

/// What the caller is asked to do after a command.
#[derive(Debug, Clone, PartialEq, Eq)]
pub enum Effect {
    Nothing,
    /// Record that this card was passed now.
    RecordPass { card: Card },
    /// The session is over; these are its cards.
    Save { cards: Vec<Card> },
}

/// A session state, with each deck as its view.
pub enum SessionView {
    Start,
    Prompt { deck: DeckView },
    Learn { deck: DeckView },
    Check { deck: DeckView },
    Done { deck: DeckView },
}

impl View for SessionState {
    type V = SessionView;

    open spec fn view(&self) -> SessionView {
        match *self {
            SessionState::Start => SessionView::Start,
            SessionState::Prompt { deck } => SessionView::Prompt { deck: deck@ },
            SessionState::Learn { deck } => SessionView::Learn { deck: deck@ },
            SessionState::Check { deck } => SessionView::Check { deck: deck@ },
            SessionState::Done { deck } => SessionView::Done { deck: deck@ },
        }
    }
}

/// The deck that a session starts with: the last card on top, the others
/// pending in their order, nothing counted.
pub open spec fn opening_deck(cards: Seq<Card>) -> DeckView {
    DeckView {
        top: cards.last(),
        pending: cards.drop_last(),
        stats: Stats { learned: 0, failed: 0, repeated: 0, passed: 0 },
    }
}

/// The event that a command applies to the deck in the state `state`, if
/// it applies one there.
pub open spec fn event_of(state: SessionView, command: Command) -> Option<SessionEvent> {
    match (state, command) {
        (SessionView::Learn { .. }, Command::Next) => Some(SessionEvent::Learn),
        (SessionView::Check { .. }, Command::Fail) => Some(SessionEvent::Fail),
        (SessionView::Check { .. }, Command::Repeat) => Some(SessionEvent::Repeat),
        (SessionView::Check { .. }, Command::Pass) => Some(SessionEvent::Pass),
        _ => None,
    }
}

/// The deck of a state that has one.
pub open spec fn deck_of(state: SessionView) -> Option<DeckView> {
    match state {
        SessionView::Start => None,
        SessionView::Prompt { deck } => Some(deck),
        SessionView::Learn { deck } => Some(deck),
        SessionView::Check { deck } => Some(deck),
        SessionView::Done { deck } => Some(deck),
    }
}

/// Whether the counter that the command advances has room for one more.
pub open spec fn can_count(state: SessionView, command: Command) -> bool {
    match event_of(state, command) {
        Some(event) => counter_of(deck_of(state).unwrap().stats, event) < usize::MAX,
        None => true,
    }
}

/// Whether the command is refused: a session cannot begin without cards.
pub open spec fn is_refused(state: SessionView, command: Command) -> bool {
    &&& state is Start
    &&& command matches Command::Begin { cards, .. }
    &&& cards@.len() == 0
}

/// The transitions of a session. A session begins at the prompt of its
/// opening deck. From a prompt the learner turns to the answer, to study
/// it or to check against it. Going on from study, and failing or asking
/// for a repeat after a check, apply that event to the deck and lead to
/// the next prompt. A pass asks the caller to record it for the card that
/// was on top, applies the event, and leads to the end when every card has
/// been passed, to the next prompt otherwise. Leaving a finished session
/// hands its cards to the caller. Any other command changes nothing.
pub open spec fn advances_to(
    state: SessionView,
    command: Command,
    next: SessionView,
    effect: Effect,
) -> bool {
    match (state, command) {
        (SessionView::Start, Command::Begin { cards, .. }) => {
            &&& next == SessionView::Prompt { deck: opening_deck(cards@) }
            &&& effect == Effect::Nothing
        },
        (SessionView::Prompt { deck }, Command::ShowLearn) => {
            &&& next == SessionView::Learn { deck }
            &&& effect == Effect::Nothing
        },
        (SessionView::Prompt { deck }, Command::ShowCheck) => {
            &&& next == SessionView::Check { deck }
            &&& effect == Effect::Nothing
        },
        (SessionView::Learn { deck }, Command::Next) => {
            &&& next matches SessionView::Prompt { deck: after }
            &&& deck.steps_to(SessionEvent::Learn, after)
            &&& effect == Effect::Nothing
        },
        (SessionView::Check { deck }, Command::Fail) => {
            &&& next matches SessionView::Prompt { deck: after }
            &&& deck.steps_to(SessionEvent::Fail, after)
            &&& effect == Effect::Nothing
        },
        (SessionView::Check { deck }, Command::Repeat) => {
            &&& next matches SessionView::Prompt { deck: after }
            &&& deck.steps_to(SessionEvent::Repeat, after)
            &&& effect == Effect::Nothing
        },
        (SessionView::Check { deck }, Command::Pass) => {
            &&& deck_of(next) matches Some(after)
            &&& deck.steps_to(SessionEvent::Pass, after)
            &&& next == if after.all_passed() {
                SessionView::Done { deck: after }
            } else {
                SessionView::Prompt { deck: after }
            }
            &&& effect == Effect::RecordPass { card: deck.top }
        },
        (SessionView::Done { deck }, Command::Finish) => {
            &&& next == SessionView::Start
            &&& effect matches Effect::Save { cards }
            &&& cards@ == deck.pending.push(deck.top)
        },
        _ => next == state && effect == Effect::Nothing,
    }
}

/// Applies a command to a session. The outcome is one of the transitions
/// of `advances_to`; only beginning a session without cards is refused.
pub fn advance(state: SessionState, command: Command) -> (outcome: Result<
    (SessionState, Effect),
    DrillError,
>)
    requires
        can_count(state@, command),
    ensures
        is_refused(state@, command) <==> outcome is Err,
        outcome is Err ==> outcome == Err::<(SessionState, Effect), DrillError>(
            DrillError::EmptyPool,
        ),
        outcome matches Ok(reached) ==> advances_to(state@, command, reached.0@, reached.1),
{
    match state {
        SessionState::Start => match command {
            Command::Begin { cards, seed } => match Deck::from_cards(cards, seed) {
                Ok(deck) => Ok((SessionState::Prompt { deck }, Effect::Nothing)),
                Err(error) => Err(error),
            },
            _ => Ok((SessionState::Start, Effect::Nothing)),
        },
        SessionState::Prompt { deck } => match command {
            Command::ShowLearn => Ok((SessionState::Learn { deck }, Effect::Nothing)),
            Command::ShowCheck => Ok((SessionState::Check { deck }, Effect::Nothing)),
            _ => Ok((SessionState::Prompt { deck }, Effect::Nothing)),
        },
        SessionState::Learn { deck } => match command {
            Command::Next => Ok((SessionState::Prompt { deck: deck.learn() }, Effect::Nothing)),
            _ => Ok((SessionState::Learn { deck }, Effect::Nothing)),
        },
        SessionState::Check { deck } => match command {
            Command::Fail => Ok((SessionState::Prompt { deck: deck.fail() }, Effect::Nothing)),
            Command::Repeat => Ok((SessionState::Prompt { deck: deck.repeat() }, Effect::Nothing)),
            Command::Pass => {
                let card = deck.top_card();
                let deck = deck.pass();
                let effect = Effect::RecordPass { card };
                if deck.is_all_passed() {
                    Ok((SessionState::Done { deck }, effect))
                } else {
                    Ok((SessionState::Prompt { deck }, effect))
                }
            },
            _ => Ok((SessionState::Check { deck }, Effect::Nothing)),
        },
        SessionState::Done { deck } => match command {
            Command::Finish => Ok((SessionState::Start, Effect::Save { cards: deck.into_cards() })),
            _ => Ok((SessionState::Done { deck }, Effect::Nothing)),
        },
    }
}

/// Whatever a command does, the deck of a running session keeps its pool
/// of cards, and the cards handed over at the end are that pool.
pub proof fn lemma_advance_keeps_pool(
    state: SessionView,
    command: Command,
    next: SessionView,
    effect: Effect,
)
    requires
        advances_to(state, command, next, effect),
    ensures
        deck_of(state) is Some && deck_of(next) is Some ==> deck_of(next).unwrap().pool()
            == deck_of(state).unwrap().pool(),
        deck_of(state) is Some ==> (effect matches Effect::Save { cards } ==> contents_of(
            cards@,
        ).to_multiset() == deck_of(state).unwrap().pool()),
{
    match event_of(state, command) {
        Some(event) => {
            crate::deck::lemma_step_keeps_pool(
                deck_of(state).unwrap(),
                event,
                deck_of(next).unwrap(),
            );
        },
        None => {},
    }
}

} // verus!
