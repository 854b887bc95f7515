use kanjikoto::card::{Card, CardBack, CardFront, Goal};
use kanjikoto::deck::Deck;
use kanjikoto::error::DrillError;
use kanjikoto::session::{advance, Command, Effect, SessionState};

fn card(id: i64) -> Card {
    Card {
        id: Some(id),
        goal: Goal::Learn,
        front: CardFront { kanji: format!("word{}", id) },
        back: CardBack { yomi: format!("reading{}", id), meaning: format!("meaning{}", id) },
    }
}

fn begin(count: i64) -> SessionState {
    let cards: Vec<Card> = (1..=count).map(card).collect();
    let (state, effect) = advance(SessionState::Start, Command::Begin { cards, seed: 3 }).unwrap();
    assert_eq!(effect, Effect::Nothing);
    state
}

fn deck_of(state: &SessionState) -> &Deck {
    match state {
        SessionState::Prompt { deck }
        | SessionState::Learn { deck }
        | SessionState::Check { deck }
        | SessionState::Done { deck } => deck,
        SessionState::Start => panic!("no session is running"),
    }
}

#[test]
fn a_session_does_not_begin_without_cards() {
    let outcome = advance(SessionState::Start, Command::Begin { cards: Vec::new(), seed: 1 });
    assert_eq!(outcome, Err(DrillError::EmptyPool));
}

#[test]
fn a_session_begins_at_the_prompt_of_the_last_card() {
    let state = begin(3);
    assert!(matches!(state, SessionState::Prompt { .. }));
    assert_eq!(deck_of(&state).top, card(3));
    assert_eq!(deck_of(&state).stats.passed, 0);
}

#[test]
fn studying_a_card_counts_a_learn_and_returns_to_a_prompt() {
    let state = begin(2);
    let (state, effect) = advance(state, Command::ShowLearn).unwrap();
    assert!(matches!(state, SessionState::Learn { .. }));
    assert_eq!(effect, Effect::Nothing);
    assert_eq!(deck_of(&state).top, card(2));
    let (state, effect) = advance(state, Command::Next).unwrap();
    assert!(matches!(state, SessionState::Prompt { .. }));
    assert_eq!(effect, Effect::Nothing);
    assert_eq!(deck_of(&state).stats.learned, 1);
    assert_eq!(deck_of(&state).top, card(1));
}

#[test]
fn failing_and_repeating_return_to_a_prompt() {
    let state = begin(2);
    let (state, _) = advance(state, Command::ShowCheck).unwrap();
    assert!(matches!(state, SessionState::Check { .. }));
    let (state, effect) = advance(state, Command::Fail).unwrap();
    assert!(matches!(state, SessionState::Prompt { .. }));
    assert_eq!(effect, Effect::Nothing);
    assert_eq!(deck_of(&state).stats.failed, 1);
    let (state, _) = advance(state, Command::ShowCheck).unwrap();
    let (state, effect) = advance(state, Command::Repeat).unwrap();
    assert!(matches!(state, SessionState::Prompt { .. }));
    assert_eq!(effect, Effect::Nothing);
    assert_eq!(deck_of(&state).stats.repeated, 1);
}

#[test]
fn passing_every_card_ends_the_session_and_hands_the_cards_over() {
    let mut state = begin(3);
    let mut recorded: Vec<i64> = Vec::new();
    for round in 0..3 {
        assert!(matches!(state, SessionState::Prompt { .. }));
        let (checking, _) = advance(state, Command::ShowCheck).unwrap();
        let top = deck_of(&checking).top.clone();
        let (next, effect) = advance(checking, Command::Pass).unwrap();
        assert_eq!(effect, Effect::RecordPass { card: top.clone() });
        assert_eq!(top.goal, Goal::Learn);
        recorded.push(top.id.unwrap());
        assert_eq!(deck_of(&next).stats.passed, round + 1);
        state = next;
    }
    recorded.sort();
    assert_eq!(recorded, vec![1, 2, 3]);
    assert!(matches!(state, SessionState::Done { .. }));
    let (state, effect) = advance(state, Command::Finish).unwrap();
    assert_eq!(state, SessionState::Start);
    match effect {
        Effect::Save { cards } => {
            let mut ids: Vec<i64> = cards.iter().map(|c| c.id.unwrap()).collect();
            ids.sort();
            assert_eq!(ids, vec![1, 2, 3]);
            assert!(cards.iter().all(|c| c.goal == Goal::Celebrate));
        }
        other => panic!("expected the cards of the session, got {:?}", other),
    }
}

#[test]
fn commands_out_of_place_change_nothing() {
    let start = advance(SessionState::Start, Command::Pass).unwrap();
    assert_eq!(start, (SessionState::Start, Effect::Nothing));
    let prompt = begin(2);
    for command in [Command::Next, Command::Fail, Command::Repeat, Command::Pass, Command::Finish] {
        let (state, effect) = advance(prompt.clone(), command).unwrap();
        assert_eq!(state, prompt);
        assert_eq!(effect, Effect::Nothing);
    }
    let again = advance(prompt.clone(), Command::Begin { cards: vec![card(9)], seed: 1 }).unwrap();
    assert_eq!(again, (prompt.clone(), Effect::Nothing));
    let (learn, _) = advance(prompt.clone(), Command::ShowLearn).unwrap();
    for command in [Command::ShowCheck, Command::Fail, Command::Pass, Command::Finish] {
        let (state, effect) = advance(learn.clone(), command).unwrap();
        assert_eq!(state, learn);
        assert_eq!(effect, Effect::Nothing);
    }
    let (check, _) = advance(prompt, Command::ShowCheck).unwrap();
    for command in [Command::ShowLearn, Command::Next, Command::Finish] {
        let (state, effect) = advance(check.clone(), command).unwrap();
        assert_eq!(state, check);
        assert_eq!(effect, Effect::Nothing);
    }
}
