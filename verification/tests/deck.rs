use kanjikoto::card::{Card, CardBack, CardFront, Goal};
use kanjikoto::deck::{Deck, SessionEvent, Stats};
use kanjikoto::error::DrillError;

fn card(id: i64) -> Card {
    Card {
        id: Some(id),
        goal: Goal::Learn,
        front: CardFront { kanji: format!("word{}", id) },
        back: CardBack { yomi: format!("reading{}", id), meaning: format!("meaning{}", id) },
    }
}

fn pool(count: i64) -> Vec<Card> {
    (1..=count).map(card).collect()
}

fn content_ids(cards: &[Card]) -> Vec<i64> {
    let mut ids: Vec<i64> = cards.iter().map(|c| c.id.unwrap()).collect();
    ids.sort();
    ids
}

fn ids_of(deck: &Deck) -> Vec<i64> {
    content_ids(&deck.clone().into_cards())
}

fn goals_of(deck: &Deck) -> Vec<(i64, Goal)> {
    let mut goals: Vec<(i64, Goal)> =
        deck.clone().into_cards().iter().map(|c| (c.id.unwrap(), c.goal)).collect();
    goals.sort_by_key(|g| g.0);
    goals
}

#[test]
fn from_cards_refuses_an_empty_pool() {
    assert_eq!(Deck::from_cards(Vec::new(), 7).err(), Some(DrillError::EmptyPool));
}

#[test]
fn from_cards_puts_the_last_card_on_top() {
    let deck = Deck::from_cards(pool(3), 7).unwrap();
    assert_eq!(deck.top, card(3));
    assert_eq!(deck.stats, Stats { learned: 0, failed: 0, repeated: 0, passed: 0 });
    assert_eq!(deck.into_cards(), vec![card(1), card(2), card(3)]);
}

#[test]
fn a_single_card_deck_keeps_its_card_on_top() {
    let deck = Deck::from_cards(pool(1), 1).unwrap();
    let deck = deck.fail();
    assert_eq!(deck.top, card(1));
    assert_eq!(deck.stats.failed, 1);
    assert!(!deck.is_all_passed());
    let deck = deck.pass();
    assert_eq!(deck.top.goal, Goal::Celebrate);
    assert!(deck.is_all_passed());
}

#[test]
fn fail_pass_pass_completes_a_deck_of_two() {
    let deck = Deck::from_cards(pool(2), 42).unwrap();
    assert_eq!(deck.top.id, Some(2));

    let deck = deck.fail();
    assert_eq!(goals_of(&deck), vec![(1, Goal::Learn), (2, Goal::Learn)]);
    assert_eq!(deck.top.id, Some(1));
    assert_eq!(deck.stats, Stats { learned: 0, failed: 1, repeated: 0, passed: 0 });
    assert!(!deck.is_all_passed());

    let deck = deck.pass();
    assert_eq!(goals_of(&deck), vec![(1, Goal::Celebrate), (2, Goal::Learn)]);
    assert_eq!(deck.top.id, Some(2));
    assert_eq!(deck.top.goal, Goal::Learn);
    assert!(!deck.is_all_passed());

    let deck = deck.pass();
    assert_eq!(goals_of(&deck), vec![(1, Goal::Celebrate), (2, Goal::Celebrate)]);
    assert_eq!(deck.stats, Stats { learned: 0, failed: 1, repeated: 0, passed: 2 });
    assert!(deck.is_all_passed());
}

#[test]
fn events_keep_every_card_exactly_once() {
    let events = [
        SessionEvent::Fail,
        SessionEvent::Learn,
        SessionEvent::Pass,
        SessionEvent::Repeat,
        SessionEvent::Pass,
        SessionEvent::Fail,
        SessionEvent::Repeat,
        SessionEvent::Pass,
        SessionEvent::Learn,
        SessionEvent::Pass,
        SessionEvent::Pass,
        SessionEvent::Fail,
    ];
    for seed in 0..20u64 {
        let mut deck = Deck::from_cards(pool(6), seed).unwrap();
        for event in events {
            deck = deck.apply_event(event);
            assert_eq!(ids_of(&deck), vec![1, 2, 3, 4, 5, 6]);
            assert_eq!(deck.clone().into_cards().len(), 6);
        }
        assert_eq!(deck.stats, Stats { learned: 2, failed: 3, repeated: 2, passed: 5 });
    }
}

#[test]
fn passing_every_card_once_completes_the_session() {
    for seed in 0..20u64 {
        let mut deck = Deck::from_cards(pool(7), seed).unwrap();
        let mut seen: Vec<i64> = Vec::new();
        for round in 0..7 {
            assert!(!deck.is_all_passed());
            assert_ne!(deck.top.goal, Goal::Celebrate);
            seen.push(deck.top.id.unwrap());
            deck = deck.pass();
            assert_eq!(deck.stats.passed, round + 1);
        }
        seen.sort();
        assert_eq!(seen, vec![1, 2, 3, 4, 5, 6, 7]);
        assert!(deck.is_all_passed());
        assert!(deck.into_cards().iter().all(|c| c.goal == Goal::Celebrate));
    }
}

#[test]
fn other_events_do_not_count_towards_completion() {
    let mut deck = Deck::from_cards(pool(2), 3).unwrap();
    deck = deck.learn();
    deck = deck.repeat();
    deck = deck.learn();
    assert_eq!(deck.stats, Stats { learned: 2, failed: 0, repeated: 1, passed: 0 });
    assert!(!deck.is_all_passed());
}

#[test]
fn the_last_unpassed_card_stays_on_top() {
    let deck = Deck::from_cards(pool(3), 11).unwrap();
    let deck = deck.pass().pass();
    let last = deck.top.id;
    assert_eq!(deck.top.goal, Goal::Learn);
    let deck = deck.fail();
    assert_eq!(deck.top.id, last);
    assert_eq!(deck.top.goal, Goal::Learn);
    let deck = deck.repeat();
    assert_eq!(deck.top.id, last);
    assert_eq!(deck.top.goal, Goal::Review);
    let deck = deck.learn();
    assert_eq!(deck.top.id, last);
    assert_eq!(deck.top.goal, Goal::Learn);
    assert!(!deck.is_all_passed());
    let deck = deck.pass();
    assert_eq!(deck.top.id, last);
    assert!(deck.is_all_passed());
}

#[test]
fn repeat_sets_the_card_to_review_and_rotates() {
    let deck = Deck::from_cards(pool(2), 5).unwrap().repeat();
    assert_eq!(goals_of(&deck), vec![(1, Goal::Learn), (2, Goal::Review)]);
    assert_eq!(deck.top.id, Some(1));
    assert_eq!(deck.stats, Stats { learned: 0, failed: 0, repeated: 1, passed: 0 });
}

#[test]
fn fail_resets_a_reviewed_card() {
    let deck = Deck::from_cards(pool(1), 5).unwrap().repeat();
    assert_eq!(deck.top.goal, Goal::Review);
    let deck = deck.fail();
    assert_eq!(deck.top.goal, Goal::Learn);
}

#[test]
fn turns_remaining_counts_the_cards_not_yet_passed() {
    let deck = Deck::from_cards(pool(4), 9).unwrap();
    assert_eq!(deck.turns_remaining(), 4);
    let deck = deck.pass();
    assert_eq!(deck.turns_remaining(), 3);
    let deck = deck.repeat();
    assert_eq!(deck.turns_remaining(), 3);
    let deck = deck.pass().pass().pass();
    assert_eq!(deck.turns_remaining(), 0);
}

#[test]
fn card_turns_remaining_by_goal() {
    let mut one = card(1);
    assert_eq!(one.turns_remaining(), 1);
    one.goal = Goal::Review;
    assert_eq!(one.turns_remaining(), 1);
    one.goal = Goal::Celebrate;
    assert_eq!(one.turns_remaining(), 0);
}

#[test]
fn into_cards_gives_pending_cards_then_the_top() {
    let deck = Deck::from_cards(pool(5), 2).unwrap().pass();
    let top = deck.top.clone();
    let cards = deck.into_cards();
    assert_eq!(cards.len(), 5);
    assert_eq!(cards.last(), Some(&top));
}

#[test]
fn the_same_seed_gives_the_same_session() {
    let run = |seed: u64| {
        let mut deck = Deck::from_cards(pool(8), seed).unwrap();
        let mut tops = Vec::new();
        for _ in 0..12 {
            deck = deck.fail();
            tops.push(deck.top.id.unwrap());
        }
        tops
    };
    assert_eq!(run(5), run(5));
}

#[test]
fn rotation_shuffles_the_pending_cards() {
    let orders: Vec<Vec<i64>> = (0..8u64)
        .map(|seed| {
            let deck = Deck::from_cards(pool(12), seed).unwrap().fail();
            deck.into_cards().iter().map(|c| c.id.unwrap()).collect()
        })
        .collect();
    assert!(orders.iter().any(|order| order != &orders[0]));
}

#[test]
fn a_cloned_deck_is_equal_and_independent() {
    let deck = Deck::from_cards(pool(3), 4).unwrap();
    let copy = deck.clone();
    assert_eq!(deck, copy);
    let moved = copy.pass();
    assert_eq!(deck.stats.passed, 0);
    assert_eq!(moved.stats.passed, 1);
}

#[test]
fn passed_ids_lists_the_passed_cards_that_name_a_phrase() {
    let mut cards = pool(4);
    cards[0].goal = Goal::Celebrate;
    cards[1].goal = Goal::Review;
    cards[3].goal = Goal::Celebrate;
    let mut unnamed = card(9);
    unnamed.id = None;
    unnamed.goal = Goal::Celebrate;
    cards.push(unnamed);
    assert_eq!(kanjikoto::deck::passed_ids(&cards), vec![1, 4]);
    assert_eq!(kanjikoto::deck::passed_ids(&Vec::new()), Vec::<i64>::new());
}

#[test]
fn top_card_copies_the_card_on_top() {
    let deck = Deck::from_cards(pool(3), 1).unwrap().repeat();
    assert_eq!(deck.top_card(), deck.top);
}

#[test]
fn rotate_brings_up_the_first_card_not_yet_passed() {
    let mut pending = pool(4);
    pending[0].goal = Goal::Celebrate;
    pending[1].goal = Goal::Celebrate;
    pending[2].goal = Goal::Review;
    let top = card(9);
    assert_eq!(kanjikoto::deck::first_unfinished(&pending), Some(2));
    let (next, rest) = kanjikoto::deck::rotate(top.clone(), pending.clone());
    assert_eq!(next, pending[2]);
    assert_eq!(rest, vec![pending[0].clone(), pending[1].clone(), pending[3].clone(), top]);
}

#[test]
fn rotate_keeps_the_top_when_all_pending_cards_are_passed() {
    let mut pending = pool(2);
    pending[0].goal = Goal::Celebrate;
    pending[1].goal = Goal::Celebrate;
    assert_eq!(kanjikoto::deck::first_unfinished(&pending), None);
    let (next, rest) = kanjikoto::deck::rotate(card(9), pending.clone());
    assert_eq!(next, card(9));
    assert_eq!(rest, pending);
    let (alone, none) = kanjikoto::deck::rotate(card(9), Vec::new());
    assert_eq!(alone, card(9));
    assert!(none.is_empty());
}

#[test]
fn counters_reads_the_stats() {
    let deck = Deck::from_cards(pool(2), 1).unwrap().fail().learn();
    assert_eq!(deck.counters(), deck.stats);
    assert_eq!(deck.counters(), Stats { learned: 1, failed: 1, repeated: 0, passed: 0 });
}
