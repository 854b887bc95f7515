use kanjikoto::drill_point::DrillPoint;
use kanjikoto::hint::{get_hints, Hint, HintStyle};
use kanjikoto::review::{show_answer, Lesson};
use kanjikoto::tagged::{Hint as TagHint, Lesson as TagLesson};
use kanjikoto::worksheet::Answer;

fn point(word: &str, meaning: &str) -> DrillPoint {
    DrillPoint::new(1, word, meaning).unwrap()
}

#[test]
fn a_worksheet_row_shows_the_word_and_its_hints() {
    let answer = Answer::new(3, point("必（ひつ）要（よう）", "necessary, needed"));
    assert_eq!(
        answer,
        Answer {
            index: 3,
            kanji: "必要".to_string(),
            hints: vec![
                Hint { style: HintStyle::Reading, text: "ひつよう".to_string() },
                Hint { style: HintStyle::Definition, text: "necessary".to_string() },
                Hint { style: HintStyle::Definition, text: "needed".to_string() },
            ],
        }
    );
}

#[test]
fn a_tag_hint_holds_the_meanings_covered() {
    let hint = TagHint::new(" a , ,b".to_string(), 2);
    assert_eq!(hint, TagHint { index: 2, tags: vec!["a".to_string(), "b".to_string()], visible: false });
    let lesson = TagLesson::new(5, point("嫌（いや）", "unpleasant"));
    assert_eq!(
        lesson,
        TagLesson {
            index: 5,
            prompt: "嫌".to_string(),
            hint: TagHint { index: 5, tags: vec!["unpleasant".to_string()], visible: false },
        }
    );
}

#[test]
fn show_answer_uncovers_one_row() {
    let mut lessons = vec![
        Lesson::new(0, point("嫌（いや）", "unpleasant")),
        Lesson::new(1, point("必（ひつ）要（よう）", "necessary")),
        Lesson::new(2, point("行（い）く", "go")),
    ];
    let before = lessons.clone();
    show_answer(&mut lessons, 1);
    assert_eq!(lessons[0], before[0]);
    assert_eq!(lessons[2], before[2]);
    assert!(lessons[1].answer.visible);
    assert_eq!(lessons[1].prompt, before[1].prompt);
    assert_eq!(lessons[1].answer.hints, get_hints(&point("必（ひつ）要（よう）", "necessary")));
    assert_eq!(lessons[1].answer.lesson_index, 1);
    show_answer(&mut lessons, 1);
    assert!(lessons[1].answer.visible);
    assert_eq!(lessons.len(), 3);
}
