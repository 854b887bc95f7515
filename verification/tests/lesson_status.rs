use kanjikoto::lesson_status::{LessonStatus, SESSION_SIZE};

#[test]
fn session_size_is_five() {
    assert_eq!(SESSION_SIZE, 5);
}

#[test]
fn sessions_round_up() {
    assert_eq!(LessonStatus::sessions(0), 0);
    assert_eq!(LessonStatus::sessions(1), 1);
    assert_eq!(LessonStatus::sessions(4), 1);
    assert_eq!(LessonStatus::sessions(5), 1);
    assert_eq!(LessonStatus::sessions(6), 2);
    assert_eq!(LessonStatus::sessions(10), 2);
    assert_eq!(LessonStatus::sessions(11), 3);
    assert_eq!(LessonStatus::sessions(usize::MAX), usize::MAX / 5);
    assert_eq!(LessonStatus::sessions(usize::MAX - 1), usize::MAX / 5);
    assert_eq!(LessonStatus::sessions(usize::MAX - 4), usize::MAX / 5);
    assert_eq!(LessonStatus::sessions(usize::MAX - 5), usize::MAX / 5 - 1);
}

#[test]
fn to_ready_learned_counts_sessions() {
    let status = LessonStatus { lesson_id: 1, ready: 12, learned: 5 };
    assert_eq!(status.to_ready_learned(), (3, 1));
    let none = LessonStatus { lesson_id: 1, ready: 0, learned: 0 };
    assert_eq!(none.to_ready_learned(), (0, 0));
}
