use interactive_class::error::StateError;
use interactive_class::question::{first_position, QuestionState};

fn texts(v: &[&str]) -> Vec<String> {
    v.iter().map(|s| s.to_string()).collect()
}

fn abc() -> QuestionState {
    QuestionState::new("test question".to_string(), texts(&["a", "b", "c"]))
}

#[test]
fn re_answer_keeps_only_the_last_choice() {
    let mut q = abc();
    q.answer(7, 0).unwrap();
    q.answer(7, 2).unwrap();
    assert_eq!(q.answers, vec![(7, 2)]);
    assert_eq!(q.summary(), vec![0, 0, 1]);
}

#[test]
fn remap_preserves_matching_text() {
    let mut q = abc();
    q.answer(1, 1).unwrap();
    q.modify(None, Some(texts(&["x", "b", "y"])));
    assert_eq!(q.answers, vec![(1, 1)]);
    assert_eq!(q.summary(), vec![0, 1, 0]);
    assert_eq!(q.title, "test question");
}

#[test]
fn remap_drops_vanished_option() {
    let mut q = abc();
    q.answer(1, 1).unwrap();
    q.modify(None, Some(texts(&["a", "c"])));
    assert!(q.answers.is_empty());
    assert_eq!(q.summary(), vec![0, 0]);
}

#[test]
fn remap_follows_reordered_options() {
    let mut q = abc();
    q.answer(1, 0).unwrap();
    q.answer(2, 2).unwrap();
    q.answer(3, 2).unwrap();
    q.modify(Some("new title".to_string()), Some(texts(&["c", "new option2", "a", "c"])));
    assert_eq!(q.title, "new title");
    assert_eq!(q.summary(), vec![2, 0, 1, 0]);
    let mut answers = q.answers.clone();
    answers.sort();
    assert_eq!(answers, vec![(1, 2), (2, 0), (3, 0)]);
}

#[test]
fn modify_title_only_keeps_options_and_answers() {
    let mut q = abc();
    q.answer(4, 1).unwrap();
    q.modify(Some("another".to_string()), None);
    assert_eq!(q.title, "another");
    assert_eq!(q.options, texts(&["a", "b", "c"]));
    assert_eq!(q.answers, vec![(4, 1)]);
}

#[test]
fn modify_without_answers_replaces_options() {
    let mut q = abc();
    q.modify(None, Some(texts(&["only"])));
    assert_eq!(q.options, texts(&["only"]));
    assert_eq!(q.summary(), vec![0]);
}

#[test]
fn answer_equal_to_option_count_is_rejected() {
    let mut q = abc();
    assert_eq!(q.answer(1, 3), Err(StateError::InvalidAnswer(3)));
    assert_eq!(q.answer(1, 100), Err(StateError::InvalidAnswer(100)));
    assert!(q.answers.is_empty());
    assert_eq!(q.answer(1, 2), Ok(()));
}

#[test]
fn summary_counts_each_option() {
    let mut q = abc();
    for (student, choice) in [(1u128, 0usize), (2, 0), (3, 2), (4, 0)] {
        q.answer(student, choice).unwrap();
    }
    assert_eq!(q.summary(), vec![3, 0, 1]);
}

#[test]
fn summary_of_question_without_options_is_empty() {
    let q = QuestionState::new("empty".to_string(), Vec::new());
    assert_eq!(q.summary(), Vec::<usize>::new());
}

#[test]
fn remove_student_drops_its_answer() {
    let mut q = abc();
    q.answer(1, 1).unwrap();
    q.answer(2, 1).unwrap();
    assert!(q.remove_student(1));
    assert_eq!(q.summary(), vec![0, 1, 0]);
    assert!(!q.remove_student(1));
    assert_eq!(q.summary(), vec![0, 1, 0]);
}

#[test]
fn first_position_finds_first_equal_text() {
    let opts = texts(&["a", "b", "a"]);
    assert_eq!(first_position(&opts, &"a".to_string()), Some(0));
    assert_eq!(first_position(&opts, &"b".to_string()), Some(1));
    assert_eq!(first_position(&opts, &"z".to_string()), None);
}

#[test]
fn question_info_shows_counts() {
    let mut q = abc();
    q.answer(9, 2).unwrap();
    let info = q.info(42);
    assert_eq!(info.id.0, 42);
    assert_eq!(info.title, "test question");
    assert_eq!(info.options, texts(&["a", "b", "c"]));
    assert_eq!(info.answers, vec![0, 0, 1]);
}
