use interactive_class::error::{StateError, WSError};
use interactive_class::message::{
    ConnectionType, CupColor, PublishQuestion, Question, QuestionAnswer, QuestionId,
    QuestionModification,
};
use interactive_class::room::{BroadcastTarget, RoomState};

fn question(title: &str, options: &[&str]) -> Question {
    Question {
        title: title.to_string(),
        options: options.iter().map(|s| s.to_string()).collect(),
    }
}

fn sorted(mut v: Vec<u128>) -> Vec<u128> {
    v.sort();
    v
}

#[test]
fn connecting_twice_with_one_id_fails() {
    let mut room = RoomState::new("test_room".to_string());
    assert!(room.add_connection(1, ConnectionType::Student).is_ok());
    assert!(matches!(
        room.add_connection(1, ConnectionType::Student),
        Err(WSError::AlreadyConnected)
    ));
    assert!(matches!(
        room.add_connection(1, ConnectionType::Teacher),
        Err(WSError::AlreadyConnected)
    ));
    assert_eq!(room.summary().connections, 1);
    assert!(room.teacher_connections.is_empty());
}

#[test]
fn cup_colors_are_aggregated() {
    let mut room = RoomState::new("test_room".to_string());
    for id in 1..=4u128 {
        room.add_connection(id, ConnectionType::Student).unwrap();
    }
    room.choose_cup(1, CupColor::Green).unwrap();
    room.choose_cup(2, CupColor::Yellow).unwrap();
    room.choose_cup(3, CupColor::Yellow).unwrap();
    let info = room.summary();
    assert_eq!(info.name, "test_room");
    assert_eq!((info.connections, info.green, info.yellow, info.red), (4, 1, 2, 0));
    room.choose_cup(3, CupColor::Red).unwrap();
    let info = room.summary();
    assert_eq!((info.green, info.yellow, info.red), (1, 1, 1));
}

#[test]
fn three_students_green_yellow_yellow() {
    let mut room = RoomState::new("r".to_string());
    for id in 1..=3u128 {
        room.add_connection(id, ConnectionType::Student).unwrap();
    }
    room.choose_cup(1, CupColor::Green).unwrap();
    room.choose_cup(2, CupColor::Yellow).unwrap();
    room.choose_cup(3, CupColor::Yellow).unwrap();
    let info = room.summary();
    assert_eq!((info.connections, info.green, info.yellow, info.red), (3, 1, 2, 0));
}

#[test]
fn choosing_cup_needs_a_student() {
    let mut room = RoomState::new("r".to_string());
    room.add_connection(5, ConnectionType::Teacher).unwrap();
    assert_eq!(room.choose_cup(5, CupColor::Red), Err(StateError::InvalidId));
    assert_eq!(room.choose_cup(6, CupColor::Red), Err(StateError::InvalidId));
}

#[test]
fn removing_a_student_strips_its_answers() {
    let mut room = RoomState::new("r".to_string());
    room.add_connection(1, ConnectionType::Student).unwrap();
    room.add_connection(2, ConnectionType::Student).unwrap();
    assert!(room.insert_question(10, question("q", &["a", "b"])));
    room.answer_question(1, QuestionAnswer { id: 10, answer: 0 }).unwrap();
    room.answer_question(2, QuestionAnswer { id: 10, answer: 0 }).unwrap();
    assert_eq!(room.questions[0].1.summary(), vec![2, 0]);
    assert!(room.remove_student(1));
    assert_eq!(room.questions[0].1.summary(), vec![1, 0]);
    assert_eq!(room.summary().connections, 1);
    assert!(!room.remove_student(1));
}

#[test]
fn removing_connections_on_either_side() {
    let mut room = RoomState::new("r".to_string());
    room.add_connection(1, ConnectionType::Student).unwrap();
    room.add_connection(2, ConnectionType::Teacher).unwrap();
    assert!(room.remove_teacher(2));
    assert!(!room.remove_teacher(2));
    assert!(room.remove_connection(1));
    assert!(!room.remove_connection(1));
    assert!(room.student_connections.is_empty());
}

#[test]
fn broadcast_targets_exclude_the_sender() {
    let mut room = RoomState::new("r".to_string());
    room.add_connection(1, ConnectionType::Student).unwrap();
    room.add_connection(2, ConnectionType::Student).unwrap();
    room.add_connection(3, ConnectionType::Teacher).unwrap();
    assert_eq!(sorted(room.broadcast_targets(BroadcastTarget::Students, Some(1))), vec![2]);
    assert_eq!(sorted(room.broadcast_targets(BroadcastTarget::Teachers, Some(1))), vec![3]);
    assert_eq!(sorted(room.broadcast_targets(BroadcastTarget::All, Some(3))), vec![1, 2]);
    assert_eq!(sorted(room.broadcast_targets(BroadcastTarget::All, None)), vec![1, 2, 3]);
}

#[test]
fn question_ids_are_unique() {
    let mut room = RoomState::new("r".to_string());
    assert!(room.insert_question(10, question("q", &["a"])));
    assert!(!room.insert_question(10, question("other", &["b"])));
    assert_eq!(room.questions.len(), 1);
    assert_eq!(room.questions[0].1.title, "q");
    let id = room.add_question(question("fresh", &["x"])).unwrap();
    assert_ne!(id, 10);
    assert_eq!(room.questions.len(), 2);
}

#[test]
fn question_operations_report_unknown_ids() {
    let mut room = RoomState::new("r".to_string());
    room.add_connection(1, ConnectionType::Student).unwrap();
    assert!(matches!(
        room.answer_question(1, QuestionAnswer { id: 99, answer: 0 }),
        Err(WSError::InvalidQuestionId(99))
    ));
    assert!(matches!(
        room.answer_question(2, QuestionAnswer { id: 99, answer: 0 }),
        Err(WSError::InvalidQuestionId(99))
    ));
    room.insert_question(10, question("q", &["a"]));
    assert!(matches!(
        room.answer_question(2, QuestionAnswer { id: 10, answer: 0 }),
        Err(WSError::InvalidClientId(StateError::InvalidId))
    ));
    assert!(matches!(room.delete_question(99), Err(WSError::InvalidQuestionId(99))));
    let m = QuestionModification { id: 99, title: None, options: None };
    assert!(matches!(room.modify_question(m), Err(WSError::InvalidQuestionId(99))));
    let p = PublishQuestion { id: QuestionId(99), secs: 5 };
    assert!(matches!(room.publication(&p), Err(WSError::InvalidQuestionId(99))));
}

#[test]
fn answer_bound_in_room() {
    let mut room = RoomState::new("r".to_string());
    room.add_connection(1, ConnectionType::Student).unwrap();
    room.insert_question(10, question("q", &["a", "b", "c"]));
    assert!(matches!(
        room.answer_question(1, QuestionAnswer { id: 10, answer: 3 }),
        Err(WSError::InvalidAnswer(StateError::InvalidAnswer(3)))
    ));
    assert!(room.answer_question(1, QuestionAnswer { id: 10, answer: 2 }).is_ok());
}

#[test]
fn publication_and_deletion() {
    let mut room = RoomState::new("r".to_string());
    room.insert_question(10, question("q", &["a", "b"]));
    room.insert_question(11, question("p", &["c"]));
    let p = room.publication(&PublishQuestion { id: QuestionId(11), secs: 30 }).unwrap();
    assert_eq!(p.id, QuestionId(11));
    assert_eq!(p.title, "p");
    assert_eq!(p.options, vec!["c".to_string()]);
    assert_eq!(p.secs, 30);
    room.delete_question(10).unwrap();
    assert_eq!(room.questions.len(), 1);
    assert_eq!(room.questions[0].0, 11);
}

#[test]
fn fresh_room_lists_added_question() {
    let mut room = RoomState::new("test_room".to_string());
    let id = room.add_question(question("test question", &["option1", "option2", "option3"]));
    assert!(id.is_some());
    match interactive_class::message::ClientMessage::from_questions_map(&room.questions) {
        interactive_class::message::ClientMessage::QuestionsInfo(v) => {
            assert_eq!(v.len(), 1);
            assert_eq!(v[0].id.0, id.unwrap());
            assert_eq!(v[0].title, "test question");
            assert_eq!(v[0].options, vec!["option1", "option2", "option3"]);
            assert_eq!(v[0].answers, vec![0, 0, 0]);
        }
        other => panic!("Invalid msg: {other:?}"),
    }
}
