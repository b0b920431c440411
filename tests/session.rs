use interactive_class::message::{
    ClientMessage, ConnectionType, CupColor, PublishQuestion, Question, QuestionAnswer,
    QuestionId, QuestionModification, RoomConnectInfo, WSMessage,
};
use interactive_class::session::{client_timed_out, Delivery, WSSession};
use interactive_class::state::AppState;

fn state_with(rooms: &[&str]) -> AppState {
    let mut state = AppState::new();
    for r in rooms {
        state.create_room(r.to_string()).unwrap();
    }
    state
}

fn join(s: &mut WSSession, state: &mut AppState, room: &str, kind: ConnectionType) -> Vec<Delivery> {
    s.process_message(
        state,
        WSMessage::RoomConnect(RoomConnectInfo {
            room_name: room.to_string(),
            connection_type: kind,
        }),
    )
}

fn error_text(d: &Delivery) -> String {
    match &d.message {
        ClientMessage::Error(e) => e.clone(),
        other => panic!("Invalid msg: {other:?}"),
    }
}

fn receives(ds: &[Delivery], id: u128) -> Vec<&ClientMessage> {
    ds.iter().filter(|d| d.recipients.contains(&id)).map(|d| &d.message).collect()
}

fn option_texts() -> Vec<String> {
    vec!["option1".to_string(), "option2".to_string(), "option3".to_string()]
}

#[test]
fn student_gets_room_info_and_teacher_is_told() {
    let mut state = state_with(&["test_room"]);
    let mut teacher = WSSession::with_id(1);
    let mut student = WSSession::with_id(2);
    let r = join(&mut teacher, &mut state, "test_room", ConnectionType::Teacher);
    assert_eq!(r.len(), 2);
    assert_eq!(r[0].recipients, vec![1]);
    assert!(matches!(&r[0].message, ClientMessage::RoomInfo(i) if i.connections == 0));
    assert!(matches!(&r[1].message, ClientMessage::QuestionsInfo(v) if v.is_empty()));
    let r = join(&mut student, &mut state, "test_room", ConnectionType::Student);
    assert_eq!(r.len(), 2);
    assert_eq!(r[0].recipients, vec![2]);
    assert!(matches!(&r[0].message, ClientMessage::RoomInfo(i) if i.name == "test_room" && i.connections == 1));
    assert_eq!(r[1].recipients, vec![1]);
    assert!(matches!(&r[1].message, ClientMessage::RoomInfo(i) if i.connections == 1));
    assert_eq!(student.room.as_deref(), Some("test_room"));
}

#[test]
fn joining_unknown_room_fails() {
    let mut state = state_with(&[]);
    let mut s = WSSession::with_id(1);
    let r = join(&mut s, &mut state, "test_room", ConnectionType::Student);
    assert_eq!(r.len(), 1);
    assert_eq!(error_text(&r[0]), "Invalid room: \"test_room\".");
    assert!(s.room.is_none());
}

#[test]
fn second_connect_with_same_session_fails() {
    let mut state = state_with(&["test_room"]);
    let mut s = WSSession::with_id(1);
    join(&mut s, &mut state, "test_room", ConnectionType::Student);
    let r = join(&mut s, &mut state, "test_room", ConnectionType::Student);
    assert_eq!(r.len(), 1);
    assert_eq!(error_text(&r[0]), "Client already connected..");
    assert_eq!(state.rooms[0].summary().connections, 1);
}

#[test]
fn joining_another_room_leaves_the_first() {
    let mut state = state_with(&["room1", "room2"]);
    let mut teacher = WSSession::with_id(9);
    join(&mut teacher, &mut state, "room1", ConnectionType::Teacher);
    let mut s = WSSession::with_id(1);
    join(&mut s, &mut state, "room1", ConnectionType::Student);
    let r = join(&mut s, &mut state, "room2", ConnectionType::Student);
    assert_eq!(r.len(), 4);
    assert_eq!(state.rooms[0].summary().connections, 0);
    assert_eq!(state.rooms[1].summary().connections, 1);
    assert_eq!(s.room.as_deref(), Some("room2"));
    assert!(receives(&r, 9).iter().any(|m| matches!(m, ClientMessage::RoomInfo(i) if i.name == "room1" && i.connections == 0)));
}

#[test]
fn choosing_cup_without_room_fails() {
    let mut state = state_with(&["test_room"]);
    let mut s = WSSession::with_id(1);
    let r = s.process_message(&mut state, WSMessage::ChooseCup(CupColor::Green));
    assert_eq!(r.len(), 1);
    assert_eq!(r[0].recipients, vec![1]);
    assert_eq!(error_text(&r[0]), "No connected to any room.");
}

#[test]
fn cup_choice_reaches_teachers_of_the_room_only() {
    let mut state = state_with(&["test_room", "other_room"]);
    let mut a = WSSession::with_id(1);
    let mut b = WSSession::with_id(2);
    let mut t = WSSession::with_id(3);
    let mut t_other = WSSession::with_id(4);
    join(&mut a, &mut state, "test_room", ConnectionType::Student);
    join(&mut b, &mut state, "test_room", ConnectionType::Student);
    join(&mut t, &mut state, "test_room", ConnectionType::Teacher);
    join(&mut t_other, &mut state, "other_room", ConnectionType::Teacher);
    let r = a.process_message(&mut state, WSMessage::ChooseCup(CupColor::Yellow));
    assert!(matches!(receives(&r, 1)[..], [ClientMessage::Acknowledge]));
    assert!(receives(&r, 2).is_empty());
    assert!(receives(&r, 4).is_empty());
    let to_teacher = receives(&r, 3);
    assert_eq!(to_teacher.len(), 1);
    assert!(matches!(to_teacher[0], ClientMessage::RoomInfo(i) if i.yellow == 1 && i.connections == 2));
}

#[test]
fn teacher_cannot_choose_cup() {
    let mut state = state_with(&["test_room"]);
    let mut t = WSSession::with_id(3);
    join(&mut t, &mut state, "test_room", ConnectionType::Teacher);
    let r = t.process_message(&mut state, WSMessage::ChooseCup(CupColor::Red));
    assert_eq!(error_text(&r[0]), "Invalid client id.");
}

#[test]
fn question_flow_between_teacher_and_student() {
    let mut state = state_with(&["test_room"]);
    let mut t = WSSession::with_id(1);
    let mut s = WSSession::with_id(2);
    join(&mut t, &mut state, "test_room", ConnectionType::Teacher);
    join(&mut s, &mut state, "test_room", ConnectionType::Student);
    let r = t.process_message(
        &mut state,
        WSMessage::CreateQuestion(Question { title: "test question".to_string(), options: option_texts() }),
    );
    assert_eq!(r.len(), 2);
    let id = match &r[0].message {
        ClientMessage::QuestionsInfo(v) => {
            assert_eq!(v.len(), 1);
            assert_eq!(v[0].title, "test question");
            assert_eq!(v[0].answers, vec![0, 0, 0]);
            v[0].id
        }
        other => panic!("Invalid msg: {other:?}"),
    };
    assert!(r[1].recipients.is_empty());

    let r = t.process_message(&mut state, WSMessage::PublishQuestion(PublishQuestion { id, secs: 10 }));
    let to_student = receives(&r, 2);
    assert!(matches!(to_student[..], [ClientMessage::QuestionPublication(p)] if p.secs == 10 && p.options == option_texts()));

    let r = s.process_message(&mut state, WSMessage::AnswerQuestion(QuestionAnswer { id: id.0, answer: 1 }));
    assert!(matches!(receives(&r, 2)[..], [ClientMessage::Acknowledge]));
    assert!(matches!(receives(&r, 1)[..], [ClientMessage::QuestionsInfo(v)] if v[0].answers == vec![0, 1, 0]));

    let r = s.process_message(&mut state, WSMessage::AnswerQuestion(QuestionAnswer { id: id.0, answer: 3 }));
    assert_eq!(r.len(), 1);
    assert_eq!(error_text(&r[0]), "Invalid answer: 3.");

    let r = t.process_message(
        &mut state,
        WSMessage::ModifyQuestion(QuestionModification {
            id: id.0,
            title: Some("new title".to_string()),
            options: Some(vec!["option2".to_string(), "an option".to_string()]),
        }),
    );
    assert!(matches!(receives(&r, 2)[..], [ClientMessage::QuestionsInfo(v)] if v[0].title == "new title" && v[0].answers == vec![1, 0]));

    let r = t.process_message(&mut state, WSMessage::DeleteQuestion(id));
    assert_eq!(r.len(), 3);
    assert!(matches!(receives(&r, 2)[..], [ClientMessage::QuestionDelete(d)] if *d == id));
    assert!(matches!(receives(&r, 1)[..], [ClientMessage::QuestionsInfo(v)] if v.is_empty()));
}

#[test]
fn disconnect_clears_answers_and_tells_teacher() {
    let mut state = state_with(&["test_room"]);
    let mut t = WSSession::with_id(1);
    let mut s = WSSession::with_id(2);
    let mut s2 = WSSession::with_id(3);
    join(&mut t, &mut state, "test_room", ConnectionType::Teacher);
    join(&mut s, &mut state, "test_room", ConnectionType::Student);
    join(&mut s2, &mut state, "test_room", ConnectionType::Student);
    state.rooms[0].insert_question(77, Question { title: "test question".to_string(), options: option_texts() });
    s.process_message(&mut state, WSMessage::AnswerQuestion(QuestionAnswer { id: 77, answer: 2 }));
    s2.process_message(&mut state, WSMessage::AnswerQuestion(QuestionAnswer { id: 77, answer: 2 }));
    assert_eq!(state.rooms[0].questions[0].1.summary(), vec![0, 0, 2]);
    let r = s.stopped(&mut state);
    assert_eq!(state.rooms[0].questions[0].1.summary(), vec![0, 0, 1]);
    let to_teacher = receives(&r, 1);
    assert!(to_teacher.iter().any(|m| matches!(m, ClientMessage::QuestionsInfo(v) if v[0].answers == vec![0, 0, 1])));
    assert!(to_teacher.iter().any(|m| matches!(m, ClientMessage::RoomInfo(i) if i.connections == 1)));
    assert!(receives(&r, 3).iter().all(|m| matches!(m, ClientMessage::RoomInfo(_))));
    assert!(receives(&r, 2).is_empty());
    assert!(s.room.is_none());
}

#[test]
fn unknown_question_id_is_reported() {
    let mut state = state_with(&["test_room"]);
    let mut t = WSSession::with_id(1);
    join(&mut t, &mut state, "test_room", ConnectionType::Teacher);
    let r = t.process_message(&mut state, WSMessage::DeleteQuestion(QuestionId(1)));
    assert_eq!(error_text(&r[0]), "Invalid question id: 00000000-0000-0000-0000-000000000001.");
}

#[test]
fn deleted_room_makes_session_fail() {
    let mut state = state_with(&["test_room"]);
    let mut s = WSSession::with_id(1);
    join(&mut s, &mut state, "test_room", ConnectionType::Student);
    state.delete_room(&"test_room".to_string()).unwrap();
    let r = s.process_message(&mut state, WSMessage::ChooseCup(CupColor::Red));
    assert_eq!(error_text(&r[0]), "Invalid room: \"test_room\".");
    assert!(s.stopped(&mut state).is_empty());
}

#[test]
fn parse_error_reply_goes_to_sender() {
    let s = WSSession::with_id(5);
    let r = s.parse_error_reply();
    assert_eq!(r.len(), 1);
    assert_eq!(r[0].recipients, vec![5]);
    assert_eq!(error_text(&r[0]), "Failed to parse websocket message.");
}

#[test]
fn fresh_sessions_get_distinct_ids() {
    let a = WSSession::new();
    let b = WSSession::new();
    assert_ne!(a.id, b.id);
    assert!(a.room.is_none());
}

#[test]
fn heartbeat_timeout_is_strict() {
    assert!(!client_timed_out(1000, 1500, 500));
    assert!(client_timed_out(1000, 1501, 500));
    assert!(!client_timed_out(2000, 1000, 0));
}

#[test]
fn teacher_answering_unknown_question_gets_question_error() {
    let mut state = state_with(&["test_room"]);
    let mut t = WSSession::with_id(1);
    join(&mut t, &mut state, "test_room", ConnectionType::Teacher);
    let r = t.process_message(&mut state, WSMessage::AnswerQuestion(QuestionAnswer { id: 1, answer: 0 }));
    assert_eq!(r.len(), 1);
    assert_eq!(error_text(&r[0]), "Invalid question id: 00000000-0000-0000-0000-000000000001.");
    state.rooms[0].insert_question(1, Question { title: "q".to_string(), options: option_texts() });
    let r = t.process_message(&mut state, WSMessage::AnswerQuestion(QuestionAnswer { id: 1, answer: 0 }));
    assert_eq!(error_text(&r[0]), "Invalid client id.");
}

#[test]
fn session_is_placed_only_where_it_is_connected() {
    let mut state = state_with(&["room1", "room2"]);
    let mut s = WSSession::with_id(1);
    assert!(s.is_placed(&state));
    join(&mut s, &mut state, "room1", ConnectionType::Student);
    assert!(s.is_placed(&state));
    let stray = WSSession::with_id(1);
    assert!(!stray.is_placed(&state));
    join(&mut s, &mut state, "room2", ConnectionType::Teacher);
    assert!(s.is_placed(&state));
    assert_eq!(state.rooms[0].summary().connections, 0);
    assert_eq!(state.rooms[1].teacher_connections, vec![1]);
    s.stopped(&mut state);
    assert!(s.is_placed(&state));
    assert!(state.rooms[1].teacher_connections.is_empty());
}
