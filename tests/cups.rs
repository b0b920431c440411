use interactive_class::cups::{create_room, delete_room, get_cups_info, CreateRoom, DeleteRoom};
use interactive_class::error::{CupsError, StateError, WSError};
use interactive_class::message::ClientMessage;
use interactive_class::state::AppState;

fn names(state: &AppState) -> Vec<String> {
    let mut v = get_cups_info(state).rooms;
    v.sort();
    v
}

#[test]
fn no_rooms_at_start() {
    let state = AppState::new();
    assert!(get_cups_info(&state).rooms.is_empty());
}

#[test]
fn rooms_are_listed_after_creation() {
    let mut state = AppState::new();
    create_room(CreateRoom { new_room: "room1".to_string() }, &mut state).unwrap();
    create_room(CreateRoom { new_room: "room2".to_string() }, &mut state).unwrap();
    assert_eq!(names(&state), vec!["room1".to_string(), "room2".to_string()]);
}

#[test]
fn duplicate_room_is_refused() {
    let mut state = AppState::new();
    create_room(CreateRoom { new_room: "test_room".to_string() }, &mut state).unwrap();
    let e = create_room(CreateRoom { new_room: "test_room".to_string() }, &mut state).unwrap_err();
    assert!(matches!(&e, CupsError::RoomAlreadyExists(n) if n == "test_room"));
    assert_eq!(e.message(), "Room \"test_room\" already exists.");
    assert_eq!(names(&state).len(), 1);
}

#[test]
fn deleting_rooms() {
    let mut state = AppState::new();
    create_room(CreateRoom { new_room: "room1".to_string() }, &mut state).unwrap();
    create_room(CreateRoom { new_room: "room2".to_string() }, &mut state).unwrap();
    let left = delete_room(DeleteRoom { room: "room1".to_string() }, &mut state).unwrap();
    assert_eq!(left.rooms, vec!["room2".to_string()]);
    let e = delete_room(DeleteRoom { room: "room1".to_string() }, &mut state).unwrap_err();
    assert_eq!(e.message(), "Room \"room1\" doesn't exists.");
    assert_eq!(CupsError::UnexpectedError.message(), "Something went wrong.");
}

#[test]
fn error_texts() {
    assert_eq!(StateError::InvalidAnswer(12).message(), "Invalid answer: 12.");
    assert_eq!(StateError::InvalidId.message(), "Invalid client id.");
    assert_eq!(WSError::InvalidRoom("a\"b".to_string()).message(), "Invalid room: \"a\\\"b\".");
    assert_eq!(WSError::NoRoom.message(), "No connected to any room.");
    assert_eq!(
        WSError::InvalidQuestionId(0x0123456789abcdef0123456789abcdef).message(),
        "Invalid question id: 01234567-89ab-cdef-0123-456789abcdef."
    );
    assert!(matches!(ClientMessage::internal_error(), ClientMessage::Error(e) if e == "Internal server error"));
    assert!(matches!(ClientMessage::from_error(&WSError::AlreadyConnected), ClientMessage::Error(e) if e == "Client already connected.."));
}

#[test]
fn state_errors_map_to_session_errors() {
    assert!(matches!(WSError::from(StateError::InvalidId), WSError::InvalidClientId(StateError::InvalidId)));
    assert!(matches!(
        WSError::from(StateError::InvalidAnswer(4)),
        WSError::InvalidAnswer(StateError::InvalidAnswer(4))
    ));
    assert_eq!(WSError::from(StateError::InvalidAnswer(4)).message(), "Invalid answer: 4.");
}
