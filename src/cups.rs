//! Room administration: listing, creating and deleting rooms.
use vstd::prelude::*;
use crate::error::CupsError;
use crate::state::AppState;

verus! {

/// The names of all rooms, each once.
#[derive(Debug, Default)]
pub struct CupsInfo {
    pub rooms: Vec<String>,
}

/// A request for a new room.
#[derive(Debug)]
pub struct CreateRoom {
    pub new_room: String,
}

/// A request to delete a room.
#[derive(Debug)]
pub struct DeleteRoom {
    pub room: String,
}

/// The names of all rooms.
pub fn get_cups_info(state: &AppState) -> (r: CupsInfo)
    ensures
        r.rooms@.len() == state.rooms@.len(),
        forall|k: int| 0 <= k < r.rooms@.len() ==> r.rooms@[k] == #[trigger] state.rooms@[k].name,
{
    CupsInfo { rooms: state.list_rooms() }
}

/// Creates an empty room under the requested name, unless it is taken.
pub fn create_room(form: CreateRoom, state: &mut AppState) -> (r: Result<(), CupsError>)
    requires
        old(state).wf(),
    ensures
        final(state).wf(),
        old(state).has_room(form.new_room@) ==> r == Err::<(), CupsError>(
            CupsError::RoomAlreadyExists(form.new_room),
        ) && *final(state) == *old(state),
        !old(state).has_room(form.new_room@) ==> r is Ok && final(state).rooms@.drop_last() == old(state).rooms@ && final(state).rooms@.len() == old(state).rooms@.len() + 1
            && final(state).rooms@.last().name == form.new_room
            && final(state).rooms@.last().student_connections@.len() == 0
            && final(state).rooms@.last().teacher_connections@.len() == 0
            && final(state).rooms@.last().questions@.len() == 0,
{
    state.create_room(form.new_room)
}

/// Deletes the requested room with everything in it and returns the names of
/// the rooms left.
pub fn delete_room(form: DeleteRoom, state: &mut AppState) -> (r: Result<CupsInfo, CupsError>)
    requires
        old(state).wf(),
    ensures
        final(state).wf(),
        !old(state).has_room(form.room@) ==> r is Err && r->Err_0 == CupsError::NoExistingRoom(
            form.room,
        ) && *final(state) == *old(state),
        old(state).has_room(form.room@) ==> r is Ok && final(state).rooms@ == old(state).rooms@.remove(old(state).room_at(form.room@)) && r->Ok_0.rooms@.len() == final(state).rooms@.len() && forall|k: int|
            0 <= k < final(state).rooms@.len() ==> r->Ok_0.rooms@[k] == #[trigger] final(state).rooms@[k].name,
{
    match state.delete_room(&form.room) {
        Ok(()) => Ok(get_cups_info(state)),
        Err(e) => Err(e),
    }
}

} // verus!
