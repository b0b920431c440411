//! The registry of rooms, owned as one value; callers serialize access to it.
use vstd::prelude::*;
use crate::error::CupsError;
use crate::room::RoomState;
use crate::room::lemma_remove_keeps_distinct;

verus! {

/// The names of a list of rooms.
pub open spec fn room_names(rooms: Seq<RoomState>) -> Seq<Seq<char>> {
    rooms.map_values(|r: RoomState| r.name@)
}

/// Every room by name.
#[derive(Debug)]
pub struct AppState {
    /// Each room once by name.
    pub rooms: Vec<RoomState>,
}

/// Changing one well-formed room in place, under its name, keeps the registry
/// well formed and every room where it was.
pub proof fn lemma_same_except_wf(old: AppState, new: AppState, k: int)
    requires
        old.wf(),
        new.same_except(&old, k),
        new.rooms@[k].wf(),
    ensures
        new.wf(),
        forall|n: Seq<char>| #[trigger] new.has_room(n) == old.has_room(n),
        forall|n: Seq<char>| old.has_room(n) ==> #[trigger] new.room_at(n) == old.room_at(n),
{
    assert(room_names(new.rooms@) =~= room_names(old.rooms@));
    assert forall|j: int| 0 <= j < new.rooms@.len() implies (#[trigger] new.rooms@[j]).wf() by {
        if j != k {
            assert(new.rooms@[j] == old.rooms@[j]);
        }
    }
    assert forall|n: Seq<char>| old.has_room(n) implies #[trigger] new.room_at(n) == old.room_at(n) by {
        let i = choose|i: int| 0 <= i < room_names(old.rooms@).len() && room_names(old.rooms@)[i] == n;
        assert(old.rooms@[i].name@ == n);
        let a = old.room_at(n);
        let b = new.room_at(n);
        assert(room_names(old.rooms@)[a] == n);
        assert(room_names(new.rooms@)[b] == n);
    }
}

impl AppState {
    /// Room names are unique and every room is well formed.
    pub open spec fn wf(&self) -> bool {
        &&& room_names(self.rooms@).no_duplicates()
        &&& forall|k: int| 0 <= k < self.rooms@.len() ==> (#[trigger] self.rooms@[k]).wf()
    }

    pub open spec fn has_room(&self, name: Seq<char>) -> bool {
        room_names(self.rooms@).contains(name)
    }

    /// The position of the room called `name` (meaningful when there is one).
    pub open spec fn room_at(&self, name: Seq<char>) -> int {
        choose|k: int| 0 <= k < self.rooms@.len() && self.rooms@[k].name@ == name
    }

    /// The rooms other than the one at `k` are as in `other`.
    pub open spec fn same_except(&self, other: &AppState, k: int) -> bool {
        &&& self.rooms@.len() == other.rooms@.len()
        &&& 0 <= k < other.rooms@.len()
        &&& self.rooms@[k].name == other.rooms@[k].name
        &&& forall|j: int| 0 <= j < other.rooms@.len() && j != k ==> self.rooms@[j] == other.rooms@[j]
    }

    pub fn new() -> (r: Self)
        ensures
            r.wf(),
            r.rooms@.len() == 0,
    {
        let r = AppState { rooms: Vec::new() };
        assert(room_names(r.rooms@) =~= Seq::<Seq<char>>::empty());
        r
    }

    /// The position of the room called `name`.
    pub fn find_room(&self, name: &String) -> (r: Option<usize>)
        requires
            self.wf(),
        ensures
            match r {
                Some(k) => k < self.rooms@.len() && self.rooms@[k as int].name@ == name@ && k
                    == self.room_at(name@),
                None => !self.has_room(name@) && forall|j: int|
                    0 <= j < self.rooms@.len() ==> self.rooms@[j].name@ != name@,
            },
            r is Some == self.has_room(name@),
    {
        let mut k: usize = 0;
        while k < self.rooms.len()
            invariant
                self.wf(),
                k <= self.rooms@.len(),
                forall|j: int| 0 <= j < k ==> self.rooms@[j].name@ != name@,
            decreases self.rooms@.len() - k,
        {
            if self.rooms[k].name == *name {
                proof {
                    assert(room_names(self.rooms@)[k as int] == name@);
                    assert(0 <= k < self.rooms@.len() && self.rooms@[k as int].name@ == name@);
                    let c = self.room_at(name@);
                    assert(room_names(self.rooms@)[c] == name@);
                    assert(c == k);
                }
                return Some(k);
            }
            k = k + 1;
        }
        assert(!room_names(self.rooms@).contains(name@));
        None
    }

    /// Adds an empty room called `name`, unless there is one.
    pub fn create_room(&mut self, name: String) -> (r: Result<(), CupsError>)
        requires
            old(self).wf(),
        ensures
            final(self).wf(),
            old(self).has_room(name@) ==> r == Err::<(), CupsError>(CupsError::RoomAlreadyExists(name))
                && *final(self) == *old(self),
            !old(self).has_room(name@) ==> r is Ok && final(self).rooms@.drop_last() == old(self).rooms@ && final(self).rooms@.len() == old(self).rooms@.len() + 1
                && final(self).rooms@.last().name == name && final(self).rooms@.last().student_connections@.len() == 0
                && final(self).rooms@.last().teacher_connections@.len() == 0
                && final(self).rooms@.last().questions@.len() == 0,
    {
        if self.find_room(&name).is_some() {
            return Err(CupsError::RoomAlreadyExists(name));
        }
        let ghost prev = *self;
        let room = RoomState::new(name);
        self.rooms.push(room);
        assert(room_names(self.rooms@) =~= room_names(prev.rooms@).push(name@));
        assert(self.rooms@.drop_last() =~= prev.rooms@);
        Ok(())
    }

    /// Removes the room called `name` with everything in it.
    pub fn delete_room(&mut self, name: &String) -> (r: Result<(), CupsError>)
        requires
            old(self).wf(),
        ensures
            final(self).wf(),
            !old(self).has_room(name@) ==> r == Err::<(), CupsError>(
                CupsError::NoExistingRoom(*name),
            ) && *final(self) == *old(self),
            old(self).has_room(name@) ==> r is Ok && final(self).rooms@ == old(self).rooms@.remove(
                old(self).room_at(name@),
            ),
    {
        match self.find_room(name) {
            None => Err(CupsError::NoExistingRoom(name.clone())),
            Some(k) => {
                let ghost prev = *self;
                proof {
                    lemma_remove_keeps_distinct(room_names(prev.rooms@), k as int);
                }
                self.rooms.remove(k);
                assert(room_names(self.rooms@) =~= room_names(prev.rooms@).remove(k as int));
                assert forall|j: int| 0 <= j < self.rooms@.len() implies (
                #[trigger] self.rooms@[j]).wf() by {
                    let jj = if j < k { j } else { j + 1 };
                    assert(self.rooms@[j] == prev.rooms@[jj]);
                }
                Ok(())
            },
        }
    }

    /// The names of all rooms.
    pub fn list_rooms(&self) -> (r: Vec<String>)
        ensures
            r@.len() == self.rooms@.len(),
            forall|k: int| 0 <= k < r@.len() ==> r@[k] == #[trigger] self.rooms@[k].name,
    {
        let mut r: Vec<String> = Vec::new();
        let n = self.rooms.len();
        for k in 0..n
            invariant
                n == self.rooms@.len(),
                r@.len() == k,
                forall|j: int| 0 <= j < k ==> r@[j] == #[trigger] self.rooms@[j].name,
        {
            r.push(self.rooms[k].name.clone());
        }
        r
    }
}

} // verus!
