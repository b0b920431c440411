//! One client connection: its identity and the room it is in, how each task
//! it sends changes the rooms, and which connections hear of it.
use vstd::prelude::*;
use crate::error::{StateError, WSError};
use crate::message::{
    ClientMessage, ConnectionType, CupColor, PublishQuestion, Question, QuestionAnswer,
    QuestionId, QuestionModification, RoomConnectInfo, WSMessage,
};
use crate::room::{
    BroadcastTarget, RoomState, answer_recorded, connection_added, connection_removed,
    cup_chosen, new_uuid, publication_of, question_added, question_deleted, question_modified,
    questions_info_of, room_info_of,
};
use crate::state::{AppState, lemma_same_except_wf, room_names};

verus! {

/// A message and the connections it goes to.
#[derive(Debug)]
pub struct Delivery {
    pub recipients: Vec<u128>,
    pub message: ClientMessage,
}

/// `d` goes to the sender `id` alone.
pub open spec fn to_sender(d: Delivery, id: u128) -> bool {
    d.recipients@ == seq![id]
}

/// `r` is the single reply that reports `e` to `id`.
pub open spec fn error_reply(r: Seq<Delivery>, id: u128, e: WSError) -> bool {
    &&& r.len() == 1
    &&& to_sender(r[0], id)
    &&& r[0].message is Error
    &&& r[0].message->Error_0@ == e.text()
}

pub open spec fn is_room_info(m: ClientMessage, room: RoomState) -> bool {
    m is RoomInfo && room_info_of(m->RoomInfo_0, room)
}

pub open spec fn is_questions_info(m: ClientMessage, room: RoomState) -> bool {
    m is QuestionsInfo && questions_info_of(m->QuestionsInfo_0@, room.questions@)
}

/// `d` goes, once each, to the connections of `target` in `room` but `sender`.
pub open spec fn sent_to(d: Delivery, room: RoomState, target: BroadcastTarget, sender: u128) -> bool {
    &&& d.recipients@.no_duplicates()
    &&& forall|x: u128| #[trigger] d.recipients@.contains(x) == (room.in_target(x, target) && x != sender)
}

/// A live connection.
#[derive(Debug)]
pub struct WSSession {
    pub id: u128,
    /// The room joined, if any.
    pub room: Option<String>,
}

/// What keeps session `s` from acting in its room of `st`, if anything.
pub open spec fn room_error(s: WSSession, st: AppState) -> Option<WSError> {
    match s.room {
        None => Some(WSError::NoRoom),
        Some(n) => if st.has_room(n@) {
            None
        } else {
            Some(WSError::InvalidRoom(n))
        },
    }
}

/// Every room that holds the id of `s` is the room `s.room` names; a session
/// in no room is connected nowhere.
pub open spec fn placed(s: WSSession, st: AppState) -> bool {
    forall|j: int|
        0 <= j < st.rooms@.len() && #[trigger] st.rooms@[j].holds(s.id) ==> s.room is Some
            && st.rooms@[j].name@ == s.room->Some_0@
}

/// A placed session is connected to at most one room.
pub proof fn law_one_room(s: WSSession, st: AppState, j1: int, j2: int)
    requires
        st.wf(),
        placed(s, st),
        0 <= j1 < st.rooms@.len(),
        0 <= j2 < st.rooms@.len(),
        st.rooms@[j1].holds(s.id),
        st.rooms@[j2].holds(s.id),
    ensures
        j1 == j2,
{
    lemma_same_name(st, j1, j2);
}

/// Two rooms of a well-formed registry with one name are one room.
proof fn lemma_same_name(st: AppState, j1: int, j2: int)
    requires
        st.wf(),
        0 <= j1 < st.rooms@.len(),
        0 <= j2 < st.rooms@.len(),
        st.rooms@[j1].name@ == st.rooms@[j2].name@,
    ensures
        j1 == j2,
{
    assert(room_names(st.rooms@)[j1] == room_names(st.rooms@)[j2]);
}

/// Changing one room without connecting `s.id` to it keeps `s` placed.
proof fn lemma_placed_kept(s: WSSession, old: AppState, new: AppState, k: int)
    requires
        placed(s, old),
        new.same_except(&old, k),
        new.rooms@[k].holds(s.id) ==> old.rooms@[k].holds(s.id),
    ensures
        placed(s, new),
{
    assert forall|j: int|
        0 <= j < new.rooms@.len() && #[trigger] new.rooms@[j].holds(s.id) implies s.room is Some
            && new.rooms@[j].name@ == s.room->Some_0@ by {
        if j != k {
            assert(new.rooms@[j] == old.rooms@[j]);
        } else {
            assert(old.rooms@[j].holds(s.id));
        }
    }
}

/// Leaving the room `s` is placed in leaves it connected nowhere.
proof fn lemma_left_nowhere(s: WSSession, old: AppState, new: AppState, r: Seq<Delivery>)
    requires
        old.wf(),
        placed(s, old),
        left_outcome(s.id, s.room, old, new, r),
    ensures
        forall|j: int| 0 <= j < new.rooms@.len() ==> !(#[trigger] new.rooms@[j]).holds(s.id),
{
    assert forall|j: int| 0 <= j < new.rooms@.len() implies !(#[trigger] new.rooms@[j]).holds(s.id) by {
        if new.rooms@[j].holds(s.id) {
            match s.room {
                None => {
                    assert(old.rooms@[j].holds(s.id));
                },
                Some(n) => {
                    if !old.has_room(n@) {
                        assert(old.rooms@[j].holds(s.id));
                        assert(room_names(old.rooms@)[j] == n@);
                    } else {
                        let k = old.room_at(n@);
                        assert(old.rooms@[k].name@ == n@);
                        if j != k {
                            assert(new.rooms@[j] == old.rooms@[j]);
                            lemma_same_name(old, j, k);
                        }
                    }
                },
            }
        }
    }
}

/// After a join of the room called `name` at `k`, and leaving `previous`, the
/// only room holding the session is the one joined.
proof fn lemma_connect_placed(
    s: WSSession,
    name: Seq<char>,
    k: int,
    previous: Option<String>,
    old: AppState,
    mid: AppState,
    new: AppState,
    r: Seq<Delivery>,
)
    requires
        old.wf(),
        mid.wf(),
        placed(s, old),
        0 <= k < old.rooms@.len(),
        old.rooms@[k].name@ == name,
        mid.same_except(&old, k),
        previous == match s.room {
            Some(p) => if p@ == name {
                None
            } else {
                Some(p)
            },
            None => None,
        },
        left_outcome(s.id, previous, mid, new, r),
    ensures
        forall|j: int|
            0 <= j < new.rooms@.len() && #[trigger] new.rooms@[j].holds(s.id) ==> new.rooms@[j].name@
                == name,
{
    assert forall|j: int|
        0 <= j < new.rooms@.len() && #[trigger] new.rooms@[j].holds(s.id) implies new.rooms@[j].name@
            == name by {
        match previous {
            None => {
                if j != k {
                    assert(mid.rooms@[j] == old.rooms@[j]);
                    assert(old.rooms@[j].holds(s.id));
                }
            },
            Some(p) => {
                if !mid.has_room(p@) {
                    if j != k {
                        assert(mid.rooms@[j] == old.rooms@[j]);
                        assert(old.rooms@[j].holds(s.id));
                        assert(room_names(mid.rooms@)[j] == p@);
                    }
                } else {
                    let k2 = mid.room_at(p@);
                    assert(mid.rooms@[k2].name@ == p@);
                    if j != k2 {
                        assert(new.rooms@[j] == mid.rooms@[j]);
                        if j != k {
                            assert(mid.rooms@[j] == old.rooms@[j]);
                            assert(old.rooms@[j].holds(s.id));
                            lemma_same_name(mid, j, k2);
                        }
                    }
                }
            },
        }
    }
}

/// The position of the room of `s` in `st`.
pub open spec fn room_index(s: WSSession, st: AppState) -> int {
    st.room_at(s.room->Some_0@)
}

/// Leaving room `room` (when it exists): connection `id` and its answers are
/// removed, every other connection gets the room's new state, and teachers get
/// the questions.
pub open spec fn left_outcome(
    id: u128,
    room: Option<String>,
    old: AppState,
    new: AppState,
    r: Seq<Delivery>,
) -> bool {
    match room {
        None => new == old && r.len() == 0,
        Some(n) => if !old.has_room(n@) {
            new == old && r.len() == 0
        } else {
            let k = old.room_at(n@);
            &&& new.same_except(&old, k)
            &&& connection_removed(old.rooms@[k], new.rooms@[k], id)
            &&& r.len() == 2
            &&& is_room_info(r[0].message, new.rooms@[k])
            &&& sent_to(r[0], new.rooms@[k], BroadcastTarget::All, id)
            &&& is_questions_info(r[1].message, new.rooms@[k])
            &&& sent_to(r[1], new.rooms@[k], BroadcastTarget::Teachers, id)
        },
    }
}

/// Joining the room named in `info`: the sender gets the room's state, and
/// teachers the question list too; when a student joins, the room's teachers
/// get its new state. A session that was in another room leaves it.
pub open spec fn room_connect_outcome(
    s: WSSession,
    s2: WSSession,
    old: AppState,
    new: AppState,
    info: RoomConnectInfo,
    r: Seq<Delivery>,
) -> bool {
    let name = info.room_name;
    if !old.has_room(name@) {
        error_reply(r, s.id, WSError::InvalidRoom(name)) && new == old && s2 == s
    } else {
        let k = old.room_at(name@);
        if old.rooms@[k].is_student(s.id) || old.rooms@[k].is_teacher(s.id) {
            error_reply(r, s.id, WSError::AlreadyConnected) && new == old && s2 == s
        } else {
            let previous = match s.room {
                Some(p) => if p@ == name@ {
                    None
                } else {
                    Some(p)
                },
                None => None,
            };
            &&& s2.id == s.id
            &&& s2.room == Some(name)
            &&& r.len() >= 2
            &&& exists|mid: AppState|
                {
                    &&& #[trigger] mid.same_except(&old, k)
                    &&& connection_added(old.rooms@[k], mid.rooms@[k], s.id, info.connection_type)
                    &&& to_sender(r[0], s.id)
                    &&& is_room_info(r[0].message, mid.rooms@[k])
                    &&& match info.connection_type {
                        ConnectionType::Student => is_room_info(r[1].message, mid.rooms@[k])
                            && sent_to(r[1], mid.rooms@[k], BroadcastTarget::Teachers, s.id),
                        ConnectionType::Teacher => to_sender(r[1], s.id) && is_questions_info(
                            r[1].message,
                            mid.rooms@[k],
                        ),
                    }
                    &&& left_outcome(s.id, previous, mid, new, r.skip(2))
                }
        }
    }
}

/// Choosing a cup color: the sender gets an acknowledgement and the room's
/// teachers its new state.
pub open spec fn choose_cup_outcome(
    s: WSSession,
    old: AppState,
    new: AppState,
    color: CupColor,
    r: Seq<Delivery>,
) -> bool {
    match room_error(s, old) {
        Some(e) => error_reply(r, s.id, e) && new == old,
        None => {
            let k = room_index(s, old);
            if !old.rooms@[k].is_student(s.id) {
                error_reply(r, s.id, WSError::InvalidClientId(StateError::InvalidId)) && new == old
            } else {
                &&& new.same_except(&old, k)
                &&& cup_chosen(old.rooms@[k], new.rooms@[k], s.id, color)
                &&& r.len() == 2
                &&& to_sender(r[0], s.id)
                &&& r[0].message is Acknowledge
                &&& is_room_info(r[1].message, new.rooms@[k])
                &&& sent_to(r[1], new.rooms@[k], BroadcastTarget::Teachers, s.id)
            }
        },
    }
}

/// Creating a question: the sender and the room's teachers get the question
/// list. When the id drawn is taken, which needs a question already in the
/// room, the sender gets an internal error.
pub open spec fn create_question_outcome(
    s: WSSession,
    old: AppState,
    new: AppState,
    q: Question,
    r: Seq<Delivery>,
) -> bool {
    match room_error(s, old) {
        Some(e) => error_reply(r, s.id, e) && new == old,
        None => {
            let k = room_index(s, old);
            &&& new.same_except(&old, k)
            &&& (exists|id: u128| #[trigger] question_added(old.rooms@[k], new.rooms@[k], id, q.title, q.options))
                ==> {
                &&& r.len() == 2
                &&& to_sender(r[0], s.id)
                &&& is_questions_info(r[0].message, new.rooms@[k])
                &&& is_questions_info(r[1].message, new.rooms@[k])
                &&& sent_to(r[1], new.rooms@[k], BroadcastTarget::Teachers, s.id)
            }
            &&& (exists|id: u128| #[trigger] question_added(old.rooms@[k], new.rooms@[k], id, q.title, q.options))
                || (old.rooms@[k].questions@.len() > 0 && new.rooms@[k] == old.rooms@[k]
                && r.len() == 1 && to_sender(r[0], s.id)
                && r[0].message is Error && r[0].message->Error_0@ == "Internal server error"@)
        },
    }
}

/// Publishing a question: the sender and every other connection of the room
/// get the question and its time.
pub open spec fn publish_outcome(
    s: WSSession,
    old: AppState,
    new: AppState,
    p: PublishQuestion,
    r: Seq<Delivery>,
) -> bool {
    &&& new == old
    &&& match room_error(s, old) {
        Some(e) => error_reply(r, s.id, e),
        None => {
            let room = old.rooms@[room_index(s, old)];
            if !room.has_question(p.id.0) {
                error_reply(r, s.id, WSError::InvalidQuestionId(p.id.0))
            } else {
                let q = room.questions@[room.question_at(p.id.0)];
                &&& r.len() == 2
                &&& to_sender(r[0], s.id)
                &&& r[0].message is QuestionPublication
                &&& publication_of(r[0].message->QuestionPublication_0, q, p.secs)
                &&& r[1].message is QuestionPublication
                &&& publication_of(r[1].message->QuestionPublication_0, q, p.secs)
                &&& sent_to(r[1], room, BroadcastTarget::All, s.id)
            }
        },
    }
}

/// Deleting a question: the sender and the room's teachers get the question
/// list, its students the id of the deleted question.
pub open spec fn delete_question_outcome(
    s: WSSession,
    old: AppState,
    new: AppState,
    id: QuestionId,
    r: Seq<Delivery>,
) -> bool {
    match room_error(s, old) {
        Some(e) => error_reply(r, s.id, e) && new == old,
        None => {
            let k = room_index(s, old);
            if !old.rooms@[k].has_question(id.0) {
                error_reply(r, s.id, WSError::InvalidQuestionId(id.0)) && new == old
            } else {
                &&& new.same_except(&old, k)
                &&& question_deleted(old.rooms@[k], new.rooms@[k], id.0)
                &&& r.len() == 3
                &&& to_sender(r[0], s.id)
                &&& is_questions_info(r[0].message, new.rooms@[k])
                &&& is_questions_info(r[1].message, new.rooms@[k])
                &&& sent_to(r[1], new.rooms@[k], BroadcastTarget::Teachers, s.id)
                &&& r[2].message == ClientMessage::QuestionDelete(id)
                &&& sent_to(r[2], new.rooms@[k], BroadcastTarget::Students, s.id)
            }
        },
    }
}

/// Changing a question: the sender and every other connection of the room get
/// the question list.
pub open spec fn modify_question_outcome(
    s: WSSession,
    old: AppState,
    new: AppState,
    m: QuestionModification,
    r: Seq<Delivery>,
) -> bool {
    match room_error(s, old) {
        Some(e) => error_reply(r, s.id, e) && new == old,
        None => {
            let k = room_index(s, old);
            if !old.rooms@[k].has_question(m.id) {
                error_reply(r, s.id, WSError::InvalidQuestionId(m.id)) && new == old
            } else {
                &&& new.same_except(&old, k)
                &&& question_modified(old.rooms@[k], new.rooms@[k], m.id, m.title, m.options)
                &&& r.len() == 2
                &&& to_sender(r[0], s.id)
                &&& is_questions_info(r[0].message, new.rooms@[k])
                &&& is_questions_info(r[1].message, new.rooms@[k])
                &&& sent_to(r[1], new.rooms@[k], BroadcastTarget::All, s.id)
            }
        },
    }
}

/// Answering a question: the sender gets an acknowledgement and the room's
/// teachers the question list.
pub open spec fn answer_question_outcome(
    s: WSSession,
    old: AppState,
    new: AppState,
    a: QuestionAnswer,
    r: Seq<Delivery>,
) -> bool {
    match room_error(s, old) {
        Some(e) => error_reply(r, s.id, e) && new == old,
        None => {
            let k = room_index(s, old);
            let room = old.rooms@[k];
            if !room.has_question(a.id) {
                error_reply(r, s.id, WSError::InvalidQuestionId(a.id)) && new == old
            } else if !room.is_student(s.id) {
                error_reply(r, s.id, WSError::InvalidClientId(StateError::InvalidId)) && new == old
            } else if a.answer >= room.questions@[room.question_at(a.id)].1.options@.len() {
                error_reply(r, s.id, WSError::InvalidAnswer(StateError::InvalidAnswer(a.answer)))
                    && new == old
            } else {
                &&& new.same_except(&old, k)
                &&& answer_recorded(room, new.rooms@[k], s.id, a.id, a.answer)
                &&& r.len() == 2
                &&& to_sender(r[0], s.id)
                &&& r[0].message is Acknowledge
                &&& is_questions_info(r[1].message, new.rooms@[k])
                &&& sent_to(r[1], new.rooms@[k], BroadcastTarget::Teachers, s.id)
            }
        },
    }
}

/// Whether a client last heard from at `last_activity_ms` has been silent for
/// longer than `timeout_ms` at `now_ms` (an earlier `now_ms` counts as no time
/// passed).
pub fn client_timed_out(last_activity_ms: u64, now_ms: u64, timeout_ms: u64) -> (r: bool)
    ensures
        r == (now_ms as int - last_activity_ms as int > timeout_ms as int),
{
    now_ms > last_activity_ms && now_ms - last_activity_ms > timeout_ms
}

/// Disconnecting drops the student's answer: the count of the option it chose
/// falls by exactly one, and every remaining teacher of the room gets the new
/// question list.
pub proof fn law_disconnect_clears_answers(
    id: u128,
    name: String,
    old: AppState,
    new: AppState,
    r: Seq<Delivery>,
    q: int,
    teacher: u128,
)
    requires
        old.wf(),
        old.has_room(name@),
        left_outcome(id, Some(name), old, new, r),
        0 <= q < old.rooms@[old.room_at(name@)].questions@.len(),
        old.rooms@[old.room_at(name@)].questions@[q].1.answer_map().contains_key(id),
        old.rooms@[old.room_at(name@)].is_teacher(teacher),
        teacher != id,
    ensures
        ({
            let k = old.room_at(name@);
            let before = old.rooms@[k].questions@[q].1;
            let after = new.rooms@[k].questions@[q].1;
            let chosen = before.answer_map()[id];
            &&& after.answer_count(chosen) + 1 == before.answer_count(chosen)
            &&& forall|i: usize| i != chosen ==> #[trigger] after.answer_count(i) == before.answer_count(i)
            &&& !after.answer_map().contains_key(id)
            &&& exists|j: int|
                0 <= j < r.len() && r[j].recipients@.contains(teacher) && is_questions_info(
                    r[j].message,
                    new.rooms@[k],
                )
        }),
{
    let k = old.room_at(name@);
    let before = old.rooms@[k].questions@[q];
    let after = new.rooms@[k].questions@[q];
    assert(crate::room::answer_dropped(before, after, id));
    let chosen = before.1.answer_map()[id];
    assert(after.1.answer_count(chosen) == (before.1.answer_count(chosen) - 1) as nat);
    let a = before.1.answers@;
    let w = choose|w: int| 0 <= w < a.len() && a[w].0 == id;
    assert(old.rooms@[k].wf());
    assert(before.1.wf());
    crate::question::lemma_answers_map_at(a, w);
    assert(crate::question::answer_values(a)[w] == chosen);
    assert(crate::question::answer_values(a).contains(chosen));
    vstd::seq_lib::to_multiset_contains(crate::question::answer_values(a), chosen);
    assert(crate::question::answer_values(a).to_multiset().count(chosen) > 0);
    let old_room = old.rooms@[k];
    let new_room = new.rooms@[k];
    assert(!old_room.is_student(teacher));
    if old_room.is_teacher(id) {
        let t = choose|t: int|
            0 <= t < old_room.teacher_connections@.len() && old_room.teacher_connections@[t] == id
                && new_room.teacher_connections@ == old_room.teacher_connections@.remove(t);
        crate::room::lemma_remove_keeps_distinct(old_room.teacher_connections@, t);
    }
    assert(new_room.is_teacher(teacher));
    assert(r[1].recipients@.contains(teacher));
}

/// A session connects to a room at most once: a second join of the same room
/// by the same session fails with `AlreadyConnected` and changes nothing, so
/// the room keeps the one connection the first join made.
pub proof fn law_connect_once(
    s0: WSSession,
    s1: WSSession,
    s2: WSSession,
    st0: AppState,
    st1: AppState,
    st2: AppState,
    info: RoomConnectInfo,
    again: RoomConnectInfo,
    r1: Seq<Delivery>,
    r2: Seq<Delivery>,
)
    requires
        st0.wf(),
        st1.wf(),
        st0.has_room(info.room_name@),
        !st0.rooms@[st0.room_at(info.room_name@)].is_student(s0.id),
        !st0.rooms@[st0.room_at(info.room_name@)].is_teacher(s0.id),
        room_connect_outcome(s0, s1, st0, st1, info, r1),
        again.room_name@ == info.room_name@,
        room_connect_outcome(s1, s2, st1, st2, again, r2),
    ensures
        error_reply(r2, s0.id, WSError::AlreadyConnected),
        st2 == st1,
        s2 == s1,
        ({
            let k = st0.room_at(info.room_name@);
            info.connection_type == ConnectionType::Student ==> st1.rooms@[k].student_connections@.len()
                == st0.rooms@[k].student_connections@.len() + 1
        }),
{
    let name = info.room_name;
    let k = st0.room_at(name@);
    let previous = match s0.room {
        Some(p) => if p@ == name@ {
            None
        } else {
            Some(p)
        },
        None => None,
    };
    let mid = choose|mid: AppState|
        {
            &&& #[trigger] mid.same_except(&st0, k)
            &&& connection_added(st0.rooms@[k], mid.rooms@[k], s0.id, info.connection_type)
            &&& to_sender(r1[0], s0.id)
            &&& is_room_info(r1[0].message, mid.rooms@[k])
            &&& match info.connection_type {
                ConnectionType::Student => is_room_info(r1[1].message, mid.rooms@[k]) && sent_to(
                    r1[1],
                    mid.rooms@[k],
                    BroadcastTarget::Teachers,
                    s0.id,
                ),
                ConnectionType::Teacher => to_sender(r1[1], s0.id) && is_questions_info(
                    r1[1].message,
                    mid.rooms@[k],
                ),
            }
            &&& left_outcome(s0.id, previous, mid, st1, r1.skip(2))
        };
    assert(st0.rooms@[k].name@ == name@);
    assert(mid.rooms@[k].name@ == name@);
    match info.connection_type {
        ConnectionType::Student => {
            assert(mid.rooms@[k].student_connections@.last().0 == s0.id);
            assert(crate::room::student_ids(mid.rooms@[k].student_connections@).last() == s0.id);
            assert(mid.rooms@[k].is_student(s0.id));
        },
        ConnectionType::Teacher => {
            assert(mid.rooms@[k].teacher_connections@.last() == s0.id);
            assert(mid.rooms@[k].is_teacher(s0.id));
        },
    }
    match previous {
        None => {},
        Some(p) => {
            if mid.has_room(p@) {
                let k2 = mid.room_at(p@);
                assert(mid.rooms@[k2].name@ == p@);
                assert(k2 != k);
                assert(st1.rooms@[k] == mid.rooms@[k]);
            }
        },
    }
    assert(st1.rooms@[k] == mid.rooms@[k]);
    assert(crate::state::room_names(st1.rooms@)[k] == name@);
    assert(st1.has_room(name@));
    let k1 = st1.room_at(name@);
    assert(crate::state::room_names(st1.rooms@)[k1] == name@);
    assert(k1 == k);
}

/// A cup choice reaches no student but as the sender's own acknowledgement,
/// and nobody outside the sender's room.
pub proof fn law_cup_broadcast_exclusion(
    s: WSSession,
    old: AppState,
    new: AppState,
    color: CupColor,
    r: Seq<Delivery>,
    other: u128,
)
    requires
        old.wf(),
        new.wf(),
        choose_cup_outcome(s, old, new, color, r),
        other != s.id,
    ensures
        room_error(s, old) is None && (old.rooms@[room_index(s, old)].is_student(other)
            || !old.rooms@[room_index(s, old)].is_teacher(other)) ==> forall|j: int|
            0 <= j < r.len() ==> !(#[trigger] r[j].recipients@).contains(other),
        room_error(s, old) is Some ==> forall|j: int|
            0 <= j < r.len() ==> !(#[trigger] r[j].recipients@).contains(other),
{
    if room_error(s, old) is None {
        let k = room_index(s, old);
        if old.rooms@[k].is_student(s.id) {
            let o = old.rooms@[k];
            let n = new.rooms@[k];
            assert(new.rooms@[k].teacher_connections == old.rooms@[k].teacher_connections);
            assert(n.is_teacher(other) == o.is_teacher(other));
            assert(o.wf());
            assert(!r[0].recipients@.contains(other));
        }
    }
}

/// A one-element list.
fn single<T>(x: T) -> (r: Vec<T>)
    ensures
        r@ == seq![x],
{
    let mut r: Vec<T> = Vec::new();
    r.push(x);
    r
}

/// Two messages, in order.
fn pair(a: Delivery, b: Delivery) -> (r: Vec<Delivery>)
    ensures
        r@ == seq![a, b],
{
    let mut r: Vec<Delivery> = Vec::new();
    r.push(a);
    r.push(b);
    r
}

impl WSSession {
    /// A session under a fresh random id, in no room.
    pub fn new() -> (r: Self)
        ensures
            r.room is None,
    {
        WSSession::with_id(new_uuid())
    }

    /// A session under id `id`, in no room.
    pub fn with_id(id: u128) -> (r: Self)
        ensures
            r.id == id,
            r.room is None,
    {
        WSSession { id, room: None }
    }

    /// Sets the sender's cup color.
    pub fn choose_cup(&self, state: &mut AppState, color: CupColor) -> (r: Vec<Delivery>)
        requires
            old(state).wf(),
        ensures
            final(state).wf(),
            placed(*self, *old(state)) ==> placed(*self, *final(state)),
            choose_cup_outcome(*self, *old(state), *final(state), color, r@),
    {
        let k = match self.current_room(state) {
            Err(e) => return self.reply_error(e),
            Ok(k) => k,
        };
        if state.rooms[k].find_student(self.id).is_none() {
            return self.reply_error(WSError::InvalidClientId(StateError::InvalidId));
        }
        let ghost prev = *state;
        assert(prev.rooms@[k as int].wf());
        let res = state.rooms[k].choose_cup(self.id, color);
        proof {
            lemma_same_except_wf(prev, *state, k as int);
        }
        let ack = Delivery { recipients: single(self.id), message: ClientMessage::Acknowledge };
        let info = Delivery {
            recipients: state.rooms[k].broadcast_targets(BroadcastTarget::Teachers, Some(self.id)),
            message: ClientMessage::RoomInfo(state.rooms[k].summary()),
        };
        pair(ack, info)
    }

    /// Records the sender's answer to a question.
    pub fn answer_question(&self, state: &mut AppState, answer: QuestionAnswer) -> (r: Vec<Delivery>)
        requires
            old(state).wf(),
        ensures
            final(state).wf(),
            placed(*self, *old(state)) ==> placed(*self, *final(state)),
            answer_question_outcome(*self, *old(state), *final(state), answer, r@),
    {
        let k = match self.current_room(state) {
            Err(e) => return self.reply_error(e),
            Ok(k) => k,
        };
        assert(state.rooms@[k as int].wf());
        let q = match state.rooms[k].find_question(answer.id) {
            None => return self.reply_error(WSError::InvalidQuestionId(answer.id)),
            Some(q) => q,
        };
        if state.rooms[k].find_student(self.id).is_none() {
            return self.reply_error(WSError::InvalidClientId(StateError::InvalidId));
        }
        if answer.answer >= state.rooms[k].questions[q].1.options.len() {
            return self.reply_error(WSError::InvalidAnswer(StateError::InvalidAnswer(answer.answer)));
        }
        let ghost prev = *state;
        let res = state.rooms[k].answer_question(self.id, answer);
        proof {
            lemma_same_except_wf(prev, *state, k as int);
        }
        let ack = Delivery { recipients: single(self.id), message: ClientMessage::Acknowledge };
        let info = Delivery {
            recipients: state.rooms[k].broadcast_targets(BroadcastTarget::Teachers, Some(self.id)),
            message: ClientMessage::from_questions_map(&state.rooms[k].questions),
        };
        pair(ack, info)
    }

    /// Hands a question out to the whole room for `publish.secs` seconds.
    pub fn publish_question(&self, state: &AppState, publish: PublishQuestion) -> (r: Vec<Delivery>)
        requires
            state.wf(),
        ensures
            publish_outcome(*self, *state, *state, publish, r@),
    {
        let k = match self.current_room(state) {
            Err(e) => return self.reply_error(e),
            Ok(k) => k,
        };
        let room = &state.rooms[k];
        assert(room.wf());
        let first = match room.publication(&publish) {
            Ok(p) => p,
            Err(e) => return self.reply_error(e),
        };
        let second = match room.publication(&publish) {
            Ok(p) => p,
            Err(e) => return self.reply_error(e),
        };
        let reply = Delivery {
            recipients: single(self.id),
            message: ClientMessage::QuestionPublication(first),
        };
        let others = Delivery {
            recipients: room.broadcast_targets(BroadcastTarget::All, Some(self.id)),
            message: ClientMessage::QuestionPublication(second),
        };
        pair(reply, others)
    }

    /// Adds a question to the sender's room.
    pub fn create_question(&self, state: &mut AppState, question: Question) -> (r: Vec<Delivery>)
        requires
            old(state).wf(),
        ensures
            final(state).wf(),
            placed(*self, *old(state)) ==> placed(*self, *final(state)),
            create_question_outcome(*self, *old(state), *final(state), question, r@),
    {
        let k = match self.current_room(state) {
            Err(e) => return self.reply_error(e),
            Ok(k) => k,
        };
        let ghost prev = *state;
        assert(prev.rooms@[k as int].wf());
        let added = state.rooms[k].add_question(question);
        proof {
            lemma_same_except_wf(prev, *state, k as int);
        }
        match added {
            None => single(Delivery { recipients: single(self.id), message: ClientMessage::internal_error() }),
            Some(_) => {
                let reply = Delivery {
                    recipients: single(self.id),
                    message: ClientMessage::from_questions_map(&state.rooms[k].questions),
                };
                let teachers = Delivery {
                    recipients: state.rooms[k].broadcast_targets(BroadcastTarget::Teachers, Some(self.id)),
                    message: ClientMessage::from_questions_map(&state.rooms[k].questions),
                };
                pair(reply, teachers)
            },
        }
    }

    /// Removes a question from the sender's room.
    pub fn delete_question(&self, state: &mut AppState, id: QuestionId) -> (r: Vec<Delivery>)
        requires
            old(state).wf(),
        ensures
            final(state).wf(),
            placed(*self, *old(state)) ==> placed(*self, *final(state)),
            delete_question_outcome(*self, *old(state), *final(state), id, r@),
    {
        let k = match self.current_room(state) {
            Err(e) => return self.reply_error(e),
            Ok(k) => k,
        };
        if state.rooms[k].find_question(id.0).is_none() {
            return self.reply_error(WSError::InvalidQuestionId(id.0));
        }
        let ghost prev = *state;
        assert(prev.rooms@[k as int].wf());
        let res = state.rooms[k].delete_question(id.0);
        proof {
            lemma_same_except_wf(prev, *state, k as int);
        }
        let reply = Delivery {
            recipients: single(self.id),
            message: ClientMessage::from_questions_map(&state.rooms[k].questions),
        };
        let teachers = Delivery {
            recipients: state.rooms[k].broadcast_targets(BroadcastTarget::Teachers, Some(self.id)),
            message: ClientMessage::from_questions_map(&state.rooms[k].questions),
        };
        let students = Delivery {
            recipients: state.rooms[k].broadcast_targets(BroadcastTarget::Students, Some(self.id)),
            message: ClientMessage::QuestionDelete(id),
        };
        let mut r = pair(reply, teachers);
        r.push(students);
        r
    }

    /// Changes the title and/or options of a question of the sender's room.
    pub fn modify_question(&self, state: &mut AppState, modification: QuestionModification) -> (r: Vec<
        Delivery,
    >)
        requires
            old(state).wf(),
        ensures
            final(state).wf(),
            placed(*self, *old(state)) ==> placed(*self, *final(state)),
            modify_question_outcome(*self, *old(state), *final(state), modification, r@),
    {
        let k = match self.current_room(state) {
            Err(e) => return self.reply_error(e),
            Ok(k) => k,
        };
        if state.rooms[k].find_question(modification.id).is_none() {
            return self.reply_error(WSError::InvalidQuestionId(modification.id));
        }
        let ghost prev = *state;
        assert(prev.rooms@[k as int].wf());
        let res = state.rooms[k].modify_question(modification);
        proof {
            lemma_same_except_wf(prev, *state, k as int);
        }
        let reply = Delivery {
            recipients: single(self.id),
            message: ClientMessage::from_questions_map(&state.rooms[k].questions),
        };
        let others = Delivery {
            recipients: state.rooms[k].broadcast_targets(BroadcastTarget::All, Some(self.id)),
            message: ClientMessage::from_questions_map(&state.rooms[k].questions),
        };
        pair(reply, others)
    }

    /// Leaves the current room, if it still exists: the session's connection
    /// and its answers go, and the room hears of it. The session is then in no
    /// room, and connected nowhere.
    pub fn leave_room(&mut self, state: &mut AppState) -> (r: Vec<Delivery>)
        requires
            old(state).wf(),
            placed(*old(self), *old(state)),
        ensures
            final(state).wf(),
            final(self).id == old(self).id,
            final(self).room is None,
            left_outcome(old(self).id, old(self).room, *old(state), *final(state), r@),
            placed(*final(self), *final(state)),
    {
        let ghost s0 = *self;
        let ghost st0 = *state;
        let r = self.leave(state);
        proof {
            lemma_left_nowhere(s0, st0, *state, r@);
        }
        r
    }

    /// Leaves the room named by `self.room`, if it exists.
    fn leave(&mut self, state: &mut AppState) -> (r: Vec<Delivery>)
        requires
            old(state).wf(),
        ensures
            final(state).wf(),
            final(self).id == old(self).id,
            final(self).room is None,
            left_outcome(old(self).id, old(self).room, *old(state), *final(state), r@),
    {
        let found = match &self.room {
            None => None,
            Some(n) => state.find_room(n),
        };
        self.room = None;
        let k = match found {
            None => return Vec::new(),
            Some(k) => k,
        };
        let ghost prev = *state;
        assert(prev.rooms@[k as int].wf());
        let removed = state.rooms[k].remove_connection(self.id);
        proof {
            lemma_same_except_wf(prev, *state, k as int);
        }
        let info = Delivery {
            recipients: state.rooms[k].broadcast_targets(BroadcastTarget::All, Some(self.id)),
            message: ClientMessage::RoomInfo(state.rooms[k].summary()),
        };
        let questions = Delivery {
            recipients: state.rooms[k].broadcast_targets(BroadcastTarget::Teachers, Some(self.id)),
            message: ClientMessage::from_questions_map(&state.rooms[k].questions),
        };
        pair(info, questions)
    }

    /// The connection closed: it leaves its room.
    pub fn stopped(&mut self, state: &mut AppState) -> (r: Vec<Delivery>)
        requires
            old(state).wf(),
        ensures
            final(state).wf(),
            final(self).room is None,
            left_outcome(old(self).id, old(self).room, *old(state), *final(state), r@),
            placed(*old(self), *old(state)) ==> placed(*final(self), *final(state)),
    {
        if self.is_placed(state) {
            self.leave_room(state)
        } else {
            self.leave(state)
        }
    }

    /// Joins the room named in `info` on the side it gives.
    pub fn room_connect(&mut self, state: &mut AppState, info: RoomConnectInfo) -> (r: Vec<Delivery>)
        requires
            old(state).wf(),
            placed(*old(self), *old(state)),
        ensures
            final(state).wf(),
            placed(*final(self), *final(state)),
            room_connect_outcome(*old(self), *final(self), *old(state), *final(state), info, r@),
    {
        let RoomConnectInfo { room_name, connection_type } = info;
        let k = match state.find_room(&room_name) {
            None => return self.reply_error(WSError::InvalidRoom(room_name)),
            Some(k) => k,
        };
        assert(state.rooms@[k as int].wf());
        if state.rooms[k].find_student(self.id).is_some() || state.rooms[k].find_teacher(
            self.id,
        ).is_some() {
            return self.reply_error(WSError::AlreadyConnected);
        }
        let ghost prev = *state;
        let ghost old_self = *self;
        let res = state.rooms[k].add_connection(self.id, connection_type);
        proof {
            lemma_same_except_wf(prev, *state, k as int);
        }
        let ghost mid = *state;
        let first = Delivery {
            recipients: single(self.id),
            message: ClientMessage::RoomInfo(state.rooms[k].summary()),
        };
        let second = match connection_type {
            ConnectionType::Student => Delivery {
                recipients: state.rooms[k].broadcast_targets(BroadcastTarget::Teachers, Some(self.id)),
                message: ClientMessage::RoomInfo(state.rooms[k].summary()),
            },
            ConnectionType::Teacher => Delivery {
                recipients: single(self.id),
                message: ClientMessage::from_questions_map(&state.rooms[k].questions),
            },
        };
        let mut r = pair(first, second);
        let previous = match &self.room {
            Some(p) => if *p == room_name {
                None
            } else {
                Some(p.clone())
            },
            None => None,
        };
        let ghost previous_room = previous;
        let mut leaving = WSSession { id: self.id, room: previous };
        let mut rest = leaving.leave(state);
        let ghost head = r@;
        let ghost tail = rest@;
        r.append(&mut rest);
        self.room = Some(room_name);
        proof {
            assert(r@.skip(2) =~= tail);
            assert(r@[0] == head[0]);
            assert(r@[1] == head[1]);
            assert(mid.same_except(&prev, k as int));
            lemma_connect_placed(old_self, room_name@, k as int, previous_room, prev, mid, *state, tail);
        }
        r
    }

    /// Carries out one task of the client.
    pub fn process_message(&mut self, state: &mut AppState, message: WSMessage) -> (r: Vec<Delivery>)
        requires
            old(state).wf(),
            placed(*old(self), *old(state)),
        ensures
            final(state).wf(),
            placed(*final(self), *final(state)),
            match message {
                WSMessage::RoomConnect(info) => room_connect_outcome(
                    *old(self),
                    *final(self),
                    *old(state),
                    *final(state),
                    info,
                    r@,
                ),
                WSMessage::ChooseCup(color) => *final(self) == *old(self) && choose_cup_outcome(
                    *old(self),
                    *old(state),
                    *final(state),
                    color,
                    r@,
                ),
                WSMessage::CreateQuestion(q) => *final(self) == *old(self) && create_question_outcome(
                    *old(self),
                    *old(state),
                    *final(state),
                    q,
                    r@,
                ),
                WSMessage::PublishQuestion(p) => *final(self) == *old(self) && publish_outcome(
                    *old(self),
                    *old(state),
                    *final(state),
                    p,
                    r@,
                ),
                WSMessage::DeleteQuestion(id) => *final(self) == *old(self) && delete_question_outcome(
                    *old(self),
                    *old(state),
                    *final(state),
                    id,
                    r@,
                ),
                WSMessage::ModifyQuestion(m) => *final(self) == *old(self) && modify_question_outcome(
                    *old(self),
                    *old(state),
                    *final(state),
                    m,
                    r@,
                ),
                WSMessage::AnswerQuestion(a) => *final(self) == *old(self) && answer_question_outcome(
                    *old(self),
                    *old(state),
                    *final(state),
                    a,
                    r@,
                ),
            },
    {
        match message {
            WSMessage::RoomConnect(info) => self.room_connect(state, info),
            WSMessage::ChooseCup(color) => self.choose_cup(state, color),
            WSMessage::CreateQuestion(q) => self.create_question(state, q),
            WSMessage::PublishQuestion(p) => self.publish_question(state, p),
            WSMessage::DeleteQuestion(id) => self.delete_question(state, id),
            WSMessage::ModifyQuestion(m) => self.modify_question(state, m),
            WSMessage::AnswerQuestion(a) => self.answer_question(state, a),
        }
    }

    /// The reply to a message that could not be parsed; nothing else happens.
    pub fn parse_error_reply(&self) -> (r: Vec<Delivery>)
        ensures
            error_reply(r@, self.id, WSError::ParseError),
    {
        self.reply_error(WSError::ParseError)
    }

    /// Whether every room holding this session's id is the one it names.
    pub fn is_placed(&self, state: &AppState) -> (r: bool)
        ensures
            r == placed(*self, *state),
    {
        let n = state.rooms.len();
        for j in 0..n
            invariant
                n == state.rooms@.len(),
                forall|i: int|
                    0 <= i < j && #[trigger] state.rooms@[i].holds(self.id) ==> self.room is Some
                        && state.rooms@[i].name@ == self.room->Some_0@,
        {
            let room = &state.rooms[j];
            if room.find_student(self.id).is_some() || room.find_teacher(self.id).is_some() {
                let named = match &self.room {
                    Some(name) => room.name == *name,
                    None => false,
                };
                if !named {
                    assert(state.rooms@[j as int].holds(self.id));
                    return false;
                }
            }
        }
        true
    }

    /// The single reply that reports `e`.
    fn reply_error(&self, e: WSError) -> (r: Vec<Delivery>)
        ensures
            error_reply(r@, self.id, e),
    {
        single(Delivery { recipients: single(self.id), message: ClientMessage::from_error(&e) })
    }

    /// The position of this session's room.
    fn current_room(&self, state: &AppState) -> (r: Result<usize, WSError>)
        requires
            state.wf(),
        ensures
            match room_error(*self, *state) {
                Some(e) => r == Err::<usize, WSError>(e),
                None => r is Ok && r->Ok_0 as int == room_index(*self, *state) && r->Ok_0
                    < state.rooms@.len(),
            },
    {
        match &self.room {
            None => Err(WSError::NoRoom),
            Some(n) => match state.find_room(n) {
                None => Err(WSError::InvalidRoom(n.clone())),
                Some(k) => Ok(k),
            },
        }
    }
}

} // verus!
