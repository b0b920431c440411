//! A room: its student and teacher connections, the students' cup colors and
//! the room's questions.
use vstd::prelude::*;
use crate::error::{StateError, WSError};
use crate::message::{
    CupColor, ConnectionType, PublishQuestion, Question, QuestionAnswer, QuestionInfo,
    QuestionModification, QuestionPublication, RoomInfo,
};
use crate::question::{QuestionState, modified, option_texts, question_info_of};

verus! {

/// Relies on uuid's `Uuid::new_v4`: a random version-4 UUID, as its 128-bit value.
#[verifier::external_body]
pub(crate) fn new_uuid() -> (r: u128) {
    uuid::Uuid::new_v4().as_u128()
}

/// What the room knows of a student's connection.
#[derive(Clone, Copy, Debug, PartialEq, Eq, Structural)]
pub struct StudentInfo {
    pub cup_selection: Option<CupColor>,
}

impl StudentInfo {
    pub fn new() -> (r: Self)
        ensures
            r.cup_selection is None,
    {
        StudentInfo { cup_selection: None }
    }
}

/// The connections a broadcast goes to.
#[derive(Clone, Copy, Debug, PartialEq, Eq, Structural)]
pub enum BroadcastTarget {
    Students,
    Teachers,
    All,
}

/// The ids of a list of student connections.
pub open spec fn student_ids(s: Seq<(u128, StudentInfo)>) -> Seq<u128> {
    s.map_values(|p: (u128, StudentInfo)| p.0)
}

/// The ids of a list of questions.
pub open spec fn question_ids(s: Seq<(u128, QuestionState)>) -> Seq<u128> {
    s.map_values(|p: (u128, QuestionState)| p.0)
}

/// The number of students whose cup is `c`.
pub open spec fn cup_count(s: Seq<(u128, StudentInfo)>, c: CupColor) -> nat
    decreases s.len(),
{
    if s.len() == 0 {
        0
    } else {
        cup_count(s.drop_last(), c) + if s.last().1.cup_selection == Some(c) {
            1nat
        } else {
            0nat
        }
    }
}

pub proof fn lemma_cup_count_bound(s: Seq<(u128, StudentInfo)>, c: CupColor)
    ensures
        cup_count(s, c) <= s.len(),
    decreases s.len(),
{
    if s.len() > 0 {
        lemma_cup_count_bound(s.drop_last(), c);
    }
}

/// `new` equals `old` but at position `k`, where the id is kept.
pub open spec fn only_changed_at(
    old: Seq<(u128, QuestionState)>,
    new: Seq<(u128, QuestionState)>,
    k: int,
) -> bool {
    &&& new.len() == old.len()
    &&& 0 <= k < old.len()
    &&& new[k].0 == old[k].0
    &&& forall|j: int| 0 <= j < old.len() && j != k ==> new[j] == old[j]
}

/// Question `new` is question `old` without the answer of `id`.
pub open spec fn answer_dropped(old: (u128, QuestionState), new: (u128, QuestionState), id: u128) -> bool {
    &&& new.0 == old.0
    &&& new.1.wf()
    &&& new.1.title == old.1.title
    &&& new.1.options == old.1.options
    &&& new.1.answer_map() == old.1.answer_map().remove(id)
    &&& forall|i: usize| #[trigger] new.1.answer_count(i) == if old.1.answer_map().contains_key(id)
        && i == old.1.answer_map()[id] {
        (old.1.answer_count(i) - 1) as nat
    } else {
        old.1.answer_count(i)
    }
}

/// `p` shows question `q` for `secs` seconds.
pub open spec fn publication_of(p: QuestionPublication, q: (u128, QuestionState), secs: usize) -> bool {
    &&& p.id.0 == q.0
    &&& p.title@ == q.1.title@
    &&& option_texts(p.options@) == option_texts(q.1.options@)
    &&& p.secs == secs
}

pub proof fn lemma_remove_keeps_distinct<T>(s: Seq<T>, k: int)
    requires
        s.no_duplicates(),
        0 <= k < s.len(),
    ensures
        s.remove(k).no_duplicates(),
        forall|x: T| #[trigger] s.remove(k).contains(x) == (s.contains(x) && x != s[k]),
{
    let r = s.remove(k);
    assert forall|i: int, j: int| 0 <= i < r.len() && 0 <= j < r.len() && i != j implies r[i]
        != r[j] by {
        let ii = if i < k { i } else { i + 1 };
        let jj = if j < k { j } else { j + 1 };
        assert(r[i] == s[ii]);
        assert(r[j] == s[jj]);
    }
    assert forall|x: T| #[trigger] r.contains(x) == (s.contains(x) && x != s[k]) by {
        if r.contains(x) {
            let i = choose|i: int| 0 <= i < r.len() && r[i] == x;
            let ii = if i < k { i } else { i + 1 };
            assert(r[i] == s[ii]);
        }
        if s.contains(x) && x != s[k] {
            let i = choose|i: int| 0 <= i < s.len() && s[i] == x;
            let ri = if i < k { i } else { i - 1 };
            assert(r[ri] == x);
        }
    }
}

/// `info` shows `room`: its name, its number of students and how many of them
/// show each cup color.
pub open spec fn room_info_of(info: RoomInfo, room: RoomState) -> bool {
    &&& info.name@ == room.name@
    &&& info.connections == room.student_connections@.len()
    &&& info.green == cup_count(room.student_connections@, CupColor::Green)
    &&& info.yellow == cup_count(room.student_connections@, CupColor::Yellow)
    &&& info.red == cup_count(room.student_connections@, CupColor::Red)
}

/// `v` shows each question of `qs`, in order.
pub open spec fn questions_info_of(v: Seq<QuestionInfo>, qs: Seq<(u128, QuestionState)>) -> bool {
    &&& v.len() == qs.len()
    &&& forall|k: int| 0 <= k < v.len() ==> question_info_of(#[trigger] v[k], qs[k].0, qs[k].1)
}

/// `new` is `old` with connection `id` added on side `kind`, without a cup color.
pub open spec fn connection_added(old: RoomState, new: RoomState, id: u128, kind: ConnectionType) -> bool {
    &&& new.name == old.name
    &&& new.questions == old.questions
    &&& match kind {
        ConnectionType::Student => new.student_connections@ == old.student_connections@.push(
            (id, StudentInfo { cup_selection: None }),
        ) && new.teacher_connections == old.teacher_connections,
        ConnectionType::Teacher => new.teacher_connections@ == old.teacher_connections@.push(id)
            && new.student_connections == old.student_connections,
    }
}

/// `new` is `old` where student `id` shows cup `color`.
pub open spec fn cup_chosen(old: RoomState, new: RoomState, id: u128, color: CupColor) -> bool {
    &&& new.name == old.name
    &&& new.teacher_connections == old.teacher_connections
    &&& new.questions == old.questions
    &&& exists|k: int|
        0 <= k < old.student_connections@.len() && old.student_connections@[k].0 == id
            && new.student_connections@ == old.student_connections@.update(
            k,
            (id, StudentInfo { cup_selection: Some(color) }),
        )
}

/// `new` is `old` without connection `id` and without its answers.
pub open spec fn connection_removed(old: RoomState, new: RoomState, id: u128) -> bool {
    &&& new.name == old.name
    &&& !new.holds(id)
    &&& old.is_student(id) ==> exists|k: int|
        0 <= k < old.student_connections@.len() && old.student_connections@[k].0 == id
            && new.student_connections@ == old.student_connections@.remove(k)
    &&& !old.is_student(id) ==> new.student_connections == old.student_connections
    &&& old.is_teacher(id) ==> exists|k: int|
        0 <= k < old.teacher_connections@.len() && old.teacher_connections@[k] == id
            && new.teacher_connections@ == old.teacher_connections@.remove(k)
    &&& !old.is_teacher(id) ==> new.teacher_connections == old.teacher_connections
    &&& new.questions@.len() == old.questions@.len()
    &&& forall|k: int|
        0 <= k < old.questions@.len() ==> answer_dropped(
            #[trigger] old.questions@[k],
            new.questions@[k],
            id,
        )
}

/// `new` is `old` with question `id` appended, made of `title` and `options`,
/// without answers.
pub open spec fn question_added(
    old: RoomState,
    new: RoomState,
    id: u128,
    title: String,
    options: Vec<String>,
) -> bool {
    &&& new.same_connections(&old)
    &&& !old.has_question(id)
    &&& new.questions@.len() == old.questions@.len() + 1
    &&& new.questions@.drop_last() == old.questions@
    &&& new.questions@.last().0 == id
    &&& new.questions@.last().1.title == title
    &&& new.questions@.last().1.options == options
    &&& new.questions@.last().1.answers@.len() == 0
}

/// `new` is `old` where `student` chose option `answer` of question `id`.
pub open spec fn answer_recorded(
    old: RoomState,
    new: RoomState,
    student: u128,
    id: u128,
    answer: usize,
) -> bool {
    &&& new.same_connections(&old)
    &&& exists|k: int|
        0 <= k < old.questions@.len() && old.questions@[k].0 == id && only_changed_at(
            old.questions@,
            new.questions@,
            k,
        ) && new.questions@[k].1.title == old.questions@[k].1.title
            && new.questions@[k].1.options == old.questions@[k].1.options
            && new.questions@[k].1.answer_map() == old.questions@[k].1.answer_map().insert(
            student,
            answer,
        )
}

/// `new` is `old` after question `id` took the new `title` and/or `options`.
pub open spec fn question_modified(
    old: RoomState,
    new: RoomState,
    id: u128,
    title: Option<String>,
    options: Option<Vec<String>>,
) -> bool {
    &&& new.same_connections(&old)
    &&& exists|k: int|
        0 <= k < old.questions@.len() && old.questions@[k].0 == id && only_changed_at(
            old.questions@,
            new.questions@,
            k,
        ) && modified(old.questions@[k].1, new.questions@[k].1, title, options)
}

/// `new` is `old` without question `id`.
pub open spec fn question_deleted(old: RoomState, new: RoomState, id: u128) -> bool {
    &&& new.same_connections(&old)
    &&& exists|k: int|
        0 <= k < old.questions@.len() && old.questions@[k].0 == id && new.questions@
            == old.questions@.remove(k)
}

/// A question id stands at one position of a well-formed room.
pub proof fn lemma_question_position(room: RoomState, id: u128, k: int)
    requires
        room.wf(),
        0 <= k < room.questions@.len(),
        room.questions@[k].0 == id,
    ensures
        forall|j: int| 0 <= j < room.questions@.len() && #[trigger] room.questions@[j].0 == id ==> j == k,
        room.question_at(id) == k,
{
    assert forall|j: int| 0 <= j < room.questions@.len() && #[trigger] room.questions@[j].0 == id implies j == k by {
        assert(question_ids(room.questions@)[j] == question_ids(room.questions@)[k]);
    }
    let c = room.question_at(id);
    assert(0 <= c < room.questions@.len() && room.questions@[c].0 == id);
}

/// A room and everything connected to it.
#[derive(Debug)]
pub struct RoomState {
    pub name: String,
    /// Student session id and its state; one entry per id.
    pub student_connections: Vec<(u128, StudentInfo)>,
    /// Teacher session ids; each once.
    pub teacher_connections: Vec<u128>,
    /// Question id and question; one entry per id.
    pub questions: Vec<(u128, QuestionState)>,
}

impl RoomState {
    pub open spec fn is_student(&self, id: u128) -> bool {
        student_ids(self.student_connections@).contains(id)
    }

    pub open spec fn is_teacher(&self, id: u128) -> bool {
        self.teacher_connections@.contains(id)
    }

    /// `id` is connected to the room, on either side.
    pub open spec fn holds(&self, id: u128) -> bool {
        self.is_student(id) || self.is_teacher(id)
    }

    pub open spec fn has_question(&self, id: u128) -> bool {
        question_ids(self.questions@).contains(id)
    }

    /// The position of question `id` (meaningful when there is one).
    pub open spec fn question_at(&self, id: u128) -> int {
        choose|k: int| 0 <= k < self.questions@.len() && self.questions@[k].0 == id
    }

    /// Ids are unique within each list, no id is both student and teacher,
    /// and every question is well formed.
    pub open spec fn wf(&self) -> bool {
        &&& student_ids(self.student_connections@).no_duplicates()
        &&& self.teacher_connections@.no_duplicates()
        &&& forall|id: u128| !(#[trigger] self.is_student(id) && self.is_teacher(id))
        &&& question_ids(self.questions@).no_duplicates()
        &&& forall|k: int| 0 <= k < self.questions@.len() ==> (#[trigger] self.questions@[k]).1.wf()
    }

    /// Everything but the questions is as in `other`.
    pub open spec fn same_connections(&self, other: &RoomState) -> bool {
        &&& self.name == other.name
        &&& self.student_connections == other.student_connections
        &&& self.teacher_connections == other.teacher_connections
    }

    pub fn new(name: String) -> (r: Self)
        ensures
            r.wf(),
            r.name == name,
            r.student_connections@.len() == 0,
            r.teacher_connections@.len() == 0,
            r.questions@.len() == 0,
    {
        let r = RoomState {
            name,
            student_connections: Vec::new(),
            teacher_connections: Vec::new(),
            questions: Vec::new(),
        };
        assert(student_ids(r.student_connections@) =~= Seq::<u128>::empty());
        assert(question_ids(r.questions@) =~= Seq::<u128>::empty());
        r
    }

    /// The position of student `id`.
    pub fn find_student(&self, id: u128) -> (r: Option<usize>)
        ensures
            match r {
                Some(k) => k < self.student_connections@.len() && self.student_connections@[k as int].0
                    == id,
                None => !self.is_student(id) && forall|j: int|
                    0 <= j < self.student_connections@.len() ==> self.student_connections@[j].0 != id,
            },
            r is Some == self.is_student(id),
    {
        let mut k: usize = 0;
        while k < self.student_connections.len()
            invariant
                k <= self.student_connections@.len(),
                forall|j: int| 0 <= j < k ==> self.student_connections@[j].0 != id,
            decreases self.student_connections@.len() - k,
        {
            if self.student_connections[k].0 == id {
                assert(student_ids(self.student_connections@)[k as int] == id);
                return Some(k);
            }
            k = k + 1;
        }
        assert(!student_ids(self.student_connections@).contains(id));
        None
    }

    /// The position of teacher `id`.
    pub fn find_teacher(&self, id: u128) -> (r: Option<usize>)
        ensures
            match r {
                Some(k) => k < self.teacher_connections@.len() && self.teacher_connections@[k as int]
                    == id,
                None => !self.is_teacher(id),
            },
            r is Some == self.is_teacher(id),
    {
        let mut k: usize = 0;
        while k < self.teacher_connections.len()
            invariant
                k <= self.teacher_connections@.len(),
                forall|j: int| 0 <= j < k ==> self.teacher_connections@[j] != id,
            decreases self.teacher_connections@.len() - k,
        {
            if self.teacher_connections[k] == id {
                assert(self.teacher_connections@[k as int] == id);
                return Some(k);
            }
            k = k + 1;
        }
        None
    }

    /// The position of question `id`.
    pub fn find_question(&self, id: u128) -> (r: Option<usize>)
        ensures
            match r {
                Some(k) => k < self.questions@.len() && self.questions@[k as int].0 == id,
                None => !self.has_question(id) && forall|j: int|
                    0 <= j < self.questions@.len() ==> self.questions@[j].0 != id,
            },
            r is Some == self.has_question(id),
            r is Some && self.wf() ==> r->Some_0 == self.question_at(id),
    {
        let mut k: usize = 0;
        while k < self.questions.len()
            invariant
                k <= self.questions@.len(),
                forall|j: int| 0 <= j < k ==> self.questions@[j].0 != id,
            decreases self.questions@.len() - k,
        {
            if self.questions[k].0 == id {
                proof {
                    assert(question_ids(self.questions@)[k as int] == id);
                    if self.wf() {
                        lemma_question_position(*self, id, k as int);
                    }
                }
                return Some(k);
            }
            k = k + 1;
        }
        assert(!question_ids(self.questions@).contains(id));
        None
    }

    /// Adds connection `id` on the side `kind`; an id already connected to the
    /// room, on either side, is refused.
    pub fn add_connection(&mut self, id: u128, kind: ConnectionType) -> (r: Result<(), WSError>)
        requires
            old(self).wf(),
        ensures
            final(self).wf(),
            final(self).name == old(self).name,
            final(self).questions == old(self).questions,
            old(self).is_student(id) || old(self).is_teacher(id) ==> r == Err::<(), WSError>(
                WSError::AlreadyConnected,
            ) && *final(self) == *old(self),
            !(old(self).is_student(id) || old(self).is_teacher(id)) ==> r is Ok && connection_added(
                *old(self),
                *final(self),
                id,
                kind,
            ),
    {
        match self.find_student(id) {
            Some(k) => {
                assert(student_ids(self.student_connections@)[k as int] == id);
                return Err(WSError::AlreadyConnected);
            },
            None => {},
        }
        match self.find_teacher(id) {
            Some(k) => {
                assert(self.teacher_connections@[k as int] == id);
                return Err(WSError::AlreadyConnected);
            },
            None => {},
        }
        let ghost prev = *self;
        match kind {
            ConnectionType::Student => {
                self.student_connections.push((id, StudentInfo::new()));
                assert(student_ids(self.student_connections@) =~= student_ids(
                    prev.student_connections@,
                ).push(id));
            },
            ConnectionType::Teacher => {
                self.teacher_connections.push(id);
            },
        }
        assert forall|x: u128| !(#[trigger] self.is_student(x) && self.is_teacher(x)) by {
            if x != id {
                assert(self.is_student(x) ==> prev.is_student(x));
                assert(self.is_teacher(x) ==> prev.is_teacher(x));
            }
        }
        Ok(())
    }

    /// Whether `id` is among the connections of `target`.
    pub open spec fn in_target(&self, id: u128, target: BroadcastTarget) -> bool {
        match target {
            BroadcastTarget::Students => self.is_student(id),
            BroadcastTarget::Teachers => self.is_teacher(id),
            BroadcastTarget::All => self.is_student(id) || self.is_teacher(id),
        }
    }

    /// Drops the answers of `id` from every question.
    fn drop_answers(&mut self, id: u128)
        requires
            old(self).wf(),
        ensures
            final(self).wf(),
            final(self).same_connections(&*old(self)),
            final(self).questions@.len() == old(self).questions@.len(),
            forall|k: int|
                0 <= k < old(self).questions@.len() ==> answer_dropped(
                    #[trigger] old(self).questions@[k],
                    final(self).questions@[k],
                    id,
                ),
    {
        let ghost prev = *self;
        let n = self.questions.len();
        for k in 0..n
            invariant
                n == prev.questions@.len(),
                self.questions@.len() == n,
                self.same_connections(&prev),
                forall|j: int| 0 <= j < k ==> answer_dropped(#[trigger] prev.questions@[j], self.questions@[j], id),
                forall|j: int| k <= j < n ==> #[trigger] self.questions@[j] == prev.questions@[j],
                prev.wf(),
        {
            assert(prev.questions@[k as int].1.wf());
            self.questions[k].1.remove_student(id);
        }
        assert forall|j: int| 0 <= j < self.questions@.len() implies (
        #[trigger] self.questions@[j]).1.wf() by {
            assert(answer_dropped(prev.questions@[j], self.questions@[j], id));
        }
        assert(question_ids(self.questions@) =~= question_ids(prev.questions@));
        assert forall|x: u128| #[trigger] self.is_student(x) == prev.is_student(x) by {}
    }

    /// Removes student `id` and its answers; tells whether it was a student.
    pub fn remove_student(&mut self, id: u128) -> (r: bool)
        requires
            old(self).wf(),
        ensures
            final(self).wf(),
            final(self).name == old(self).name,
            final(self).teacher_connections == old(self).teacher_connections,
            r == old(self).is_student(id),
            !final(self).is_student(id),
            r ==> exists|k: int|
                0 <= k < old(self).student_connections@.len() && old(self).student_connections@[k].0
                    == id && final(self).student_connections@ == old(self).student_connections@.remove(k),
            !r ==> final(self).student_connections == old(self).student_connections,
            final(self).questions@.len() == old(self).questions@.len(),
            forall|k: int|
                0 <= k < old(self).questions@.len() ==> answer_dropped(
                    #[trigger] old(self).questions@[k],
                    final(self).questions@[k],
                    id,
                ),
    {
        self.drop_answers(id);
        match self.find_student(id) {
            Some(k) => {
                let ghost prev = *self;
                proof {
                    lemma_remove_keeps_distinct(student_ids(prev.student_connections@), k as int);
                }
                self.student_connections.remove(k);
                assert(student_ids(self.student_connections@) =~= student_ids(
                    prev.student_connections@,
                ).remove(k as int));
                assert(forall|x: u128| #[trigger] self.is_student(x) ==> prev.is_student(x));
                assert(question_ids(self.questions@) =~= question_ids(prev.questions@));
                true
            },
            None => false,
        }
    }

    /// Removes teacher `id`; tells whether it was a teacher.
    pub fn remove_teacher(&mut self, id: u128) -> (r: bool)
        requires
            old(self).wf(),
        ensures
            final(self).wf(),
            final(self).name == old(self).name,
            final(self).student_connections == old(self).student_connections,
            final(self).questions == old(self).questions,
            r == old(self).is_teacher(id),
            !final(self).is_teacher(id),
            r ==> exists|k: int|
                0 <= k < old(self).teacher_connections@.len() && old(self).teacher_connections@[k]
                    == id && final(self).teacher_connections@ == old(self).teacher_connections@.remove(k),
            !r ==> final(self).teacher_connections == old(self).teacher_connections,
    {
        match self.find_teacher(id) {
            Some(k) => {
                let ghost prev = *self;
                proof {
                    lemma_remove_keeps_distinct(prev.teacher_connections@, k as int);
                }
                self.teacher_connections.remove(k);
                assert(forall|x: u128| #[trigger] self.is_teacher(x) ==> prev.is_teacher(x));
                assert(forall|x: u128| #[trigger] self.is_student(x) == prev.is_student(x));
                assert(forall|j: int| 0 <= j < self.questions@.len() ==> #[trigger] self.questions@[j] == prev.questions@[j]);
                assert(student_ids(self.student_connections@) =~= student_ids(prev.student_connections@));
                assert(question_ids(self.questions@) =~= question_ids(prev.questions@));
                true
            },
            None => false,
        }
    }

    /// Removes connection `id`, on whichever side it is, and its answers;
    /// tells whether it was connected.
    pub fn remove_connection(&mut self, id: u128) -> (r: bool)
        requires
            old(self).wf(),
        ensures
            final(self).wf(),
            r == (old(self).is_student(id) || old(self).is_teacher(id)),
            connection_removed(*old(self), *final(self), id),
    {
        let ghost prev = *self;
        let was_student = self.remove_student(id);
        let ghost mid = *self;
        let was_teacher = self.remove_teacher(id);
        assert(forall|x: u128| #[trigger] mid.is_teacher(x) == prev.is_teacher(x));
        was_student || was_teacher
    }

    /// Adds `question` under id `id`, unless a question has that id.
    pub fn insert_question(&mut self, id: u128, question: Question) -> (r: bool)
        requires
            old(self).wf(),
        ensures
            final(self).wf(),
            final(self).same_connections(&*old(self)),
            r == !old(self).has_question(id),
            !r ==> final(self).questions == old(self).questions,
            r ==> {
                &&& final(self).questions@.len() == old(self).questions@.len() + 1
                &&& final(self).questions@.drop_last() == old(self).questions@
                &&& final(self).questions@.last().0 == id
                &&& final(self).questions@.last().1.title == question.title
                &&& final(self).questions@.last().1.options == question.options
                &&& final(self).questions@.last().1.answers@.len() == 0
            },
    {
        match self.find_question(id) {
            Some(k) => {
                assert(question_ids(self.questions@)[k as int] == id);
                false
            },
            None => {
                let ghost prev = *self;
                let q = QuestionState::new(question.title, question.options);
                self.questions.push((id, q));
                assert(question_ids(self.questions@) =~= question_ids(prev.questions@).push(id));
                assert(self.questions@.drop_last() =~= prev.questions@);
                assert(forall|x: u128| #[trigger] self.is_student(x) == prev.is_student(x));
                true
            },
        }
    }

    /// Adds `question` under a fresh random id and returns the id; `None` when
    /// the id drawn is already taken (so never in a room without questions),
    /// and then nothing changes.
    pub fn add_question(&mut self, question: Question) -> (r: Option<u128>)
        requires
            old(self).wf(),
        ensures
            final(self).wf(),
            final(self).same_connections(&*old(self)),
            match r {
                Some(id) => question_added(
                    *old(self),
                    *final(self),
                    id,
                    question.title,
                    question.options,
                ),
                None => final(self).questions == old(self).questions && old(
                    self,
                ).questions@.len() > 0,
            },
    {
        let id = new_uuid();
        if self.insert_question(id, question) {
            Some(id)
        } else {
            assert(question_ids(self.questions@).len() > 0);
            None
        }
    }

    /// Records the answer of student `student_id`.
    pub fn answer_question(&mut self, student_id: u128, answer: QuestionAnswer) -> (r: Result<
        (),
        WSError,
    >)
        requires
            old(self).wf(),
        ensures
            final(self).wf(),
            final(self).same_connections(&*old(self)),
            !old(self).has_question(answer.id) ==> r == Err::<(), WSError>(
                WSError::InvalidQuestionId(answer.id),
            ),
            old(self).has_question(answer.id) && !old(self).is_student(student_id) ==> r == Err::<
                (),
                WSError,
            >(WSError::InvalidClientId(StateError::InvalidId)),
            forall|k: int|
                0 <= k < old(self).questions@.len() && #[trigger] old(self).questions@[k].0
                    == answer.id && old(self).is_student(student_id) ==> if answer.answer < old(self).questions@[k].1.options@.len() {
                    &&& r is Ok
                    &&& only_changed_at(old(self).questions@, final(self).questions@, k)
                    &&& final(self).questions@[k].1.title == old(self).questions@[k].1.title
                    &&& final(self).questions@[k].1.options == old(self).questions@[k].1.options
                    &&& final(self).questions@[k].1.answer_map() == old(self).questions@[k].1.answer_map().insert(student_id, answer.answer)
                } else {
                    r == Err::<(), WSError>(
                        WSError::InvalidAnswer(StateError::InvalidAnswer(answer.answer)),
                    )
                },
            r is Err ==> *final(self) == *old(self),
            r is Ok ==> answer_recorded(
                *old(self),
                *final(self),
                student_id,
                answer.id,
                answer.answer,
            ),
    {
        match self.find_question(answer.id) {
            None => Err(WSError::InvalidQuestionId(answer.id)),
            Some(k) => {
                if self.find_student(student_id).is_none() {
                    return Err(WSError::InvalidClientId(StateError::InvalidId));
                }
                let ghost prev = *self;
                proof {
                    assert(prev.questions@[k as int].1.wf());
                    lemma_question_position(prev, answer.id, k as int);
                }
                if answer.answer >= self.questions[k].1.options.len() {
                    return Err(WSError::InvalidAnswer(StateError::InvalidAnswer(answer.answer)));
                }
                let res = self.questions[k].1.answer(student_id, answer.answer);
                assert(question_ids(self.questions@) =~= question_ids(prev.questions@));
                assert(forall|x: u128| #[trigger] self.is_student(x) == prev.is_student(x));
                assert(forall|x: u128| #[trigger] self.is_teacher(x) == prev.is_teacher(x));
                assert forall|j: int| 0 <= j < self.questions@.len() implies (
                #[trigger] self.questions@[j]).1.wf() by {
                    if j != k {
                        assert(self.questions@[j] == prev.questions@[j]);
                    }
                }
                match res {
                    Ok(()) => {
                        assert(only_changed_at(prev.questions@, self.questions@, k as int));
                        Ok(())
                    },
                    Err(e) => Err(WSError::from(e)),
                }
            },
        }
    }

    /// Changes the title and/or options of a question.
    pub fn modify_question(&mut self, modification: QuestionModification) -> (r: Result<(), WSError>)
        requires
            old(self).wf(),
        ensures
            final(self).wf(),
            final(self).same_connections(&*old(self)),
            !old(self).has_question(modification.id) ==> r == Err::<(), WSError>(
                WSError::InvalidQuestionId(modification.id),
            ) && *final(self) == *old(self),
            forall|k: int|
                0 <= k < old(self).questions@.len() && #[trigger] old(self).questions@[k].0
                    == modification.id ==> {
                    &&& r is Ok
                    &&& only_changed_at(old(self).questions@, final(self).questions@, k)
                    &&& modified(
                        old(self).questions@[k].1,
                        final(self).questions@[k].1,
                        modification.title,
                        modification.options,
                    )
                },
            r is Ok ==> question_modified(
                *old(self),
                *final(self),
                modification.id,
                modification.title,
                modification.options,
            ),
    {
        let QuestionModification { id, title, options } = modification;
        match self.find_question(id) {
            None => Err(WSError::InvalidQuestionId(id)),
            Some(k) => {
                let ghost prev = *self;
                proof {
                    assert(prev.questions@[k as int].1.wf());
                    lemma_question_position(prev, id, k as int);
                }
                self.questions[k].1.modify(title, options);
                assert(only_changed_at(prev.questions@, self.questions@, k as int));
                assert(question_ids(self.questions@) =~= question_ids(prev.questions@));
                assert(forall|x: u128| #[trigger] self.is_student(x) == prev.is_student(x));
                assert(forall|x: u128| #[trigger] self.is_teacher(x) == prev.is_teacher(x));
                assert forall|j: int| 0 <= j < self.questions@.len() implies (
                #[trigger] self.questions@[j]).1.wf() by {
                    if j != k {
                        assert(self.questions@[j] == prev.questions@[j]);
                    }
                }
                Ok(())
            },
        }
    }

    /// Removes a question.
    pub fn delete_question(&mut self, id: u128) -> (r: Result<(), WSError>)
        requires
            old(self).wf(),
        ensures
            final(self).wf(),
            final(self).same_connections(&*old(self)),
            !old(self).has_question(id) ==> r == Err::<(), WSError>(WSError::InvalidQuestionId(id))
                && *final(self) == *old(self),
            old(self).has_question(id) ==> r is Ok && question_deleted(*old(self), *final(self), id),
    {
        match self.find_question(id) {
            None => Err(WSError::InvalidQuestionId(id)),
            Some(k) => {
                let ghost prev = *self;
                proof {
                    lemma_remove_keeps_distinct(question_ids(prev.questions@), k as int);
                }
                self.questions.remove(k);
                assert(question_ids(self.questions@) =~= question_ids(prev.questions@).remove(k as int));
                assert forall|j: int| 0 <= j < self.questions@.len() implies (
                #[trigger] self.questions@[j]).1.wf() by {
                    let jj = if j < k { j } else { j + 1 };
                    assert(self.questions@[j] == prev.questions@[jj]);
                }
                assert(forall|x: u128| #[trigger] self.is_student(x) == prev.is_student(x));
                Ok(())
            },
        }
    }

    /// Question `publish.id` as handed out for `publish.secs` seconds.
    pub fn publication(&self, publish: &PublishQuestion) -> (r: Result<QuestionPublication, WSError>)
        requires
            self.wf(),
        ensures
            !self.has_question(publish.id.0) ==> r == Err::<QuestionPublication, WSError>(
                WSError::InvalidQuestionId(publish.id.0),
            ),
            forall|k: int|
                0 <= k < self.questions@.len() && #[trigger] self.questions@[k].0 == publish.id.0
                    ==> r is Ok && publication_of(r->Ok_0, self.questions@[k], publish.secs),
    {
        match self.find_question(publish.id.0) {
            None => Err(WSError::InvalidQuestionId(publish.id.0)),
            Some(k) => {
                proof {
                    lemma_question_position(*self, publish.id.0, k as int);
                }
                let q = &self.questions[k].1;
                let p = QuestionPublication {
                    id: publish.id,
                    title: q.title.clone(),
                    options: crate::question::clone_options(&q.options),
                    secs: publish.secs,
                };
                assert(publication_of(p, self.questions@[k as int], publish.secs));
                Ok(p)
            },
        }
    }

    /// The ids that a broadcast to `target` reaches: each once, and never
    /// `exclude`.
    pub fn broadcast_targets(&self, target: BroadcastTarget, exclude: Option<u128>) -> (r: Vec<u128>)
        requires
            self.wf(),
        ensures
            r@.no_duplicates(),
            forall|id: u128| #[trigger] r@.contains(id) == (self.in_target(id, target) && exclude != Some(id)),
    {
        let mut r: Vec<u128> = Vec::new();
        if target != BroadcastTarget::Teachers {
            let n = self.student_connections.len();
            for k in 0..n
                invariant
                    n == self.student_connections@.len(),
                    self.wf(),
                    target != BroadcastTarget::Teachers,
                    r@.no_duplicates(),
                    forall|id: u128| #[trigger] r@.contains(id) == (exists|j: int|
                        0 <= j < k && self.student_connections@[j].0 == id && exclude != Some(id)),
            {
                let id = self.student_connections[k].0;
                let ghost before = r@;
                if exclude != Some(id) {
                    proof {
                        if r@.contains(id) {
                            let j = choose|j: int| 0 <= j < k && self.student_connections@[j].0 == id && exclude != Some(id);
                            assert(student_ids(self.student_connections@)[j] == student_ids(self.student_connections@)[k as int]);
                        }
                    }
                    r.push(id);
                }
                assert forall|x: u128| #[trigger] r@.contains(x) == (exists|j: int|
                        0 <= j < k + 1 && self.student_connections@[j].0 == x && exclude != Some(x)) by {
                    if r@.contains(x) {
                        let i = choose|i: int| 0 <= i < r@.len() && r@[i] == x;
                        if i < before.len() {
                            assert(before[i] == x);
                            assert(before.contains(x));
                        } else {
                            assert(self.student_connections@[k as int].0 == x);
                        }
                    }
                    if exists|j: int| 0 <= j < k + 1 && self.student_connections@[j].0 == x && exclude != Some(x) {
                        let j = choose|j: int| 0 <= j < k + 1 && self.student_connections@[j].0 == x && exclude != Some(x);
                        if j < k {
                            assert(before.contains(x));
                            let i = choose|i: int| 0 <= i < before.len() && before[i] == x;
                            assert(r@[i] == x);
                        } else {
                            assert(r@[r@.len() - 1] == x);
                        }
                    }
                }
            }
            assert forall|x: u128| #[trigger] r@.contains(x) == (self.is_student(x) && exclude != Some(x)) by {
                if self.is_student(x) {
                    let j = choose|j: int| 0 <= j < n && student_ids(self.student_connections@)[j] == x;
                    assert(self.student_connections@[j].0 == x);
                }
                if r@.contains(x) {
                    let j = choose|j: int| 0 <= j < n && self.student_connections@[j].0 == x && exclude != Some(x);
                    assert(student_ids(self.student_connections@)[j] == x);
                }
            }
        }
        let ghost after_students = r@;
        if target != BroadcastTarget::Students {
            let n = self.teacher_connections.len();
            for k in 0..n
                invariant
                    n == self.teacher_connections@.len(),
                    self.wf(),
                    target != BroadcastTarget::Students,
                    r@.no_duplicates(),
                    forall|x: u128| #[trigger] after_students.contains(x) ==> self.is_student(x),
                    forall|id: u128| #[trigger] r@.contains(id) == (after_students.contains(id) || exists|j: int|
                        0 <= j < k && self.teacher_connections@[j] == id && exclude != Some(id)),
            {
                let id = self.teacher_connections[k];
                let ghost before = r@;
                if exclude != Some(id) {
                    proof {
                        if r@.contains(id) {
                            if after_students.contains(id) {
                                assert(self.is_teacher(id));
                            } else {
                                let j = choose|j: int| 0 <= j < k && self.teacher_connections@[j] == id && exclude != Some(id);
                                assert(self.teacher_connections@[j] == self.teacher_connections@[k as int]);
                            }
                        }
                    }
                    r.push(id);
                }
                assert forall|x: u128| #[trigger] r@.contains(x) == (after_students.contains(x) || exists|j: int|
                        0 <= j < k + 1 && self.teacher_connections@[j] == x && exclude != Some(x)) by {
                    if r@.contains(x) {
                        let i = choose|i: int| 0 <= i < r@.len() && r@[i] == x;
                        if i < before.len() {
                            assert(before[i] == x);
                            assert(before.contains(x));
                        } else {
                            assert(self.teacher_connections@[k as int] == x);
                        }
                    }
                    if after_students.contains(x) || exists|j: int| 0 <= j < k + 1 && self.teacher_connections@[j] == x && exclude != Some(x) {
                        if after_students.contains(x) {
                            assert(before.contains(x));
                        } else {
                            let j = choose|j: int| 0 <= j < k + 1 && self.teacher_connections@[j] == x && exclude != Some(x);
                            if j < k {
                                assert(before.contains(x));
                            }
                        }
                        if before.contains(x) {
                            let i = choose|i: int| 0 <= i < before.len() && before[i] == x;
                            assert(r@[i] == x);
                        } else {
                            assert(r@[r@.len() - 1] == x);
                        }
                    }
                }
            }
        }
        r
    }

    /// Sets the cup color of student `id`.
    pub fn choose_cup(&mut self, id: u128, color: CupColor) -> (r: Result<(), StateError>)
        requires
            old(self).wf(),
        ensures
            final(self).wf(),
            final(self).name == old(self).name,
            final(self).teacher_connections == old(self).teacher_connections,
            final(self).questions == old(self).questions,
            !old(self).is_student(id) ==> r == Err::<(), StateError>(StateError::InvalidId)
                && *final(self) == *old(self),
            old(self).is_student(id) ==> r is Ok && cup_chosen(*old(self), *final(self), id, color),
            forall|x: u128| #[trigger] final(self).is_student(x) == old(self).is_student(x),
    {
        match self.find_student(id) {
            Some(k) => {
                let ghost prev = *self;
                assert(student_ids(prev.student_connections@)[k as int] == id);
                self.student_connections.set(k, (id, StudentInfo { cup_selection: Some(color) }));
                assert(student_ids(self.student_connections@) =~= student_ids(
                    prev.student_connections@,
                ));
                assert(forall|x: u128| #[trigger] self.is_student(x) == prev.is_student(x));
                assert(forall|x: u128| #[trigger] self.is_teacher(x) == prev.is_teacher(x));
                Ok(())
            },
            None => Err(StateError::InvalidId),
        }
    }

    /// The room's name, its number of students and how many of them show each
    /// cup color, counted afresh.
    pub fn summary(&self) -> (r: RoomInfo)
        ensures
            room_info_of(r, *self),
    {
        let ghost s = self.student_connections@;
        let mut green: usize = 0;
        let mut yellow: usize = 0;
        let mut red: usize = 0;
        let n = self.student_connections.len();
        for k in 0..n
            invariant
                n == s.len(),
                s == self.student_connections@,
                green == cup_count(s.subrange(0, k as int), CupColor::Green),
                yellow == cup_count(s.subrange(0, k as int), CupColor::Yellow),
                red == cup_count(s.subrange(0, k as int), CupColor::Red),
        {
            proof {
                lemma_cup_count_bound(s.subrange(0, k as int), CupColor::Green);
                lemma_cup_count_bound(s.subrange(0, k as int), CupColor::Yellow);
                lemma_cup_count_bound(s.subrange(0, k as int), CupColor::Red);
                assert(s.subrange(0, k + 1).drop_last() =~= s.subrange(0, k as int));
            }
            match self.student_connections[k].1.cup_selection {
                Some(CupColor::Green) => {
                    green = green + 1;
                },
                Some(CupColor::Yellow) => {
                    yellow = yellow + 1;
                },
                Some(CupColor::Red) => {
                    red = red + 1;
                },
                None => {},
            }
        }
        assert(s.subrange(0, n as int) =~= s);
        RoomInfo {
            name: self.name.clone(),
            connections: n,
            green,
            yellow,
            red,
        }
    }
}

} // verus!
