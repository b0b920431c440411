//! A multiple-choice question with per-student answers, and the text-based
//! remapping of answers when its options are edited.
use std::collections::HashMap;
use itertools::Itertools;
use vstd::prelude::*;
use crate::error::StateError;
use crate::message::{QuestionId, QuestionInfo};

verus! {

broadcast use {vstd::std_specs::hash::group_hash_axioms, vstd::seq_lib::group_to_multiset_ensures};

/// The option texts of a list of options.
pub open spec fn option_texts(v: Seq<String>) -> Seq<Seq<char>> {
    v.map_values(|s: String| s@)
}

/// The chosen option index of each recorded answer, in storage order.
pub open spec fn answer_values(a: Seq<(u128, usize)>) -> Seq<usize> {
    a.map_values(|p: (u128, usize)| p.1)
}

/// No student has two entries.
pub open spec fn unique_students(a: Seq<(u128, usize)>) -> bool {
    forall|j: int, k: int| 0 <= j < k < a.len() ==> a[j].0 != a[k].0
}

/// Whether `student` has an entry.
pub open spec fn has_entry(a: Seq<(u128, usize)>, student: u128) -> bool {
    exists|k: int| 0 <= k < a.len() && a[k].0 == student
}

/// The answers as a map from student id to option index.
pub open spec fn answers_map(a: Seq<(u128, usize)>) -> Map<u128, usize> {
    Map::new(
        |st: u128| has_entry(a, st),
        |st: u128| a[choose|k: int| 0 <= k < a.len() && a[k].0 == st].1,
    )
}

/// `j` is the first position of `t` in `opts`.
pub open spec fn is_first_position(opts: Seq<Seq<char>>, t: Seq<char>, j: int) -> bool {
    0 <= j < opts.len() && opts[j] == t && forall|k: int| 0 <= k < j ==> opts[k] != t
}

/// The first position of `t` in `opts` (meaningful when `opts` contains `t`).
pub open spec fn first_index(opts: Seq<Seq<char>>, t: Seq<char>) -> int {
    choose|j: int| is_first_position(opts, t, j)
}

/// The answers after the options change from `old` to `new`: a student keeps an
/// answer exactly when the text of the chosen option occurs in `new`, and then
/// points at its first occurrence there.
pub open spec fn remap_answers(m: Map<u128, usize>, old: Seq<Seq<char>>, new: Seq<Seq<char>>) -> Map<
    u128,
    usize,
> {
    Map::new(
        |st: u128| m.contains_key(st) && new.contains(old[m[st] as int]),
        |st: u128| first_index(new, old[m[st] as int]) as usize,
    )
}

/// Entry `k` of `a` remaps to `p`.
pub open spec fn remapped_at(
    a: Seq<(u128, usize)>,
    old_t: Seq<Seq<char>>,
    new_t: Seq<Seq<char>>,
    k: int,
    p: (u128, usize),
) -> bool {
    &&& 0 <= k < a.len()
    &&& a[k].0 == p.0
    &&& new_t.contains(old_t[a[k].1 as int])
    &&& p.1 == first_index(new_t, old_t[a[k].1 as int])
}

/// One of the first `n` entries of `a` remaps to `p`.
pub open spec fn remapped_from(
    a: Seq<(u128, usize)>,
    old_t: Seq<Seq<char>>,
    new_t: Seq<Seq<char>>,
    n: int,
    p: (u128, usize),
) -> bool {
    exists|k: int| #[trigger] remapped_at(a, old_t, new_t, k, p) && k < n
}

pub proof fn lemma_answers_map_at(a: Seq<(u128, usize)>, k: int)
    requires
        unique_students(a),
        0 <= k < a.len(),
    ensures
        answers_map(a).contains_key(a[k].0),
        answers_map(a)[a[k].0] == a[k].1,
{
    let st = a[k].0;
    assert(has_entry(a, st));
    let k2 = choose|k2: int| 0 <= k2 < a.len() && a[k2].0 == st;
    assert(k2 == k);
}

pub proof fn lemma_first_index(opts: Seq<Seq<char>>, t: Seq<char>, j: int)
    requires
        is_first_position(opts, t, j),
    ensures
        first_index(opts, t) == j,
{
    let f = first_index(opts, t);
    assert(is_first_position(opts, t, f));
    if f < j {
        assert(opts[f] != t);
    } else if j < f {
        assert(opts[j] != t);
    }
}

/// Two seqs of answers with the same keys and values give the same map.
pub proof fn lemma_answers_map_ext(b: Seq<(u128, usize)>, m: Map<u128, usize>)
    requires
        unique_students(b),
        forall|st: u128| #[trigger] has_entry(b, st) == m.contains_key(st),
        forall|k: int| 0 <= k < b.len() ==> m[#[trigger] b[k].0] == b[k].1,
    ensures
        answers_map(b) == m,
{
    assert forall|st: u128| #[trigger] answers_map(b).contains_key(st) implies answers_map(b)[st]
        == m[st] by {
        let k = choose|k: int| 0 <= k < b.len() && b[k].0 == st;
        lemma_answers_map_at(b, k);
    }
    assert(answers_map(b).dom() =~= m.dom());
    assert(answers_map(b) =~= m);
}

pub proof fn lemma_answers_push(a: Seq<(u128, usize)>, p: (u128, usize))
    requires
        unique_students(a),
        !has_entry(a, p.0),
    ensures
        unique_students(a.push(p)),
        answers_map(a.push(p)) == answers_map(a).insert(p.0, p.1),
{
    let b = a.push(p);
    let m = answers_map(a).insert(p.0, p.1);
    assert(unique_students(b));
    assert forall|st: u128| #[trigger] has_entry(b, st) == m.contains_key(st) by {
        if has_entry(b, st) {
            let k = choose|k: int| 0 <= k < b.len() && b[k].0 == st;
            if k < a.len() {
                assert(has_entry(a, st));
            }
        }
        if m.contains_key(st) && st != p.0 {
            let k = choose|k: int| 0 <= k < a.len() && a[k].0 == st;
            assert(b[k].0 == st);
        }
        if st == p.0 {
            assert(b[a.len() as int].0 == st);
        }
    }
    assert forall|k: int| 0 <= k < b.len() implies m[#[trigger] b[k].0] == b[k].1 by {
        if k < a.len() {
            lemma_answers_map_at(a, k);
            assert(b[k].0 != p.0);
        }
    }
    lemma_answers_map_ext(b, m);
}

pub proof fn lemma_answers_update(a: Seq<(u128, usize)>, k: int, v: usize)
    requires
        unique_students(a),
        0 <= k < a.len(),
    ensures
        unique_students(a.update(k, (a[k].0, v))),
        answers_map(a.update(k, (a[k].0, v))) == answers_map(a).insert(a[k].0, v),
{
    let b = a.update(k, (a[k].0, v));
    let m = answers_map(a).insert(a[k].0, v);
    assert(unique_students(b));
    assert forall|st: u128| #[trigger] has_entry(b, st) == m.contains_key(st) by {
        if has_entry(b, st) {
            let k2 = choose|k2: int| 0 <= k2 < b.len() && b[k2].0 == st;
            assert(a[k2].0 == st);
        }
        if m.contains_key(st) && st != a[k].0 {
            let k2 = choose|k2: int| 0 <= k2 < a.len() && a[k2].0 == st;
            assert(b[k2].0 == st);
        }
        if st == a[k].0 {
            assert(b[k].0 == st);
        }
    }
    assert forall|k2: int| 0 <= k2 < b.len() implies m[#[trigger] b[k2].0] == b[k2].1 by {
        if k2 != k {
            lemma_answers_map_at(a, k2);
        }
    }
    lemma_answers_map_ext(b, m);
}

pub proof fn lemma_answers_remove(a: Seq<(u128, usize)>, k: int)
    requires
        unique_students(a),
        0 <= k < a.len(),
    ensures
        unique_students(a.remove(k)),
        answers_map(a.remove(k)) == answers_map(a).remove(a[k].0),
        answer_values(a.remove(k)) == answer_values(a).remove(k),
{
    let b = a.remove(k);
    let m = answers_map(a).remove(a[k].0);
    assert(unique_students(b)) by {
        assert forall|i: int, j: int| 0 <= i < j < b.len() implies b[i].0 != b[j].0 by {
            let ii = if i < k { i } else { i + 1 };
            let jj = if j < k { j } else { j + 1 };
            assert(b[i] == a[ii]);
            assert(b[j] == a[jj]);
        }
    }
    assert forall|st: u128| #[trigger] has_entry(b, st) == m.contains_key(st) by {
        if has_entry(b, st) {
            let i = choose|i: int| 0 <= i < b.len() && b[i].0 == st;
            let ii = if i < k { i } else { i + 1 };
            assert(a[ii].0 == st);
            assert(has_entry(a, st));
        }
        if m.contains_key(st) {
            let i = choose|i: int| 0 <= i < a.len() && a[i].0 == st;
            assert(i != k);
            let bi = if i < k { i } else { i - 1 };
            assert(b[bi].0 == st);
        }
    }
    assert forall|i: int| 0 <= i < b.len() implies m[#[trigger] b[i].0] == b[i].1 by {
        let ii = if i < k { i } else { i + 1 };
        assert(b[i] == a[ii]);
        lemma_answers_map_at(a, ii);
    }
    lemma_answers_map_ext(b, m);
    assert(answer_values(b) =~= answer_values(a).remove(k));
}

/// Relies on itertools' `Itertools::counts`: a map from each value that occurs
/// to the number of its occurrences.
#[verifier::external_body]
fn count_values(v: &Vec<usize>) -> (r: HashMap<usize, usize>)
    ensures
        forall|x: usize| #[trigger] r@.contains_key(x) == (v@.to_multiset().count(x) > 0),
        forall|x: usize| r@.contains_key(x) ==> r@[x] as nat == #[trigger] v@.to_multiset().count(x),
{
    v.iter().copied().counts()
}

/// The first position of `text` in `options`.
pub fn first_position(options: &Vec<String>, text: &String) -> (r: Option<usize>)
    ensures
        match r {
            Some(j) => is_first_position(option_texts(options@), text@, j as int),
            None => !option_texts(options@).contains(text@),
        },
{
    let mut j: usize = 0;
    while j < options.len()
        invariant
            j <= options.len(),
            forall|k: int| 0 <= k < j ==> options@[k]@ != text@,
        decreases options.len() - j,
    {
        if options[j] == *text {
            return Some(j);
        }
        j = j + 1;
    }
    None
}

/// `info` shows question `id`: its title, its options and the number of
/// answers for each option.
pub open spec fn question_info_of(info: QuestionInfo, id: u128, q: QuestionState) -> bool {
    &&& info.id == QuestionId(id)
    &&& info.title@ == q.title@
    &&& option_texts(info.options@) == option_texts(q.options@)
    &&& info.answers@.len() == q.options@.len()
    &&& forall|i: int|
        0 <= i < info.answers@.len() ==> info.answers@[i] as nat == q.answer_count(i as usize)
}

/// `new` is `old` after a change of title and/or options: the title is
/// replaced when one is given; new options replace the old ones, and each
/// answer follows the text of its option or is dropped.
pub open spec fn modified(
    old: QuestionState,
    new: QuestionState,
    title: Option<String>,
    options: Option<Vec<String>>,
) -> bool {
    &&& new.wf()
    &&& new.title@ == match title {
        Some(t) => t@,
        None => old.title@,
    }
    &&& match options {
        Some(o) => new.options@ == o@ && new.answer_map() == remap_answers(
            old.answer_map(),
            option_texts(old.options@),
            option_texts(o@),
        ),
        None => new.options == old.options && new.answers == old.answers,
    }
}

/// A copy of a list of texts.
pub fn clone_options(v: &Vec<String>) -> (r: Vec<String>)
    ensures
        option_texts(r@) == option_texts(v@),
{
    let mut r: Vec<String> = Vec::new();
    let n = v.len();
    for k in 0..n
        invariant
            n == v@.len(),
            r@.len() == k,
            forall|j: int| 0 <= j < k ==> r@[j]@ == v@[j]@,
    {
        r.push(v[k].clone());
    }
    assert(option_texts(r@) =~= option_texts(v@));
    r
}

/// Answering twice leaves the student exactly one recorded answer: the later one.
pub proof fn law_answer_twice(
    q0: QuestionState,
    q1: QuestionState,
    q2: QuestionState,
    student: u128,
    first: usize,
    second: usize,
)
    requires
        q0.wf(),
        q1.wf(),
        q2.wf(),
        first < q0.options@.len(),
        second < q0.options@.len(),
        q1.options == q0.options,
        q1.answer_map() == q0.answer_map().insert(student, first),
        q2.options == q1.options,
        q2.answer_map() == q1.answer_map().insert(student, second),
    ensures
        q2.answer_map()[student] == second,
        exists|k: int|
            0 <= k < q2.answers@.len() && q2.answers@[k] == (student, second) && forall|j: int|
                0 <= j < q2.answers@.len() && q2.answers@[j].0 == student ==> j == k,
{
    let a = q2.answers@;
    assert(answers_map(a).contains_key(student));
    let k = choose|k: int| 0 <= k < a.len() && a[k].0 == student;
    lemma_answers_map_at(a, k);
    assert(a[k] == (student, second));
}

/// A question: a title, an ordered list of options and the students' answers.
#[derive(Debug)]
pub struct QuestionState {
    pub title: String,
    pub options: Vec<String>,
    /// Student id and chosen option index; one entry per student.
    pub answers: Vec<(u128, usize)>,
}

impl QuestionState {
    /// Every student has one entry, and every entry points at an existing option.
    pub open spec fn wf(&self) -> bool {
        &&& unique_students(self.answers@)
        &&& forall|k: int| 0 <= k < self.answers@.len() ==> self.answers@[k].1 < self.options@.len()
    }

    pub open spec fn answer_map(&self) -> Map<u128, usize> {
        answers_map(self.answers@)
    }

    /// How many students chose option `i`.
    pub open spec fn answer_count(&self, i: usize) -> nat {
        answer_values(self.answers@).to_multiset().count(i)
    }

    pub fn new(title: String, options: Vec<String>) -> (r: Self)
        ensures
            r.wf(),
            r.title == title,
            r.options == options,
            r.answers@.len() == 0,
    {
        QuestionState { title, options, answers: Vec::new() }
    }

    /// The question as shown to clients, under id `id`.
    pub fn info(&self, id: u128) -> (r: QuestionInfo)
        requires
            self.wf(),
        ensures
            question_info_of(r, id, *self),
    {
        let answers = self.summary();
        QuestionInfo {
            id: QuestionId(id),
            title: self.title.clone(),
            options: clone_options(&self.options),
            answers,
        }
    }

    /// Records `answer` as the choice of `student_id`, replacing an earlier one.
    pub fn answer(&mut self, student_id: u128, answer: usize) -> (r: Result<(), StateError>)
        requires
            old(self).wf(),
        ensures
            final(self).wf(),
            final(self).title == old(self).title,
            final(self).options == old(self).options,
            answer >= old(self).options@.len() ==> r == Err::<(), StateError>(
                StateError::InvalidAnswer(answer),
            ) && final(self).answers == old(self).answers,
            answer < old(self).options@.len() ==> r is Ok && final(self).answer_map() == old(self).answer_map().insert(student_id, answer),
    {
        if answer >= self.options.len() {
            return Err(StateError::InvalidAnswer(answer));
        }
        let mut k: usize = 0;
        while k < self.answers.len()
            invariant
                self.wf(),
                self == old(self),
                answer < self.options@.len(),
                k <= self.answers@.len(),
                forall|i: int| 0 <= i < k ==> self.answers@[i].0 != student_id,
            decreases self.answers@.len() - k,
        {
            if self.answers[k].0 == student_id {
                proof {
                    lemma_answers_update(self.answers@, k as int, answer);
                }
                self.answers.set(k, (student_id, answer));
                return Ok(());
            }
            k = k + 1;
        }
        proof {
            lemma_answers_push(self.answers@, (student_id, answer));
        }
        self.answers.push((student_id, answer));
        Ok(())
    }

    /// Drops the answer of `student_id`; tells whether there was one.
    pub fn remove_student(&mut self, student_id: u128) -> (r: bool)
        requires
            old(self).wf(),
        ensures
            final(self).wf(),
            final(self).title == old(self).title,
            final(self).options == old(self).options,
            r == old(self).answer_map().contains_key(student_id),
            final(self).answer_map() == old(self).answer_map().remove(student_id),
            forall|i: usize| #[trigger] final(self).answer_count(i) == if r && i == old(self).answer_map()[student_id] {
                (old(self).answer_count(i) - 1) as nat
            } else {
                old(self).answer_count(i)
            },
    {
        let mut k: usize = 0;
        while k < self.answers.len()
            invariant
                self.wf(),
                self == old(self),
                k <= self.answers@.len(),
                forall|i: int| 0 <= i < k ==> self.answers@[i].0 != student_id,
            decreases self.answers@.len() - k,
        {
            if self.answers[k].0 == student_id {
                let ghost a = self.answers@;
                proof {
                    lemma_answers_remove(a, k as int);
                    lemma_answers_map_at(a, k as int);
                    vstd::seq_lib::to_multiset_remove(answer_values(a), k as int);
                }
                self.answers.remove(k);
                proof {
                    assert forall|i: int| 0 <= i < self.answers@.len() implies self.answers@[i].1
                        < self.options@.len() by {
                        let ii = if i < k { i } else { i + 1 };
                        assert(self.answers@[i] == a[ii]);
                    }
                }
                return true;
            }
            k = k + 1;
        }
        assert(!has_entry(self.answers@, student_id));
        assert(self.answer_map().remove(student_id) =~= self.answer_map());
        false
    }

    /// The number of answers for each option, in option order.
    pub fn summary(&self) -> (r: Vec<usize>)
        requires
            self.wf(),
        ensures
            r@.len() == self.options@.len(),
            forall|i: int| 0 <= i < r@.len() ==> r@[i] as nat == self.answer_count(i as usize),
    {
        let mut values: Vec<usize> = Vec::new();
        let mut k: usize = 0;
        while k < self.answers.len()
            invariant
                k <= self.answers@.len(),
                values@ == answer_values(self.answers@.subrange(0, k as int)),
            decreases self.answers@.len() - k,
        {
            values.push(self.answers[k].1);
            k = k + 1;
            assert(answer_values(self.answers@.subrange(0, k as int)) =~= answer_values(
                self.answers@.subrange(0, k - 1),
            ).push(self.answers@[k - 1].1));
        }
        assert(self.answers@.subrange(0, k as int) =~= self.answers@);
        let counts = count_values(&values);
        let mut r: Vec<usize> = Vec::new();
        let mut i: usize = 0;
        while i < self.options.len()
            invariant
                i <= self.options@.len(),
                r@.len() == i,
                values@ == answer_values(self.answers@),
                forall|x: usize| #[trigger] counts@.contains_key(x) == (values@.to_multiset().count(
                    x,
                ) > 0),
                forall|x: usize|
                    counts@.contains_key(x) ==> counts@[x] as nat
                        == #[trigger] values@.to_multiset().count(x),
                forall|j: int| 0 <= j < i ==> r@[j] as nat == self.answer_count(j as usize),
            decreases self.options@.len() - i,
        {
            let c: usize = match counts.get(&i) {
                Some(c) => *c,
                None => 0,
            };
            r.push(c);
            i = i + 1;
        }
        r
    }

    /// Replaces the title and, when given, the options; recorded answers follow
    /// the text of their option into the new list, and are dropped where that
    /// text is gone.
    pub fn modify(&mut self, title: Option<String>, options: Option<Vec<String>>)
        requires
            old(self).wf(),
        ensures
            final(self).wf(),
            modified(*old(self), *final(self), title, options),
    {
        if let Some(title) = title {
            self.title = title;
        }
        if let Some(new_options) = options {
            let ghost a = self.answers@;
            let ghost old_t = option_texts(self.options@);
            let ghost new_t = option_texts(new_options@);
            let mut kept: Vec<(u128, usize)> = Vec::new();
            let n = self.answers.len();
            for k in 0..n
                invariant
                    self.wf(),
                    a == self.answers@,
                    n == a.len(),
                    old_t == option_texts(self.options@),
                    new_t == option_texts(new_options@),
                    unique_students(kept@),
                    forall|j: int| 0 <= j < kept@.len() ==> kept@[j].1 < new_options@.len(),
                    forall|j: int|
                        0 <= j < kept@.len() ==> remapped_from(a, old_t, new_t, k as int, #[trigger] kept@[j]),
                    forall|k2: int|
                        0 <= k2 < k && new_t.contains(old_t[a[k2].1 as int]) ==> #[trigger] has_entry(
                            kept@,
                            a[k2].0,
                        ),
            {
                let st = self.answers[k].0;
                let idx = self.answers[k].1;
                match first_position(&new_options, &self.options[idx]) {
                    Some(j) => {
                        proof {
                            lemma_first_index(new_t, old_t[idx as int], j as int);
                            assert(new_t[j as int] == old_t[idx as int]);
                            assert forall|i: int| 0 <= i < kept@.len() implies kept@[i].0 != st by {
                                assert(remapped_from(a, old_t, new_t, k as int, kept@[i]));
                                let k2 = choose|k2: int| remapped_at(a, old_t, new_t, k2, kept@[i]) && k2 < k;
                                assert(a[k2].0 != a[k as int].0);
                            }
                            lemma_answers_push(kept@, (st, j));
                        }
                        let ghost prev = kept@;
                        kept.push((st, j));
                        proof {
                            let kl = kept@.len() - 1;
                            assert(remapped_at(a, old_t, new_t, k as int, kept@[kl]));
                            assert forall|i: int| 0 <= i < kept@.len() implies remapped_from(
                                a,
                                old_t,
                                new_t,
                                k + 1,
                                #[trigger] kept@[i],
                            ) by {
                                if i < kl {
                                    assert(remapped_from(a, old_t, new_t, k as int, prev[i]));
                                    let k2 = choose|k2: int|
                                        remapped_at(a, old_t, new_t, k2, prev[i]) && k2 < k;
                                    assert(remapped_at(a, old_t, new_t, k2, kept@[i]));
                                } else {
                                    assert(remapped_at(a, old_t, new_t, k as int, kept@[i]));
                                }
                            }
                            assert(kept@[kl].0 == a[k as int].0);
                            assert forall|k2: int|
                                0 <= k2 < k + 1 && new_t.contains(old_t[a[k2].1 as int])
                                implies #[trigger] has_entry(kept@, a[k2].0) by {
                                if k2 < k {
                                    assert(has_entry(prev, a[k2].0));
                                    let j2 = choose|j2: int|
                                        0 <= j2 < prev.len() && prev[j2].0 == a[k2].0;
                                    assert(kept@[j2].0 == a[k2].0);
                                } else {
                                    assert(kept@[kl].0 == a[k2].0);
                                }
                            }
                        }
                    },
                    None => {
                        proof {
                            assert forall|k2: int|
                                0 <= k2 < k + 1 && new_t.contains(old_t[a[k2].1 as int])
                                implies #[trigger] has_entry(kept@, a[k2].0) by {
                                if k2 == k {
                                    assert(!new_t.contains(old_t[a[k2].1 as int]));
                                }
                            }
                        }
                    },
                }
            }
            proof {
                let om = answers_map(a);
                let m = remap_answers(om, old_t, new_t);
                assert forall|st: u128| #[trigger] has_entry(kept@, st) == m.contains_key(st) by {
                    if has_entry(kept@, st) {
                        let j = choose|j: int| 0 <= j < kept@.len() && kept@[j].0 == st;
                        assert(remapped_from(a, old_t, new_t, n as int, kept@[j]));
                        let k2 = choose|k2: int| remapped_at(a, old_t, new_t, k2, kept@[j]) && k2 < n;
                        lemma_answers_map_at(a, k2);
                    }
                    if m.contains_key(st) {
                        let k2 = choose|k2: int| 0 <= k2 < a.len() && a[k2].0 == st;
                        lemma_answers_map_at(a, k2);
                    }
                }
                assert forall|j: int| 0 <= j < kept@.len() implies m[#[trigger] kept@[j].0]
                    == kept@[j].1 by {
                    assert(remapped_from(a, old_t, new_t, n as int, kept@[j]));
                    let k2 = choose|k2: int| remapped_at(a, old_t, new_t, k2, kept@[j]) && k2 < n;
                    lemma_answers_map_at(a, k2);
                }
                lemma_answers_map_ext(kept@, m);
            }
            self.answers = kept;
            self.options = new_options;
        }
    }
}

} // verus!
