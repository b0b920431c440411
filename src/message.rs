//! Messages exchanged with clients: the tasks a client sends and the
//! messages the server pushes back.
use vstd::prelude::*;
use crate::error::WSError;
use crate::question::QuestionState;
use crate::room::questions_info_of;

verus! {

/// Which side of a room a connection is on.
#[derive(Clone, Copy, Debug, PartialEq, Eq, Structural)]
pub enum ConnectionType {
    Student,
    Teacher,
}

/// A student's status signal.
#[derive(Clone, Copy, Debug, PartialEq, Eq, Structural)]
pub enum CupColor {
    Green,
    Yellow,
    Red,
}

/// The id of a question, as its 128-bit value.
#[derive(Clone, Copy, Debug, PartialEq, Eq, Structural)]
pub struct QuestionId(pub u128);

/// Joining a room.
#[derive(Debug)]
pub struct RoomConnectInfo {
    pub room_name: String,
    pub connection_type: ConnectionType,
}

/// A new question: its title and options.
#[derive(Debug)]
pub struct Question {
    pub title: String,
    pub options: Vec<String>,
}

/// Publishing a question for `secs` seconds.
#[derive(Debug)]
pub struct PublishQuestion {
    pub id: QuestionId,
    /// Seconds for the question to be available to students
    pub secs: usize,
}

/// A change of a question's title and/or options.
#[derive(Debug)]
pub struct QuestionModification {
    pub id: u128,
    pub title: Option<String>,
    pub options: Option<Vec<String>>,
}

/// A student's answer to a question.
#[derive(Debug)]
pub struct QuestionAnswer {
    pub id: u128,
    pub answer: usize,
}

/// A task sent by a client.
#[derive(Debug)]
pub enum WSMessage {
    RoomConnect(RoomConnectInfo),
    ChooseCup(CupColor),
    CreateQuestion(Question),
    PublishQuestion(PublishQuestion),
    DeleteQuestion(QuestionId),
    ModifyQuestion(QuestionModification),
    AnswerQuestion(QuestionAnswer),
}

/// The state of a room as its clients see it.
#[derive(Debug)]
pub struct RoomInfo {
    pub name: String,
    pub connections: usize,
    pub green: usize,
    pub yellow: usize,
    pub red: usize,
}

/// A question with the number of answers for each option.
#[derive(Debug)]
pub struct QuestionInfo {
    pub id: QuestionId,
    pub title: String,
    pub options: Vec<String>,
    pub answers: Vec<usize>,
}

/// A question handed out to a room for `secs` seconds.
#[derive(Debug)]
pub struct QuestionPublication {
    pub id: QuestionId,
    pub title: String,
    pub options: Vec<String>,
    /// Seconds for the question to be available to students
    pub secs: usize,
}

/// A message pushed to a client.
#[derive(Debug)]
pub enum ClientMessage {
    /// General acknowledge
    Acknowledge,
    RoomInfo(RoomInfo),
    QuestionsInfo(Vec<QuestionInfo>),
    QuestionPublication(QuestionPublication),
    QuestionDelete(QuestionId),
    Error(String),
}

impl ClientMessage {
    /// An error whose cause is not shown to the client.
    pub fn internal_error() -> (r: Self)
        ensures
            r is Error && r->Error_0@ == "Internal server error"@,
    {
        ClientMessage::Error("Internal server error".to_string())
    }

    /// The error message for `e`.
    pub fn from_error(e: &WSError) -> (r: Self)
        ensures
            r is Error && r->Error_0@ == e.text(),
    {
        ClientMessage::Error(e.message())
    }

    /// Every question of `questions`, with its answer counts, in order.
    pub fn from_questions_map(questions: &Vec<(u128, QuestionState)>) -> (r: Self)
        requires
            forall|k: int| 0 <= k < questions@.len() ==> (#[trigger] questions@[k]).1.wf(),
        ensures
            r is QuestionsInfo && questions_info_of(r->QuestionsInfo_0@, questions@),
    {
        let mut all_info: Vec<QuestionInfo> = Vec::new();
        let n = questions.len();
        for k in 0..n
            invariant
                n == questions@.len(),
                forall|j: int| 0 <= j < questions@.len() ==> (#[trigger] questions@[j]).1.wf(),
                all_info@.len() == k,
                forall|j: int|
                    0 <= j < k ==> crate::question::question_info_of(
                        #[trigger] all_info@[j],
                        questions@[j].0,
                        questions@[j].1,
                    ),
        {
            assert(questions@[k as int].1.wf());
            let info = questions[k].1.info(questions[k].0);
            all_info.push(info);
        }
        ClientMessage::QuestionsInfo(all_info)
    }
}

} // verus!
