//! Errors of the room state, of the session protocol and of room
//! administration, with the texts shown to clients.
use vstd::prelude::*;
use vstd::string::StringExecFns;

verus! {

broadcast use vstd::string::group_string_axioms;

/// A failed operation on a room's state.
#[derive(Clone, Copy, Debug, PartialEq, Eq, Structural)]
pub enum StateError {
    /// The session id is not a student of the room.
    InvalidId,
    /// The option index does not exist.
    InvalidAnswer(usize),
}

/// A failed request of a client.
#[derive(Debug)]
pub enum WSError {
    AlreadyConnected,
    NoRoom,
    InvalidRoom(String),
    ParseError,
    InvalidClientId(StateError),
    InvalidQuestionId(u128),
    InvalidAnswer(StateError),
}

/// A failed room administration request.
#[derive(Debug)]
pub enum CupsError {
    RoomAlreadyExists(String),
    NoExistingRoom(String),
    UnexpectedError,
}

/// What `{:?}` shows of a string: the string quoted and escaped.
pub uninterp spec fn debug_text_of(s: Seq<char>) -> Seq<char>;

/// What `{:?}` shows of a UUID: its hyphenated hexadecimal form.
pub uninterp spec fn uuid_text_of(id: u128) -> Seq<char>;

/// The digit for `d < 10`.
pub open spec fn digit(d: nat) -> char {
    if d == 0 { '0' } else if d == 1 { '1' } else if d == 2 { '2' } else if d == 3 { '3' } else if d == 4 {
        '4'
    } else if d == 5 { '5' } else if d == 6 { '6' } else if d == 7 { '7' } else if d == 8 { '8' } else {
        '9'
    }
}

/// The decimal digits of `n`, without leading zeros.
pub open spec fn decimal_text(n: nat) -> Seq<char>
    decreases n,
{
    if n < 10 {
        seq![digit(n)]
    } else {
        decimal_text(n / 10).push(digit(n % 10))
    }
}

/// Relies on `Debug` for `str`: the quoted, escaped text, a function of the
/// characters alone.
#[verifier::external_body]
fn debug_text(s: &String) -> (r: String)
    ensures
        r@ == debug_text_of(s@),
{
    format!("{:?}", s)
}

/// Relies on uuid's `Debug` for `Uuid` (of `Uuid::from_u128(id)`): its
/// hyphenated form, a function of the value alone.
#[verifier::external_body]
fn uuid_text(id: u128) -> (r: String)
    ensures
        r@ == uuid_text_of(id),
{
    format!("{:?}", uuid::Uuid::from_u128(id))
}

/// Relies on `ToString` for `usize`: its decimal digits.
#[verifier::external_body]
fn decimal(n: usize) -> (r: String)
    ensures
        r@ == decimal_text(n as nat),
{
    n.to_string()
}

/// `a`, then `b`, then `c`.
fn join3(a: &str, b: String, c: &str) -> (r: String)
    ensures
        r@ == a@ + b@ + c@,
{
    a.to_string().concat(b.as_str()).concat(c)
}

impl From<StateError> for WSError {
    /// A room-state error as the client sees it.
    fn from(e: StateError) -> (r: WSError) {
        match e {
            StateError::InvalidId => WSError::InvalidClientId(e),
            StateError::InvalidAnswer(_) => WSError::InvalidAnswer(e),
        }
    }
}

impl vstd::std_specs::convert::FromSpecImpl<StateError> for WSError {
    open spec fn obeys_from_spec() -> bool {
        true
    }

    open spec fn from_spec(e: StateError) -> WSError {
        match e {
            StateError::InvalidId => WSError::InvalidClientId(e),
            StateError::InvalidAnswer(_) => WSError::InvalidAnswer(e),
        }
    }
}

impl StateError {
    pub open spec fn text(&self) -> Seq<char> {
        match self {
            StateError::InvalidId => "Invalid client id."@,
            StateError::InvalidAnswer(n) => "Invalid answer: "@ + decimal_text(*n as nat) + "."@,
        }
    }

    /// The text shown for this error.
    pub fn message(&self) -> (r: String)
        ensures
            r@ == self.text(),
    {
        match self {
            StateError::InvalidId => "Invalid client id.".to_string(),
            StateError::InvalidAnswer(n) => join3("Invalid answer: ", decimal(*n), "."),
        }
    }
}

impl WSError {
    pub open spec fn text(&self) -> Seq<char> {
        match self {
            WSError::AlreadyConnected => "Client already connected.."@,
            WSError::NoRoom => "No connected to any room."@,
            WSError::InvalidRoom(name) => "Invalid room: "@ + debug_text_of(name@) + "."@,
            WSError::ParseError => "Failed to parse websocket message."@,
            WSError::InvalidClientId(e) => e.text(),
            WSError::InvalidQuestionId(id) => "Invalid question id: "@ + uuid_text_of(*id) + "."@,
            WSError::InvalidAnswer(e) => e.text(),
        }
    }

    /// The text shown for this error.
    pub fn message(&self) -> (r: String)
        ensures
            r@ == self.text(),
    {
        match self {
            WSError::AlreadyConnected => "Client already connected..".to_string(),
            WSError::NoRoom => "No connected to any room.".to_string(),
            WSError::InvalidRoom(name) => join3("Invalid room: ", debug_text(name), "."),
            WSError::ParseError => "Failed to parse websocket message.".to_string(),
            WSError::InvalidClientId(e) => e.message(),
            WSError::InvalidQuestionId(id) => join3("Invalid question id: ", uuid_text(*id), "."),
            WSError::InvalidAnswer(e) => e.message(),
        }
    }
}

impl CupsError {
    pub open spec fn text(&self) -> Seq<char> {
        match self {
            CupsError::RoomAlreadyExists(name) => "Room "@ + debug_text_of(name@) + " already exists."@,
            CupsError::NoExistingRoom(name) => "Room "@ + debug_text_of(name@) + " doesn't exists."@,
            CupsError::UnexpectedError => "Something went wrong."@,
        }
    }

    /// The text shown for this error.
    pub fn message(&self) -> (r: String)
        ensures
            r@ == self.text(),
    {
        match self {
            CupsError::RoomAlreadyExists(name) => join3("Room ", debug_text(name), " already exists."),
            CupsError::NoExistingRoom(name) => join3("Room ", debug_text(name), " doesn't exists."),
            CupsError::UnexpectedError => "Something went wrong.".to_string(),
        }
    }
}

} // verus!
