//! The message shapes exchanged between the engine and its transport.
//!
//! The transport decodes wire bytes into [`Request`] values and encodes
//! [`Response`] values back; the byte encoding itself is the transport's
//! concern and stays outside the verified crate.

use vstd::prelude::*;

use crate::answer::Answer;
use crate::config::TestSettings;
use crate::score::Score;

verus! {

/// One client request: who asks, about which test, and what to do.
#[derive(Debug, PartialEq)]
pub struct Request {
    pub user: String,
    pub test: String,
    pub command: Command,
}

impl Request {
    pub fn new(user: &str, test: &str, command: Command) -> (r: Request)
        ensures
            r.user@ == user@,
            r.test@ == test@,
            r.command == command,
    {
        Request { user: user.to_owned(), test: test.to_owned(), command }
    }
}

/// The client-visible operations.
#[derive(Debug, PartialEq)]
pub enum Command {
    GetAvaliableTests,
    StartTest,
    GetNextQuestion,
    PutAnswer { answer: Answer },
}

/// How finished attempts are presented: nothing yet, the numeric marks, or
/// an opaque "completed" marker when the test hides its results.
#[derive(Debug, PartialEq)]
pub enum Marks {
    Marks { marks: Vec<Score> },
    Done,
    Empty,
}

/// How a `Marks` value presents a recorded history: nothing recorded shows
/// as `Empty`; otherwise the numeric marks when the test exposes results,
/// and the opaque `Done` marker when it does not (or its settings are
/// gone).
pub open spec fn marks_match(m: Marks, history: Seq<Score>, settings: Option<TestSettings>) -> bool {
    if history.len() == 0 {
        m == Marks::Empty
    } else {
        match settings {
            Some(st) => if st.show_results {
                m matches Marks::Marks { marks } && marks@ == history
            } else {
                m == Marks::Done
            },
            None => m == Marks::Done,
        }
    }
}

/// What the engine answers to one request.
#[derive(Debug, PartialEq)]
pub enum Response {
    /// Test names available to the user, each with its displayable result.
    AvaliableTests { tests: Vec<(String, Marks)> },
    /// The test's banner; shown before the first question.
    TestStarted { banner: String },
    /// The next unanswered question.
    NextQuestion { question: String, answers: Vec<String> },
    /// An answer was accepted and more questions remain.
    Ack,
    /// The attempt is over; `marks` shows the recorded history.
    End { marks: Marks },
    /// The user is unknown or lacks access.
    NotAllowedUser,
    /// A collaborator lookup failed, or the operation needs a session that
    /// does not exist.
    ServerError,
    /// The request itself was malformed.
    ResponseError,
}

/// A question as presented to an older generation of clients, kept for
/// their wire protocol: either the next question or a closing result line.
#[derive(Debug, PartialEq)]
pub enum NextQuestion {
    TheEnd { result: String },
    Question { question: String, answers: Vec<String> },
}

} // verus!
