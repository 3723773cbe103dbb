//! What goes back to a client.

use vstd::prelude::*;

verus! {

/// Why a request fails, in the terms of HTTP.
#[derive(Debug, Clone, Copy, PartialEq, Eq, Structural)]
pub enum Status {
    NotFound,
    InternalServerError,
}

/// What a client is told of a request that fails.
#[derive(Debug)]
pub struct Failure {
    pub status: Status,
    pub msg: String,
}

/// The values of a `Failure`.
pub struct FailureView {
    pub status: Status,
    pub msg: Seq<char>,
}

impl View for Failure {
    type V = FailureView;

    open spec fn view(&self) -> FailureView {
        FailureView { status: self.status, msg: self.msg@ }
    }
}

/// A failure of the server, with a message.
pub open spec fn server_failure(msg: Seq<char>) -> FailureView {
    FailureView { status: Status::InternalServerError, msg }
}

impl Failure {
    /// A failure of the server, with a message.
    pub fn new(msg: String) -> (r: Failure)
        ensures
            r == (Failure { status: Status::InternalServerError, msg }),
            r@ == server_failure(msg@),
    {
        Failure { status: Status::InternalServerError, msg }
    }
}

/// What is answered, given the outcome of some work: an error is a failure of the
/// server, with the error as its message.
pub open spec fn answered<T>(outcome: Result<T, String>) -> Result<T, Failure> {
    match outcome {
        Ok(value) => Ok(value),
        Err(msg) => Err(Failure { status: Status::InternalServerError, msg }),
    }
}

/// What is answered, given the outcome of some work.
pub fn answer<T>(outcome: Result<T, String>) -> (r: Result<T, Failure>)
    ensures
        r == answered(outcome),
{
    match outcome {
        Ok(value) => Ok(value),
        Err(msg) => Err(Failure::new(msg)),
    }
}

/// What kind of thing the body of an answer is.
#[derive(Debug, Clone, Copy, PartialEq, Eq, Structural)]
pub enum ContentType {
    Html,
    Css,
    Json,
    OctetStream,
    EventStream,
}

/// A page: its bytes, and what they are.
#[derive(Debug)]
pub struct Page {
    pub content_type: ContentType,
    pub body: Vec<u8>,
}

/// A failure of the server has the status for that and the message it was given; the
/// outcome of some work is answered as it is, its error as such a failure.
pub proof fn law_errors_are_failures_of_the_server<T>(msg: Seq<char>, outcome: Result<T, String>)
    ensures
        server_failure(msg).status == Status::InternalServerError,
        server_failure(msg).msg == msg,
        match outcome {
            Ok(value) => answered(outcome) == Ok::<T, Failure>(value),
            Err(e) => answered(outcome) matches Err(failure) && failure.status
                == Status::InternalServerError && failure.msg == e,
        },
{
}

/// The view of a failure shows its status and its message.
pub proof fn law_failure_view_shows_every_field(failure: Failure)
    ensures
        failure@.status == failure.status,
        failure@.msg == failure.msg@,
{
}

} // verus!
