use vstd::prelude::*;

use crate::dict::{dict_get, Dict};
use crate::misc::get_new_id;

verus! {

/// The failures an operation can report. All are synchronous,
/// caller-recoverable conditions surfaced as a structured result, never
/// process-fatal.
#[derive(Debug)]
pub enum MyError {
    /// The registry's exclusion primitive failed; only the caller holding the
    /// lock can meet this.
    LockError,
    /// The request names no action.
    MissingAction,
    /// The request names an action this service does not offer.
    UnknownAction(String),
    /// A required form parameter is absent.
    MissingParameter(String),
    /// No queue is registered under the given identifier.
    QueueNotFound(String),
    /// No topic is registered under the given identifier.
    TopicNotFound(String),
}

pub type MyResult<T> = Result<T, MyError>;

pub open spec fn is_missing_param(e: MyError, name: Seq<char>) -> bool {
    match e {
        MyError::MissingParameter(p) => p@ == name,
        _ => false,
    }
}

pub open spec fn is_queue_not_found(e: MyError, id: Seq<char>) -> bool {
    match e {
        MyError::QueueNotFound(p) => p@ == id,
        _ => false,
    }
}

pub open spec fn is_topic_not_found(e: MyError, id: Seq<char>) -> bool {
    match e {
        MyError::TopicNotFound(p) => p@ == id,
        _ => false,
    }
}

pub open spec fn is_unknown_action(e: MyError, name: Seq<char>) -> bool {
    match e {
        MyError::UnknownAction(p) => p@ == name,
        _ => false,
    }
}

/// The form value under `name`, or the `MissingParameter` error naming it.
pub fn require_param<'a>(form: &'a Dict, name: &str) -> (r: Result<&'a String, MyError>)
    ensures
        match r {
            Ok(v) => dict_get(form@, name@) == Some(v@),
            Err(e) => dict_get(form@, name@) is None && is_missing_param(e, name@),
        },
{
    match form.get(name) {
        Some(v) => Ok(v),
        None => Err(MyError::MissingParameter(String::from_str(name))),
    }
}

impl MyError {
    /// The one-line description of the error.
    pub open spec fn message_spec(&self) -> Seq<char> {
        match self {
            MyError::LockError => "Mutex lock error"@,
            MyError::MissingAction => "Missing action"@,
            MyError::UnknownAction(s) => "Unknown action: "@ + s@,
            MyError::MissingParameter(s) => "Missing parameter: "@ + s@,
            MyError::QueueNotFound(s) => "Queue not found: "@ + s@,
            MyError::TopicNotFound(s) => "Topic not found: "@ + s@,
        }
    }

    pub fn message(&self) -> (r: String)
        ensures
            r@ == self.message_spec(),
    {
        match self {
            MyError::LockError => String::from_str("Mutex lock error"),
            MyError::MissingAction => String::from_str("Missing action"),
            MyError::UnknownAction(s) => {
                let mut r = String::from_str("Unknown action: ");
                r.append(s.as_str());
                r
            },
            MyError::MissingParameter(s) => {
                let mut r = String::from_str("Missing parameter: ");
                r.append(s.as_str());
                r
            },
            MyError::QueueNotFound(s) => {
                let mut r = String::from_str("Queue not found: ");
                r.append(s.as_str());
                r
            },
            MyError::TopicNotFound(s) => {
                let mut r = String::from_str("Topic not found: ");
                r.append(s.as_str());
                r
            },
        }
    }

    /// The error response document carrying this error's message and a
    /// request id.
    pub open spec fn error_response_spec(&self, request_id: Seq<char>) -> Seq<char> {
        "<ErrorResponse><Error><Type>Sender</Type><Code>InvalidParameterValue</Code><Message>"@
            + self.message_spec() + "</Message></Error><RequestId>"@ + request_id
            + "</RequestId></ErrorResponse>"@
    }

    /// Render the error as an XML error response under a fresh request id.
    pub fn get_error_response(&self) -> (r: String)
        ensures
            exists|rid: Seq<char>| rid.len() == 36 && r@ == self.error_response_spec(rid),
    {
        let rid = get_new_id();
        let mut r = String::from_str(
            "<ErrorResponse><Error><Type>Sender</Type><Code>InvalidParameterValue</Code><Message>",
        );
        let msg = self.message();
        r.append(msg.as_str());
        r.append("</Message></Error><RequestId>");
        r.append(rid.as_str());
        r.append("</RequestId></ErrorResponse>");
        proof {
            assert(r@ == self.error_response_spec(rid@));
        }
        r
    }
}

} // verus!
