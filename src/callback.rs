use vstd::prelude::*;

use crate::wait::Response;

verus! {

/// How a request that awaited a reply ended: answered, or not.
#[derive(Debug, PartialEq, Eq, Structural)]
pub enum ResponseStatus {
    Answered,
    Unanswered,
}

/// The status that an outcome maps to: `Answered` for a reply, `Unanswered` otherwise.
pub open spec fn status_of(answered: bool) -> ResponseStatus {
    if answered {
        ResponseStatus::Answered
    } else {
        ResponseStatus::Unanswered
    }
}

/// The state of a one-shot promise for a reply: empty until the response
/// comes.
pub struct ResponseAwaitingCallbackHandle {
    response: Option<Response>,
}

impl ResponseAwaitingCallbackHandle {
    /// Whether a response came, and whether it was a reply.
    pub closed spec fn outcome(&self) -> Option<bool> {
        match self.response {
            Some(r) => Some(r is Ok),
            None => None,
        }
    }

    pub fn new() -> (r: ResponseAwaitingCallbackHandle)
        ensures
            r.outcome() == None::<bool>,
    {
        ResponseAwaitingCallbackHandle { response: None }
    }

    /// Records the response.
    pub fn on_response(&mut self, response: Response)
        ensures
            final(self).outcome() == Some(response is Ok),
    {
        self.response = Some(response);
    }

    /// What an awaiting task reads: nothing yet, or how the request ended.
    pub fn status(&self) -> (r: Option<ResponseStatus>)
        ensures
            r == match self.outcome() {
                Some(answered) => Some(status_of(answered)),
                None => None::<ResponseStatus>,
            },
    {
        match &self.response {
            Some(Ok(_)) => Some(ResponseStatus::Answered),
            Some(Err(_)) => Some(ResponseStatus::Unanswered),
            None => None,
        }
    }
}

/// The callback that a request registers when the sender awaits its reply.
pub struct ResponseAwaitingCallback {
    handle: ResponseAwaitingCallbackHandle,
}

impl ResponseAwaitingCallback {
    pub fn new() -> (r: ResponseAwaitingCallback)
        ensures
            r.promise().outcome() == None::<bool>,
    {
        ResponseAwaitingCallback { handle: ResponseAwaitingCallbackHandle::new() }
    }

    /// The promise that the awaiting task reads.
    pub closed spec fn promise(&self) -> ResponseAwaitingCallbackHandle {
        self.handle
    }

    /// The promise that the awaiting task reads.
    pub fn handle(&self) -> (r: &ResponseAwaitingCallbackHandle)
        ensures
            *r == self.promise(),
    {
        &self.handle
    }

    /// Hands the response to the promise.
    pub fn on_response(&mut self, response: Response)
        ensures
            final(self).promise().outcome() == Some(response is Ok),
    {
        self.handle.on_response(response);
    }
}

} // verus!
