//! Failures that are told to people.

use vstd::prelude::*;

use crate::text::concat3;

verus! {

/// A failure: what could not be done and, where it is known, why.
#[derive(Debug)]
pub struct Failure {
    pub message: String,
    pub cause: Option<String>,
}

impl Failure {
    /// Whether the failure has this message and no cause.
    pub open spec fn says(&self, message: Seq<char>) -> bool {
        self.message@ == message && self.cause is None
    }

    /// Whether the failure has this message and some cause.
    pub open spec fn says_why(&self, message: Seq<char>) -> bool {
        self.message@ == message && self.cause is Some
    }

    /// A failure without a cause.
    pub fn new(message: &str) -> (failure: Failure)
        ensures
            failure.says(message@),
    {
        Failure { message: message.to_owned(), cause: None }
    }

    /// A failure with a message that is put together.
    pub fn of(message: String) -> (failure: Failure)
        ensures
            failure.says(message@),
    {
        Failure { message, cause: None }
    }

    /// A failure with a cause.
    pub fn caused(message: &str, cause: String) -> (failure: Failure)
        ensures
            failure.message@ == message@,
            failure.cause == Some(cause),
    {
        Failure { message: message.to_owned(), cause: Some(cause) }
    }

    /// The message, and the cause behind it.
    pub fn describe(&self) -> (s: String)
        ensures
            s@ == match self.cause {
                None => self.message@,
                Some(cause) => self.message@ + ": "@ + cause@,
            },
    {
        match &self.cause {
            None => self.message.clone(),
            Some(cause) => concat3(self.message.as_str(), ": ", cause.as_str()),
        }
    }
}

/// A failure is described by its message, and by its cause behind it where it has
/// one.
pub proof fn law_failures_are_described(failure: Failure, told: String)
    requires
        call_ensures(Failure::describe, (&failure,), told),
    ensures
        failure.message@.is_prefix_of(told@),
        failure.cause is None ==> told@.len() == failure.message@.len(),
        failure.cause matches Some(cause) ==> {
            &&& told@.len() == failure.message@.len() + 2 + cause@.len()
            &&& told@[failure.message@.len() as int] == ':'
            &&& told@[failure.message@.len() as int + 1] == ' '
            &&& told@.skip(failure.message@.len() as int + 2) == cause@
        },
{
    reveal_strlit(": ");
    assert(told@.take(failure.message@.len() as int) =~= failure.message@);
    if let Some(cause) = failure.cause {
        assert(told@.skip(failure.message@.len() as int + 2) =~= cause@);
    }
}

} // verus!
