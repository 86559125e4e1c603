//! What can go wrong while a document is localized.

use vstd::prelude::*;

verus! {

/// A failure that ends a job or the whole run. The messages are those that
/// the caller reported; the library carries them through unchanged.
///
/// One failed call of the translation service is no such failure yet: it
/// is reported to its job as an event, the job gives up the attempt, and
/// only when the retries are used up does it fail for good.
#[derive(Debug, PartialEq, Eq)]
pub enum Failure {
    /// The supported languages could not be listed: no job was started.
    ServiceHandshake(String),
    /// The input text is not a JSON document. Retrying cannot mend that.
    Parse,
    /// The last attempt that the retry policy allows failed as well; the
    /// message is that of its failed call.
    RetryExhausted(String),
    /// The translated document could not be stored at its destination.
    Write(String),
}

/// The mathematical value of a [`Failure`].
pub enum FailureView {
    ServiceHandshake(Seq<char>),
    Parse,
    RetryExhausted(Seq<char>),
    Write(Seq<char>),
}

impl View for Failure {
    type V = FailureView;

    open spec fn view(&self) -> FailureView {
        match self {
            Failure::ServiceHandshake(message) => FailureView::ServiceHandshake(message@),
            Failure::Parse => FailureView::Parse,
            Failure::RetryExhausted(message) => FailureView::RetryExhausted(message@),
            Failure::Write(message) => FailureView::Write(message@),
        }
    }
}

impl Clone for Failure {
    fn clone(&self) -> (copy: Failure)
        ensures
            copy@ == self@,
    {
        match self {
            Failure::ServiceHandshake(message) => Failure::ServiceHandshake(message.clone()),
            Failure::Parse => Failure::Parse,
            Failure::RetryExhausted(message) => Failure::RetryExhausted(message.clone()),
            Failure::Write(message) => Failure::Write(message.clone()),
        }
    }
}

} // verus!
