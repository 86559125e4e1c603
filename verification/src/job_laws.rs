//! What holds of a job over whole attempts: a failed call gives up the
//! attempt, the delays double, and the retries come to an end.

use crate::document::Tree;
use crate::failure::FailureView;
use crate::job::{ActionView, EventView, JobView, StageView};
use crate::json::pretty_json;
use crate::retry::backoff;
use crate::tree_laws::{law_no_empty_request, no_empty};
use vstd::prelude::*;

verus! {

/// The job after the service answered for the next leaves, one by one.
pub open spec fn answered(job: JobView, answers: Seq<Seq<char>>) -> JobView
    decreases answers.len(),
{
    if answers.len() == 0 {
        job
    } else {
        answered(job, answers.drop_last()).step(EventView::Translated(answers.last()))
    }
}

/// One attempt of the service stub: the answers that it gives before it
/// fails, and the message with which it fails.
pub struct FailedAttempt {
    pub answers: Seq<Seq<char>>,
    pub message: Seq<char>,
}

/// The job after one failed attempt, before it waits.
pub open spec fn failed(job: JobView, attempt: FailedAttempt) -> JobView {
    answered(job, attempt.answers).step(EventView::TranslationFailed(attempt.message))
}

/// The job after a run of failed attempts, each followed by its wait.
pub open spec fn retried(job: JobView, attempts: Seq<FailedAttempt>) -> JobView
    decreases attempts.len(),
{
    if attempts.len() == 0 {
        job
    } else {
        failed(retried(job, attempts.drop_last()), attempts.last()).step(EventView::Slept)
    }
}

/// Whether each of the attempts fails before the document is through.
pub open spec fn all_fail_early(attempts: Seq<FailedAttempt>, document: Tree) -> bool {
    forall|i: int|
        0 <= i < attempts.len() ==> (#[trigger] attempts[i]).answers.len() < document.leaves().len()
}

/// A job at the start of the attempt that follows `retries` failed ones.
pub open spec fn at_attempt(job: JobView, document: Tree, retries: nat) -> bool {
    &&& job.stage == StageView::Translating { document, translated: Seq::empty(), retries }
    &&& 0 < document.leaves().len()
}

/// Every step keeps a job well formed.
pub proof fn law_step_keeps_wf(job: JobView, event: EventView)
    requires
        job.wf(),
    ensures
        job.step(event).wf(),
{
}

/// A job that is over stays as it is, whatever is reported to it: it asks
/// for nothing more.
pub proof fn law_over_is_final(job: JobView, event: EventView)
    requires
        job.stage is Done || job.stage is Failed,
    ensures
        job.step(event) == job,
        job.action() is Finished || job.action() is Failed,
{
}

/// No empty string is sent to the service: the text that a job asks to
/// translate holds at least one character.
pub proof fn law_request_is_not_empty(job: JobView)
    requires
        job.wf(),
        job.action() is Translate,
    ensures
        job.action()->Translate_text.len() > 0,
{
    let document = job.stage->Translating_document;
    law_no_empty_request(document);
    assert(no_empty(document.leaves()));
}

/// While answers are missing, an attempt only collects them.
pub proof fn lemma_answered_partly(
    job: JobView,
    document: Tree,
    retries: nat,
    answers: Seq<Seq<char>>,
)
    requires
        at_attempt(job, document, retries),
        answers.len() < document.leaves().len(),
    ensures
        answered(job, answers) == job.at(
            StageView::Translating { document, translated: answers, retries },
        ),
    decreases answers.len(),
{
    if answers.len() > 0 {
        lemma_answered_partly(job, document, retries, answers.drop_last());
        assert(answers.drop_last().push(answers.last()) =~= answers);
    } else {
        assert(answers =~= Seq::empty());
    }
}

/// An attempt that gets an answer for every leaf ends with the translated
/// document, serialized and ready to be stored.
pub proof fn law_attempt_succeeds(
    job: JobView,
    document: Tree,
    retries: nat,
    answers: Seq<Seq<char>>,
)
    requires
        at_attempt(job, document, retries),
        answers.len() == document.leaves().len(),
    ensures
        answered(job, answers) == job.at(
            StageView::Storing { content: pretty_json(document.substitute(answers).json()) },
        ),
{
    lemma_answered_partly(job, document, retries, answers.drop_last());
    assert(answers.drop_last().push(answers.last()) =~= answers);
}

/// A failed call gives up the attempt: whatever was translated before it,
/// the job hands out no document. It waits and begins again with nothing
/// translated, or, where the retries are used up, fails for good.
pub proof fn law_failed_call_gives_up_attempt(job: JobView, message: Seq<char>)
    requires
        job.wf(),
        job.stage is Translating,
    ensures
        ({
            let document = job.stage->Translating_document;
            let retries = job.stage->Translating_retries;
            let next = job.step(EventView::TranslationFailed(message));
            if retries < job.policy.max_retries {
                &&& next == job.at(StageView::Sleeping { document, retries })
                &&& next.action() == ActionView::Sleep {
                    seconds: backoff(job.policy.base_delay, retries),
                }
                &&& next.step(EventView::Slept) == job.at(
                    StageView::Translating {
                        document,
                        translated: Seq::empty(),
                        retries: retries + 1,
                    },
                )
            } else {
                &&& next == job.at(StageView::Failed(FailureView::RetryExhausted(message)))
                &&& next.action() == ActionView::Failed(FailureView::RetryExhausted(message))
            }
        }),
{
}

/// After `k` failed attempts, no more than the policy has retries, the job
/// stands at the start of attempt `k + 1`.
pub proof fn lemma_retried(job: JobView, document: Tree, attempts: Seq<FailedAttempt>)
    requires
        at_attempt(job, document, 0),
        attempts.len() <= job.policy.max_retries,
        all_fail_early(attempts, document),
    ensures
        retried(job, attempts) == job.at(
            StageView::Translating { document, translated: Seq::empty(), retries: attempts.len() },
        ),
        at_attempt(retried(job, attempts), document, attempts.len()),
    decreases attempts.len(),
{
    if attempts.len() > 0 {
        let earlier = attempts.drop_last();
        assert forall|i: int| 0 <= i < earlier.len() implies (#[trigger] earlier[i]).answers.len()
            < document.leaves().len() by {
            assert(earlier[i] == attempts[i]);
        }
        lemma_retried(job, document, earlier);
        lemma_answered_partly(
            retried(job, earlier),
            document,
            earlier.len(),
            attempts.last().answers,
        );
    }
}

/// Retry with backoff. Let the service fail in each of the first `k`
/// attempts, `k` no more than the retries of the policy, and answer every
/// call of the next one. Then the job waits exactly once after each failed
/// attempt, first for the base delay and each time twice as long as the
/// time before, and the last attempt ends with its translated document.
pub proof fn law_retry_with_backoff(
    job: JobView,
    document: Tree,
    attempts: Seq<FailedAttempt>,
    answers: Seq<Seq<char>>,
)
    requires
        at_attempt(job, document, 0),
        attempts.len() <= job.policy.max_retries,
        all_fail_early(attempts, document),
        answers.len() == document.leaves().len(),
    ensures
        forall|i: int|
            0 <= i < attempts.len() ==> (#[trigger] failed(
                retried(job, attempts.take(i)),
                attempts[i],
            )).action() == (ActionView::Sleep {
                seconds: backoff(job.policy.base_delay, i as nat),
            }),
        answered(retried(job, attempts), answers) == job.at(
            StageView::Storing { content: pretty_json(document.substitute(answers).json()) },
        ),
{
    assert forall|i: int| 0 <= i < attempts.len() implies (#[trigger] failed(
        retried(job, attempts.take(i)),
        attempts[i],
    )).action() == (ActionView::Sleep { seconds: backoff(job.policy.base_delay, i as nat) }) by {
        let earlier = attempts.take(i);
        assert forall|j: int| 0 <= j < earlier.len() implies (#[trigger] earlier[j]).answers.len()
            < document.leaves().len() by {
            assert(earlier[j] == attempts[j]);
        }
        lemma_retried(job, document, earlier);
        lemma_answered_partly(retried(job, earlier), document, i as nat, attempts[i].answers);
    }
    lemma_retried(job, document, attempts);
    law_attempt_succeeds(retried(job, attempts), document, attempts.len(), answers);
}

/// Retry exhaustion. Let the service fail in every attempt. Then the job
/// makes one attempt more than the policy has retries: after as many
/// failed attempts as there are retries it tries once more, and the failure
/// of that attempt is final.
pub proof fn law_retry_exhaustion(
    job: JobView,
    document: Tree,
    attempts: Seq<FailedAttempt>,
    last: FailedAttempt,
)
    requires
        at_attempt(job, document, 0),
        attempts.len() == job.policy.max_retries,
        all_fail_early(attempts, document),
        last.answers.len() < document.leaves().len(),
    ensures
        retried(job, attempts).action() is Translate,
        failed(retried(job, attempts), last) == job.at(
            StageView::Failed(FailureView::RetryExhausted(last.message)),
        ),
{
    lemma_retried(job, document, attempts);
    lemma_answered_partly(retried(job, attempts), document, attempts.len(), last.answers);
}

} // verus!
