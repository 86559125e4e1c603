//! The fan-out: which languages a document is translated into, one job for
//! each of them, and what the run as a whole came to.

use crate::failure::{Failure, FailureView};
use crate::job::{Job, JobView, StageView};
use crate::retry::RetryPolicy;
use vstd::prelude::*;

verus! {

/// The code by which the service offers to detect the source language. It
/// names no language, so nothing is translated into it.
pub open spec fn sentinel() -> Seq<char> {
    "auto"@
}

/// Whether a listed code is one to translate into: any but the sentinel and
/// the source language.
pub open spec fn is_target(code: Seq<char>, source: Seq<char>) -> bool {
    code != sentinel() && code != source
}

/// The target languages among the first `n` listed codes, in the order of
/// the listing, each once.
pub open spec fn targets(listed: Seq<Seq<char>>, source: Seq<char>, n: nat) -> Seq<Seq<char>>
    decreases n,
{
    if n == 0 || n > listed.len() {
        Seq::empty()
    } else {
        let before = targets(listed, source, (n - 1) as nat);
        let code = listed[n - 1];
        if is_target(code, source) && !before.contains(code) {
            before.push(code)
        } else {
            before
        }
    }
}

/// The target languages of a run: those among all listed codes.
pub open spec fn run_targets(listed: Seq<Seq<char>>, source: Seq<char>) -> Seq<Seq<char>> {
    targets(listed, source, listed.len())
}

/// Whether `codes` holds `code`.
fn holds(codes: &Vec<String>, code: &String) -> (found: bool)
    ensures
        found == codes.deep_view().contains(code@),
{
    let mut i: usize = 0;
    while i < codes.len()
        invariant
            i <= codes.len(),
            forall|j: int| 0 <= j < i ==> codes.deep_view()[j] != code@,
        decreases codes.len() - i,
    {
        if codes[i] == *code {
            assert(codes.deep_view()[i as int] == code@);
            return true;
        }
        i += 1;
    }
    false
}

/// The languages to translate into: the listed codes without the sentinel
/// and the source language, in the order of the listing, each once.
pub fn target_languages(listed: &Vec<String>, source: &str) -> (codes: Vec<String>)
    ensures
        codes.deep_view() == run_targets(listed.deep_view(), source@),
{
    let source = source.to_owned();
    let auto = "auto".to_owned();
    let mut codes: Vec<String> = Vec::new();
    let mut i: usize = 0;
    assert(codes.deep_view() =~= Seq::empty());
    while i < listed.len()
        invariant
            i <= listed.len(),
            auto@ == sentinel(),
            codes.deep_view() == targets(listed.deep_view(), source@, i as nat),
        decreases listed.len() - i,
    {
        let code = &listed[i];
        assert(listed.deep_view()[i as int] == code@);
        if !(*code == auto) && !(*code == source) && !holds(&codes, code) {
            let ghost before = codes.deep_view();
            codes.push(code.clone());
            assert(codes.deep_view() =~= before.push(code@));
        }
        i += 1;
    }
    codes
}

/// The views of a sequence of jobs.
pub open spec fn job_views(jobs: Seq<Job>) -> Seq<JobView> {
    Seq::new(jobs.len(), |i: int| jobs[i]@)
}

/// The jobs of a run: one for each target language, each on the input text,
/// in the order of the target languages. The run fails as a whole, with no
/// job started, where the languages could not be listed.
pub fn plan(
    listing: Result<Vec<String>, String>,
    source: &str,
    policy: RetryPolicy,
    text: &str,
) -> (r: Result<Vec<Job>, Failure>)
    ensures
        match r {
            Ok(jobs) => {
                &&& listing is Ok
                &&& jobs.len() == run_targets(listing->Ok_0.deep_view(), source@).len()
                &&& forall|i: int|
                    0 <= i < jobs.len() ==> {
                        &&& (#[trigger] jobs[i])@.wf()
                        &&& jobs[i]@.starts(
                            source@,
                            run_targets(listing->Ok_0.deep_view(), source@)[i],
                            policy@,
                            text@,
                        )
                    }
            },
            Err(failure) => {
                &&& listing is Err
                &&& failure@ == FailureView::ServiceHandshake(listing->Err_0@)
            },
        },
{
    match listing {
        Ok(listed) => {
            let codes = target_languages(&listed, source);
            let mut jobs: Vec<Job> = Vec::new();
            let mut i: usize = 0;
            while i < codes.len()
                invariant
                    i <= codes.len(),
                    jobs.len() == i,
                    forall|j: int|
                        0 <= j < i ==> {
                            &&& (#[trigger] jobs[j])@.wf()
                            &&& jobs[j]@.starts(source@, codes.deep_view()[j], policy@, text@)
                        },
                decreases codes.len() - i,
            {
                let job = Job::start(source, codes[i].as_str(), policy, text);
                jobs.push(job);
                i += 1;
            }
            Ok(jobs)
        },
        Err(message) => Err(Failure::ServiceHandshake(message)),
    }
}

/// What a finished run reports.
#[derive(Clone, Copy, Debug, PartialEq, Eq)]
pub struct Summary {
    /// How many translations were completed: one for each target language.
    pub completed: usize,
}

/// Whether a job has come to its end.
pub open spec fn is_over(job: JobView) -> bool {
    job.stage is Done || job.stage is Failed
}

/// Whether every job has come to its end.
pub open spec fn all_over(jobs: Seq<JobView>) -> bool {
    forall|i: int| 0 <= i < jobs.len() ==> is_over(#[trigger] jobs[i])
}

/// The failure of the first failed job among the first `n`.
pub open spec fn first_failure(jobs: Seq<JobView>, n: nat) -> Option<FailureView>
    decreases n,
{
    if n == 0 || n > jobs.len() {
        None
    } else {
        match first_failure(jobs, (n - 1) as nat) {
            Some(failure) => Some(failure),
            None => match jobs[n - 1].stage {
                StageView::Failed(failure) => Some(failure),
                _ => None,
            },
        }
    }
}

/// What the run came to: nothing while a job is still under way; then the
/// failure of the first job that failed, or the count of the jobs where
/// none did.
pub open spec fn verdict(jobs: Seq<JobView>) -> Option<Result<nat, FailureView>> {
    if !all_over(jobs) {
        None
    } else {
        match first_failure(jobs, jobs.len()) {
            Some(failure) => Some(Err(failure)),
            None => Some(Ok(jobs.len())),
        }
    }
}

/// What the run came to. It is `None` until every job is over: the run
/// waits for all of them, also after one has failed. A run with a failed
/// job fails with the failure of the first such job, whatever the others
/// stored; else it reports how many translations were completed.
pub fn conclude(jobs: &Vec<Job>) -> (r: Option<Result<Summary, Failure>>)
    ensures
        match r {
            None => verdict(job_views(jobs@)) is None,
            Some(Ok(summary)) => verdict(job_views(jobs@)) matches Some(Ok(completed))
                && summary.completed == completed,
            Some(Err(failure)) => verdict(job_views(jobs@)) matches Some(Err(first))
                && failure@ == first,
        },
{
    let ghost views = job_views(jobs@);
    let mut failed: Option<Failure> = None;
    let mut i: usize = 0;
    while i < jobs.len()
        invariant
            i <= jobs.len(),
            views == job_views(jobs@),
            forall|j: int| 0 <= j < i ==> is_over(#[trigger] views[j]),
            match failed {
                Some(failure) => first_failure(views, i as nat) == Some(failure@),
                None => first_failure(views, i as nat) is None,
            },
        decreases jobs.len() - i,
    {
        if !jobs[i].is_over() {
            assert(!is_over(views[i as int]));
            return None;
        }
        if failed.is_none() {
            failed = jobs[i].failure();
        }
        i += 1;
    }
    match failed {
        Some(failure) => Some(Err(failure)),
        None => Some(Ok(Summary { completed: jobs.len() })),
    }
}

} // verus!
