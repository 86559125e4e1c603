//! What holds of the target languages of a run and of its verdict.

use crate::fanout::{
    all_over, first_failure, is_target, run_targets, sentinel, targets, verdict,
};
use crate::job::{JobView, StageView};
use vstd::prelude::*;

verus! {

/// The target languages among the first `n` listed codes are the codes
/// among them that are neither the sentinel nor the source language.
pub proof fn lemma_targets_members(listed: Seq<Seq<char>>, source: Seq<char>, n: nat)
    requires
        n <= listed.len(),
    ensures
        forall|code: Seq<char>| #[trigger]
            targets(listed, source, n).contains(code) <==> is_target(code, source) && exists|i: int|
                0 <= i < n && listed[i] == code,
        targets(listed, source, n).no_duplicates(),
        targets(listed, source, n).len() <= n,
    decreases n,
{
    if n > 0 {
        let before = targets(listed, source, (n - 1) as nat);
        let now = targets(listed, source, n);
        let last = listed[n - 1];
        lemma_targets_members(listed, source, (n - 1) as nat);
        assert forall|code: Seq<char>| #[trigger]
            now.contains(code) <==> is_target(code, source) && exists|i: int|
                0 <= i < n && listed[i] == code by {
            if now.contains(code) {
                let at = choose|at: int| 0 <= at < now.len() && now[at] == code;
                if at < before.len() {
                    assert(before[at] == code);
                    assert(before.contains(code));
                    let i = choose|i: int| 0 <= i < n - 1 && listed[i] == code;
                    assert(0 <= i < n && listed[i] == code);
                } else {
                    assert(code == last);
                    assert(listed[n - 1] == code);
                }
            }
            if is_target(code, source) && exists|i: int| 0 <= i < n && listed[i] == code {
                let i = choose|i: int| 0 <= i < n && listed[i] == code;
                if i < n - 1 {
                    assert(before.contains(code));
                    let at = choose|at: int| 0 <= at < before.len() && before[at] == code;
                    assert(now[at] == code);
                } else if before.contains(code) {
                    let at = choose|at: int| 0 <= at < before.len() && before[at] == code;
                    assert(now[at] == code);
                } else {
                    assert(now[before.len() as int] == code);
                }
            }
        }
    }
}

/// Fan-out completeness: the languages that a run translates into are
/// exactly the listed languages without the sentinel and the source
/// language, and none of them is taken twice.
pub proof fn law_targets_are_the_others(listed: Seq<Seq<char>>, source: Seq<char>)
    ensures
        forall|code: Seq<char>| #[trigger]
            run_targets(listed, source).contains(code) <==> listed.contains(code)
                && code != sentinel() && code != source,
        run_targets(listed, source).no_duplicates(),
{
    lemma_targets_members(listed, source, listed.len());
    let all = run_targets(listed, source);
    assert forall|code: Seq<char>| #[trigger]
        all.contains(code) <==> listed.contains(code) && code != sentinel() && code != source by {
        if listed.contains(code) {
            let i = choose|i: int| 0 <= i < listed.len() && listed[i] == code;
            assert(0 <= i < listed.len() && listed[i] == code);
        }
    }
}

/// How many of the first `n` listed codes are the code `code`.
pub open spec fn occurrences(listed: Seq<Seq<char>>, code: Seq<char>, n: nat) -> nat
    decreases n,
{
    if n == 0 || n > listed.len() {
        0
    } else {
        occurrences(listed, code, (n - 1) as nat) + if listed[n - 1] == code {
            1nat
        } else {
            0nat
        }
    }
}

proof fn lemma_occurrences(listed: Seq<Seq<char>>, code: Seq<char>, n: nat)
    requires
        n <= listed.len(),
        listed.no_duplicates(),
    ensures
        occurrences(listed, code, n) == if exists|i: int| 0 <= i < n && listed[i] == code {
            1nat
        } else {
            0nat
        },
    decreases n,
{
    if n > 0 {
        lemma_occurrences(listed, code, (n - 1) as nat);
        if listed[n - 1] == code {
            assert(0 <= n - 1 < n && listed[n - 1] == code);
            if exists|i: int| 0 <= i < n - 1 && listed[i] == code {
                let i = choose|i: int| 0 <= i < n - 1 && listed[i] == code;
                assert(listed[i] == listed[n - 1]);
            }
        } else {
            if exists|i: int| 0 <= i < n && listed[i] == code {
                let i = choose|i: int| 0 <= i < n && listed[i] == code;
                assert(0 <= i < n - 1 && listed[i] == code);
            }
        }
    }
}

proof fn lemma_target_count(listed: Seq<Seq<char>>, source: Seq<char>, n: nat)
    requires
        n <= listed.len(),
        listed.no_duplicates(),
        source != sentinel(),
    ensures
        targets(listed, source, n).len() + occurrences(listed, source, n) + occurrences(
            listed,
            sentinel(),
            n,
        ) == n,
    decreases n,
{
    if n > 0 {
        lemma_target_count(listed, source, (n - 1) as nat);
        lemma_targets_members(listed, source, (n - 1) as nat);
        let before = targets(listed, source, (n - 1) as nat);
        let code = listed[n - 1];
        if before.contains(code) {
            let i = choose|i: int| 0 <= i < n - 1 && listed[i] == code;
            assert(listed[i] == listed[n - 1]);
        }
    }
}

/// The count of a run: where the service lists every language once, the
/// sentinel and the source language among them, the run translates into
/// all listed languages but these two.
pub proof fn law_target_count(listed: Seq<Seq<char>>, source: Seq<char>)
    requires
        listed.no_duplicates(),
        listed.contains(source),
        listed.contains(sentinel()),
        source != sentinel(),
    ensures
        run_targets(listed, source).len() == listed.len() - 2,
{
    lemma_target_count(listed, source, listed.len());
    lemma_occurrences(listed, source, listed.len());
    lemma_occurrences(listed, sentinel(), listed.len());
    let i = choose|i: int| 0 <= i < listed.len() && listed[i] == source;
    assert(0 <= i < listed.len() && listed[i] == source);
    let j = choose|j: int| 0 <= j < listed.len() && listed[j] == sentinel();
    assert(0 <= j < listed.len() && listed[j] == sentinel());
}

proof fn lemma_first_failure(jobs: Seq<JobView>, n: nat)
    requires
        n <= jobs.len(),
    ensures
        match first_failure(jobs, n) {
            Some(failure) => exists|i: int|
                {
                    &&& 0 <= i < n
                    &&& (#[trigger] jobs[i]).stage == StageView::Failed(failure)
                    &&& forall|j: int| 0 <= j < i ==> !((#[trigger] jobs[j]).stage is Failed)
                },
            None => forall|j: int| 0 <= j < n ==> !((#[trigger] jobs[j]).stage is Failed),
        },
    decreases n,
{
    if n > 0 {
        lemma_first_failure(jobs, (n - 1) as nat);
        match first_failure(jobs, (n - 1) as nat) {
            Some(failure) => {
                let i = choose|i: int|
                    {
                        &&& 0 <= i < n - 1
                        &&& (#[trigger] jobs[i]).stage == StageView::Failed(failure)
                        &&& forall|j: int| 0 <= j < i ==> !((#[trigger] jobs[j]).stage is Failed)
                    };
                assert(0 <= i < n && jobs[i].stage == StageView::Failed(failure));
            },
            None => {
                match jobs[n - 1].stage {
                    StageView::Failed(failure) => {
                        assert(0 <= n - 1 < n && jobs[n - 1].stage == StageView::Failed(failure));
                    },
                    _ => {},
                }
            },
        }
    }
}

/// The run waits for every job: while one is under way there is no
/// verdict, and once all are over there is one.
pub proof fn law_verdict_waits_for_all(jobs: Seq<JobView>)
    ensures
        verdict(jobs) is Some <==> all_over(jobs),
{
}

/// A run succeeds only if every job is done, and then it counts one
/// completed translation for each job.
pub proof fn law_run_succeeds_when_all_do(jobs: Seq<JobView>)
    ensures
        verdict(jobs) is Some && verdict(jobs)->Some_0 is Ok <==> forall|i: int|
            0 <= i < jobs.len() ==> (#[trigger] jobs[i]).stage is Done,
        verdict(jobs) matches Some(Ok(completed)) ==> completed == jobs.len(),
{
    lemma_first_failure(jobs, jobs.len());
    if forall|i: int| 0 <= i < jobs.len() ==> (#[trigger] jobs[i]).stage is Done {
        assert(all_over(jobs));
    }
}

/// One failed job fails the run, whatever the other jobs came to: once all
/// are over the run reports the failure of the first job that failed.
pub proof fn law_one_failure_fails_the_run(jobs: Seq<JobView>, failed: int)
    requires
        all_over(jobs),
        0 <= failed < jobs.len(),
        jobs[failed].stage is Failed,
    ensures
        verdict(jobs) is Some,
        verdict(jobs)->Some_0 is Err,
        exists|first: int|
            {
                &&& 0 <= first <= failed
                &&& (#[trigger] jobs[first]).stage is Failed
                &&& verdict(jobs)->Some_0->Err_0 == jobs[first].stage->Failed_0
                &&& forall|j: int| 0 <= j < first ==> (#[trigger] jobs[j]).stage is Done
            },
{
    lemma_first_failure(jobs, jobs.len());
    let failure = first_failure(jobs, jobs.len())->Some_0;
    let first = choose|i: int|
        {
            &&& 0 <= i < jobs.len()
            &&& (#[trigger] jobs[i]).stage == StageView::Failed(failure)
            &&& forall|j: int| 0 <= j < i ==> !((#[trigger] jobs[j]).stage is Failed)
        };
    assert(first <= failed);
    assert(jobs[first].stage->Failed_0 == verdict(jobs)->Some_0->Err_0);
}

} // verus!
