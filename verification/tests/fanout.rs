use json_localizer::failure::Failure;
use json_localizer::fanout::{conclude, plan, target_languages, Summary};
use json_localizer::job::{Action, Event, Job};
use json_localizer::retry::RetryPolicy;
use std::collections::HashMap;

const INPUT: &str = "{\"a\":\"hello\",\"b\":{\"c\":\"\"}}";

fn codes(items: &[&str]) -> Vec<String> {
    items.iter().map(|s| s.to_string()).collect()
}

/// Runs a job to its end against a service that fails for the languages in
/// `down`, and stores what it is asked to store in `sink`.
fn run(mut job: Job, down: &[&str], sink: &mut HashMap<String, String>) -> Job {
    loop {
        let event = match job.action() {
            Action::Translate { source: _, target, text } => {
                if down.contains(&target.as_str()) {
                    Event::TranslationFailed(format!("{} is down", target))
                } else {
                    Event::Translated(format!("{}:{}", target, text))
                }
            }
            Action::Sleep { seconds: _ } => Event::Slept,
            Action::Store { destination, content } => {
                sink.insert(destination, content);
                Event::Stored
            }
            Action::Finished | Action::Failed(_) => return job,
        };
        job = job.step(event);
    }
}

#[test]
fn targets_leave_out_sentinel_and_source() {
    assert_eq!(
        target_languages(&codes(&["auto", "en", "fr", "de"]), "en"),
        codes(&["fr", "de"])
    );
}

#[test]
fn targets_keep_the_order_of_the_listing() {
    assert_eq!(
        target_languages(&codes(&["de", "auto", "fr", "en", "es"]), "fr"),
        codes(&["de", "en", "es"])
    );
}

#[test]
fn targets_take_each_language_once() {
    assert_eq!(
        target_languages(&codes(&["fr", "de", "fr", "auto", "de", "en"]), "en"),
        codes(&["fr", "de"])
    );
}

#[test]
fn targets_without_source_in_the_listing() {
    assert_eq!(
        target_languages(&codes(&["auto", "fr", "de"]), "en"),
        codes(&["fr", "de"])
    );
    assert_eq!(target_languages(&codes(&[]), "en"), codes(&[]));
    assert_eq!(target_languages(&codes(&["auto", "en"]), "en"), codes(&[]));
}

#[test]
fn targets_with_the_sentinel_as_source() {
    assert_eq!(
        target_languages(&codes(&["auto", "en", "fr"]), "auto"),
        codes(&["en", "fr"])
    );
}

#[test]
fn fan_out_runs_one_job_for_each_target() {
    let jobs = plan(
        Ok(codes(&["auto", "en", "fr", "de"])),
        "en",
        RetryPolicy::standard(),
        INPUT,
    )
    .unwrap();
    assert_eq!(jobs.len(), 2);
    assert_eq!(jobs[0].target(), "fr");
    assert_eq!(jobs[1].target(), "de");
    assert_eq!(jobs[0].source(), "en");
    let mut sink = HashMap::new();
    let jobs: Vec<Job> = jobs.into_iter().map(|job| run(job, &[], &mut sink)).collect();
    assert_eq!(sink.len(), 2);
    assert_eq!(
        sink["assets/translated/fr.json"],
        "{\n  \"a\": \"fr:hello\",\n  \"b\": {\n    \"c\": \"\"\n  }\n}"
    );
    assert_eq!(
        sink["assets/translated/de.json"],
        "{\n  \"a\": \"de:hello\",\n  \"b\": {\n    \"c\": \"\"\n  }\n}"
    );
    assert_eq!(conclude(&jobs), Some(Ok(Summary { completed: 2 })));
}

#[test]
fn failed_handshake_starts_no_job() {
    let planned = plan(
        Err("access denied".to_string()),
        "en",
        RetryPolicy::standard(),
        INPUT,
    );
    match planned {
        Err(failure) => assert_eq!(
            failure,
            Failure::ServiceHandshake("access denied".to_string())
        ),
        Ok(_) => panic!("a run without languages was planned"),
    }
}

#[test]
fn failed_job_leaves_the_others_stored() {
    let jobs = plan(
        Ok(codes(&["auto", "en", "de", "fr"])),
        "en",
        RetryPolicy::standard(),
        INPUT,
    )
    .unwrap();
    let mut sink = HashMap::new();
    let mut done = Vec::new();
    for job in jobs {
        done.push(run(job, &["fr"], &mut sink));
    }
    assert_eq!(sink.len(), 1);
    assert_eq!(
        sink["assets/translated/de.json"],
        "{\n  \"a\": \"de:hello\",\n  \"b\": {\n    \"c\": \"\"\n  }\n}"
    );
    assert_eq!(
        conclude(&done),
        Some(Err(Failure::RetryExhausted("fr is down".to_string())))
    );
}

#[test]
fn run_reports_the_first_failed_job() {
    let jobs = plan(
        Ok(codes(&["fr", "de", "es"])),
        "en",
        RetryPolicy::standard(),
        INPUT,
    )
    .unwrap();
    let mut sink = HashMap::new();
    let done: Vec<Job> = jobs
        .into_iter()
        .map(|job| run(job, &["de", "es"], &mut sink))
        .collect();
    assert_eq!(
        conclude(&done),
        Some(Err(Failure::RetryExhausted("de is down".to_string())))
    );
    assert!(sink.contains_key("assets/translated/fr.json"));
}

#[test]
fn run_waits_for_every_job() {
    let jobs = plan(
        Ok(codes(&["fr", "de"])),
        "en",
        RetryPolicy::standard(),
        INPUT,
    )
    .unwrap();
    assert_eq!(conclude(&jobs), None);
    let mut sink = HashMap::new();
    let mut jobs = jobs;
    let second = jobs.pop().unwrap();
    let first = jobs.pop().unwrap();
    let first = run(first, &["fr"], &mut sink);
    let jobs = vec![first, second];
    assert_eq!(conclude(&jobs), None);
}

#[test]
fn invalid_input_fails_every_job() {
    let jobs = plan(
        Ok(codes(&["fr", "de"])),
        "en",
        RetryPolicy::standard(),
        "not json",
    )
    .unwrap();
    assert_eq!(jobs.len(), 2);
    assert_eq!(conclude(&jobs), Some(Err(Failure::Parse)));
}

#[test]
fn run_without_targets_completes_nothing() {
    let jobs = plan(Ok(codes(&["auto", "en"])), "en", RetryPolicy::standard(), INPUT).unwrap();
    assert_eq!(jobs.len(), 0);
    assert_eq!(conclude(&jobs), Some(Ok(Summary { completed: 0 })));
}
