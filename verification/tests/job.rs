use json_localizer::document::Document;
use json_localizer::failure::Failure;
use json_localizer::job::{Action, Event, Job};
use json_localizer::retry::RetryPolicy;
use json_localizer::sink::destination;

const INPUT: &str = "{\"a\":\"hello\",\"b\":{\"c\":\"\"},\"d\":\"world\"}";

/// What a run of one job did.
struct Trace {
    requests: Vec<String>,
    delays: Vec<u64>,
    stored: Vec<(String, String)>,
    job: Job,
}

/// Runs a job to its end. `service` answers call number `n` (from 0) for a
/// text; `store` says whether a write succeeds.
fn run(
    mut job: Job,
    service: &mut dyn FnMut(usize, &str) -> Result<String, String>,
    store: Result<(), String>,
) -> Trace {
    let mut requests = Vec::new();
    let mut delays = Vec::new();
    let mut stored = Vec::new();
    loop {
        let event = match job.action() {
            Action::Translate { source, target, text } => {
                assert_eq!(source, "en");
                assert_eq!(target, "fr");
                let answer = service(requests.len(), &text);
                requests.push(text);
                match answer {
                    Ok(translated) => Event::Translated(translated),
                    Err(message) => Event::TranslationFailed(message),
                }
            }
            Action::Sleep { seconds } => {
                delays.push(seconds);
                Event::Slept
            }
            Action::Store { destination, content } => match &store {
                Ok(()) => {
                    stored.push((destination, content));
                    Event::Stored
                }
                Err(message) => Event::StoreFailed(message.clone()),
            },
            Action::Finished | Action::Failed(_) => break,
        };
        job = job.step(event);
    }
    Trace { requests, delays, stored, job }
}

fn upper(_call: usize, text: &str) -> Result<String, String> {
    Ok(text.to_uppercase())
}

fn start() -> Job {
    Job::start("en", "fr", RetryPolicy::standard(), INPUT)
}

fn translated_input() -> String {
    "{\n  \"a\": \"HELLO\",\n  \"b\": {\n    \"c\": \"\"\n  },\n  \"d\": \"WORLD\"\n}".to_string()
}

#[test]
fn job_translates_and_stores() {
    let trace = run(start(), &mut upper, Ok(()));
    assert_eq!(trace.requests, vec!["hello".to_string(), "world".to_string()]);
    assert_eq!(trace.delays, Vec::<u64>::new());
    assert_eq!(
        trace.stored,
        vec![("assets/translated/fr.json".to_string(), translated_input())]
    );
    assert_eq!(trace.job.action(), Action::Finished);
    assert!(trace.job.is_over());
    assert_eq!(trace.job.failure(), None);
}

#[test]
fn job_knows_its_languages() {
    let job = Job::start("en", "de", RetryPolicy::standard(), INPUT);
    assert_eq!(job.source(), "en");
    assert_eq!(job.target(), "de");
    assert!(!job.is_over());
}

#[test]
fn empty_string_is_never_sent() {
    let mut seen_empty = false;
    let mut service = |_call: usize, text: &str| {
        if text.is_empty() {
            seen_empty = true;
        }
        Ok(text.to_string())
    };
    let trace = run(start(), &mut service, Ok(()));
    assert!(!seen_empty);
    assert_eq!(trace.requests.len(), 2);
    let stored = Document::parse(&trace.stored[0].1).unwrap();
    assert_eq!(stored, Document::parse(INPUT).unwrap());
}

#[test]
fn document_without_leaves_needs_no_call() {
    let job = Job::start("en", "fr", RetryPolicy::standard(), "{\"a\":\"\",\"n\":[1,2]}");
    let trace = run(job, &mut upper, Ok(()));
    assert_eq!(trace.requests, Vec::<String>::new());
    assert_eq!(trace.stored.len(), 1);
    assert_eq!(
        trace.stored[0].1,
        "{\n  \"a\": \"\",\n  \"n\": [\n    1,\n    2\n  ]\n}"
    );
    assert_eq!(trace.job.action(), Action::Finished);
}

#[test]
fn failed_leaf_gives_no_document() {
    let job = start();
    let job = job.step(Event::Translated("HELLO".to_string()));
    let job = job.step(Event::TranslationFailed("throttled".to_string()));
    assert_eq!(job.action(), Action::Sleep { seconds: 1 });
    let job = job.step(Event::Slept);
    assert_eq!(
        job.action(),
        Action::Translate {
            source: "en".to_string(),
            target: "fr".to_string(),
            text: "hello".to_string()
        }
    );
}

#[test]
fn retry_starts_the_document_again() {
    let mut service = |call: usize, text: &str| {
        if call == 1 {
            Err("throttled".to_string())
        } else {
            Ok(format!("<{}>", text))
        }
    };
    let trace = run(start(), &mut service, Ok(()));
    assert_eq!(
        trace.requests,
        vec![
            "hello".to_string(),
            "world".to_string(),
            "hello".to_string(),
            "world".to_string()
        ]
    );
    assert_eq!(trace.delays, vec![1]);
    assert_eq!(
        trace.stored[0].1,
        "{\n  \"a\": \"<hello>\",\n  \"b\": {\n    \"c\": \"\"\n  },\n  \"d\": \"<world>\"\n}"
    );
}

fn failing_first_attempts(failures: usize) -> Trace {
    let mut attempt = 0;
    let mut service = |_call: usize, text: &str| {
        if attempt < failures {
            attempt += 1;
            Err(format!("failure {}", attempt))
        } else {
            Ok(text.to_uppercase())
        }
    };
    run(start(), &mut service, Ok(()))
}

#[test]
fn success_at_once_waits_never() {
    let trace = failing_first_attempts(0);
    assert_eq!(trace.delays, Vec::<u64>::new());
    assert_eq!(trace.stored[0].1, translated_input());
}

#[test]
fn success_after_one_failure_waits_once() {
    let trace = failing_first_attempts(1);
    assert_eq!(trace.delays, vec![1]);
    assert_eq!(trace.stored[0].1, translated_input());
}

#[test]
fn success_after_three_failures_doubles_the_delay() {
    let trace = failing_first_attempts(3);
    assert_eq!(trace.delays, vec![1, 2, 4]);
    assert_eq!(trace.requests.len(), 3 + 2);
    assert_eq!(trace.stored[0].1, translated_input());
    assert_eq!(trace.job.action(), Action::Finished);
}

#[test]
fn success_at_the_last_attempt() {
    let trace = failing_first_attempts(5);
    assert_eq!(trace.delays, vec![1, 2, 4, 8, 16]);
    assert_eq!(trace.stored[0].1, translated_input());
    assert_eq!(trace.job.failure(), None);
}

#[test]
fn retries_are_exhausted_after_six_attempts() {
    let mut attempts = 0;
    let mut service = |_call: usize, _text: &str| {
        attempts += 1;
        Err(format!("failure {}", attempts))
    };
    let trace = run(start(), &mut service, Ok(()));
    assert_eq!(attempts, 6);
    assert_eq!(trace.delays, vec![1, 2, 4, 8, 16]);
    assert_eq!(trace.stored, Vec::<(String, String)>::new());
    assert_eq!(
        trace.job.action(),
        Action::Failed(Failure::RetryExhausted("failure 6".to_string()))
    );
    assert_eq!(
        trace.job.failure(),
        Some(Failure::RetryExhausted("failure 6".to_string()))
    );
    assert!(trace.job.is_over());
}

#[test]
fn policy_sets_retries_and_delays() {
    let policy = RetryPolicy::new(2, 3).unwrap();
    let job = Job::start("en", "fr", policy, INPUT);
    let mut service = |_call: usize, _text: &str| Err("down".to_string());
    let trace = run(job, &mut service, Ok(()));
    assert_eq!(trace.requests.len(), 3);
    assert_eq!(trace.delays, vec![3, 6]);
    assert_eq!(
        trace.job.failure(),
        Some(Failure::RetryExhausted("down".to_string()))
    );
}

#[test]
fn no_retries_fails_at_the_first_failure() {
    let policy = RetryPolicy::new(0, 1).unwrap();
    let job = Job::start("en", "fr", policy, INPUT);
    let mut service = |_call: usize, _text: &str| Err("down".to_string());
    let trace = run(job, &mut service, Ok(()));
    assert_eq!(trace.requests.len(), 1);
    assert_eq!(trace.delays, Vec::<u64>::new());
    assert!(trace.job.is_over());
}

#[test]
fn invalid_input_fails_without_a_call() {
    let job = Job::start("en", "fr", RetryPolicy::standard(), "{\"a\": ");
    assert_eq!(job.action(), Action::Failed(Failure::Parse));
    let trace = run(job, &mut upper, Ok(()));
    assert_eq!(trace.requests, Vec::<String>::new());
    assert_eq!(trace.delays, Vec::<u64>::new());
    assert_eq!(trace.job.failure(), Some(Failure::Parse));
}

#[test]
fn begin_takes_a_parsed_document() {
    let document = Document::Text("hi".to_string());
    let job = Job::begin("en", "fr", RetryPolicy::standard(), Ok(document));
    let trace = run(job, &mut upper, Ok(()));
    assert_eq!(trace.requests, vec!["hi".to_string()]);
    assert_eq!(trace.stored[0].1, "\"HI\"");
}

#[test]
fn begin_carries_a_failure_through() {
    let job = Job::begin(
        "en",
        "fr",
        RetryPolicy::standard(),
        Err(Failure::Write("disk".to_string())),
    );
    assert_eq!(job.action(), Action::Failed(Failure::Write("disk".to_string())));
}

#[test]
fn failed_write_fails_the_job() {
    let trace = run(start(), &mut upper, Err("disk full".to_string()));
    assert_eq!(trace.requests.len(), 2);
    assert_eq!(
        trace.job.failure(),
        Some(Failure::Write("disk full".to_string()))
    );
}

#[test]
fn unexpected_event_changes_nothing() {
    let job = start();
    let before = job.action();
    let job = job.step(Event::Slept);
    assert_eq!(job.action(), before);
    let job = job.step(Event::Stored);
    assert_eq!(job.action(), before);
    let job = job.step(Event::StoreFailed("x".to_string()));
    assert_eq!(job.action(), before);
    let done = run(job, &mut upper, Ok(())).job;
    let done = done.step(Event::Translated("x".to_string()));
    let done = done.step(Event::TranslationFailed("x".to_string()));
    assert_eq!(done.action(), Action::Finished);
}

#[test]
fn destination_is_named_by_the_language() {
    assert_eq!(destination("fr"), "assets/translated/fr.json");
    assert_eq!(destination("zh-TW"), "assets/translated/zh-TW.json");
}
