//! One job: a document is translated into one target language and stored.
//!
//! A job decides; its caller acts. The caller asks the job for the next
//! [`Action`], performs it, and reports what came of it as an [`Event`]:
//! a call of the translation service, a wait before a retry, the write of
//! the result. One failed call gives up the whole attempt, and the document
//! is tried again from its first leaf after a delay that doubles with every
//! failure, until the retry policy is used up.

use crate::document::{Document, Tree};
use crate::failure::{Failure, FailureView};
use crate::json::{parsed_json, pretty_json};
use crate::retry::{backoff, PolicyView, RetryPolicy};
use crate::sink::{destination, destination_of};
use vstd::prelude::*;

verus! {

/// What the caller reports to a job.
#[derive(Debug, PartialEq, Eq)]
pub enum Event {
    /// The service translated the text that was asked for.
    Translated(String),
    /// The call of the service failed, with this message.
    TranslationFailed(String),
    /// The delay has passed.
    Slept,
    /// The document is stored.
    Stored,
    /// The document could not be stored, with this message.
    StoreFailed(String),
}

/// The mathematical value of an [`Event`].
pub enum EventView {
    Translated(Seq<char>),
    TranslationFailed(Seq<char>),
    Slept,
    Stored,
    StoreFailed(Seq<char>),
}

impl View for Event {
    type V = EventView;

    open spec fn view(&self) -> EventView {
        match self {
            Event::Translated(text) => EventView::Translated(text@),
            Event::TranslationFailed(message) => EventView::TranslationFailed(message@),
            Event::Slept => EventView::Slept,
            Event::Stored => EventView::Stored,
            Event::StoreFailed(message) => EventView::StoreFailed(message@),
        }
    }
}

/// What a job asks of its caller next.
#[derive(Debug, PartialEq, Eq)]
pub enum Action {
    /// Translate `text` from `source` to `target`, then report
    /// [`Event::Translated`] or [`Event::TranslationFailed`].
    Translate { source: String, target: String, text: String },
    /// Wait for `seconds`, then report [`Event::Slept`].
    Sleep { seconds: u64 },
    /// Write `content` to `destination`, then report [`Event::Stored`] or
    /// [`Event::StoreFailed`].
    Store { destination: String, content: String },
    /// Nothing: the job is done, its document is stored.
    Finished,
    /// Nothing: the job has failed for good.
    Failed(Failure),
}

/// The mathematical value of an [`Action`].
pub enum ActionView {
    Translate { source: Seq<char>, target: Seq<char>, text: Seq<char> },
    Sleep { seconds: nat },
    Store { destination: Seq<char>, content: Seq<char> },
    Finished,
    Failed(FailureView),
}

impl View for Action {
    type V = ActionView;

    open spec fn view(&self) -> ActionView {
        match self {
            Action::Translate { source, target, text } => ActionView::Translate {
                source: source@,
                target: target@,
                text: text@,
            },
            Action::Sleep { seconds } => ActionView::Sleep { seconds: *seconds as nat },
            Action::Store { destination, content } => ActionView::Store {
                destination: destination@,
                content: content@,
            },
            Action::Finished => ActionView::Finished,
            Action::Failed(failure) => ActionView::Failed(failure@),
        }
    }
}

/// Where a job stands.
pub enum StageView {
    /// An attempt is under way: `translated` holds the answers for the
    /// first leaves of `document`, and `retries` attempts have failed.
    Translating { document: Tree, translated: Seq<Seq<char>>, retries: nat },
    /// Attempt number `retries + 1` has failed; the job waits to try again.
    Sleeping { document: Tree, retries: nat },
    /// The document is translated; `content` is to be written.
    Storing { content: Seq<char> },
    /// The translated document is stored.
    Done,
    /// The job has failed for good.
    Failed(FailureView),
}

/// The mathematical value of a [`Job`].
pub struct JobView {
    pub source: Seq<char>,
    pub target: Seq<char>,
    pub policy: PolicyView,
    pub stage: StageView,
}

impl JobView {
    /// The stage in which an attempt on `document` begins after `retries`
    /// failed ones. A document without a leaf to translate needs no call:
    /// it is stored as it is.
    pub open spec fn attempt(document: Tree, retries: nat) -> StageView {
        if document.leaves().len() == 0 {
            StageView::Storing { content: pretty_json(document.json()) }
        } else {
            StageView::Translating { document, translated: Seq::empty(), retries }
        }
    }

    /// The job at its beginning, given what parsing the input came to.
    pub open spec fn begin(
        source: Seq<char>,
        target: Seq<char>,
        policy: PolicyView,
        parsed: Result<Tree, FailureView>,
    ) -> JobView {
        JobView {
            source,
            target,
            policy,
            stage: match parsed {
                Ok(document) => Self::attempt(document, 0),
                Err(failure) => StageView::Failed(failure),
            },
        }
    }

    /// The same job in another stage.
    pub open spec fn at(self, stage: StageView) -> JobView {
        JobView { stage, ..self }
    }

    /// The job after an event. An event that the job did not ask for
    /// changes nothing.
    pub open spec fn step(self, event: EventView) -> JobView {
        match (self.stage, event) {
            (
                StageView::Translating { document, translated, retries },
                EventView::Translated(text),
            ) => {
                let answers = translated.push(text);
                if answers.len() >= document.leaves().len() {
                    self.at(
                        StageView::Storing {
                            content: pretty_json(document.substitute(answers).json()),
                        },
                    )
                } else {
                    self.at(StageView::Translating { document, translated: answers, retries })
                }
            },
            (
                StageView::Translating { document, retries, .. },
                EventView::TranslationFailed(message),
            ) => {
                if retries < self.policy.max_retries {
                    self.at(StageView::Sleeping { document, retries })
                } else {
                    self.at(StageView::Failed(FailureView::RetryExhausted(message)))
                }
            },
            (StageView::Sleeping { document, retries }, EventView::Slept) => self.at(
                Self::attempt(document, retries + 1),
            ),
            (StageView::Storing { .. }, EventView::Stored) => self.at(StageView::Done),
            (StageView::Storing { .. }, EventView::StoreFailed(message)) => self.at(
                StageView::Failed(FailureView::Write(message)),
            ),
            _ => self,
        }
    }

    /// What the job asks of its caller.
    pub open spec fn action(self) -> ActionView {
        match self.stage {
            StageView::Translating { document, translated, .. } => ActionView::Translate {
                source: self.source,
                target: self.target,
                text: document.leaves()[translated.len() as int],
            },
            StageView::Sleeping { retries, .. } => ActionView::Sleep {
                seconds: backoff(self.policy.base_delay, retries),
            },
            StageView::Storing { content } => ActionView::Store {
                destination: destination_of(self.target),
                content,
            },
            StageView::Done => ActionView::Finished,
            StageView::Failed(failure) => ActionView::Failed(failure),
        }
    }

    /// Whether this is a job as it starts on the input `text`: failed where
    /// the text is not JSON, else at the first attempt on a document that
    /// stands for the parsed JSON value and gives no key twice.
    pub open spec fn starts(
        self,
        source: Seq<char>,
        target: Seq<char>,
        policy: PolicyView,
        text: Seq<char>,
    ) -> bool {
        match parsed_json(text) {
            Some(json) => exists|document: Tree|
                {
                    &&& document.json() == json
                    &&& document.unique_keys()
                    &&& #[trigger] Self::begin(source, target, policy, Ok(document)) == self
                },
            None => self == Self::begin(source, target, policy, Err(FailureView::Parse)),
        }
    }

    /// What every job holds: an attempt under way still lacks an answer,
    /// and no more attempts have failed than the policy allows.
    pub open spec fn wf(self) -> bool {
        match self.stage {
            StageView::Translating { document, translated, retries } => {
                &&& translated.len() < document.leaves().len()
                &&& retries <= self.policy.max_retries
            },
            StageView::Sleeping { document, retries } => {
                &&& 0 < document.leaves().len()
                &&& retries < self.policy.max_retries
            },
            _ => true,
        }
    }
}

/// Where a job stands, with what it needs to go on: the texts are the
/// leaves of the document, and the delay is the next one to wait for.
#[derive(Debug)]
enum Stage {
    Translating {
        document: Document,
        texts: Vec<String>,
        translated: Vec<String>,
        retries: u32,
        delay: u64,
    },
    Sleeping { document: Document, texts: Vec<String>, retries: u32, delay: u64 },
    Storing { content: String },
    Done,
    Failed(Failure),
}

impl View for Stage {
    type V = StageView;

    closed spec fn view(&self) -> StageView {
        match self {
            Stage::Translating { document, translated, retries, .. } => {
                StageView::Translating {
                    document: document@,
                    translated: translated.deep_view(),
                    retries: *retries as nat,
                }
            },
            Stage::Sleeping { document, retries, .. } => StageView::Sleeping {
                document: document@,
                retries: *retries as nat,
            },
            Stage::Storing { content } => StageView::Storing { content: content@ },
            Stage::Done => StageView::Done,
            Stage::Failed(failure) => StageView::Failed(failure@),
        }
    }
}

impl Stage {
    /// The texts are the leaves of the document, and the delay is the one
    /// that the number of failures calls for.
    spec fn consistent(self, base_delay: nat) -> bool {
        match self {
            Stage::Translating { document, texts, retries, delay, .. } => {
                &&& texts.deep_view() == document@.leaves()
                &&& delay == backoff(base_delay, retries as nat)
            },
            Stage::Sleeping { document, texts, retries, delay } => {
                &&& texts.deep_view() == document@.leaves()
                &&& delay == backoff(base_delay, retries as nat)
            },
            _ => true,
        }
    }

    /// The stage in which an attempt on `document` begins.
    fn attempt(
        policy: &RetryPolicy,
        document: Document,
        texts: Vec<String>,
        retries: u32,
        delay: u64,
    ) -> (stage: Stage)
        requires
            texts.deep_view() == document@.leaves(),
            delay == backoff(policy@.base_delay, retries as nat),
        ensures
            stage@ == JobView::attempt(document@, retries as nat),
            stage.consistent(policy@.base_delay),
    {
        if texts.len() == 0 {
            Stage::Storing { content: document.into_pretty() }
        } else {
            let translated: Vec<String> = Vec::new();
            assert(translated.deep_view() =~= Seq::empty());
            Stage::Translating { document, texts, translated, retries, delay }
        }
    }
}

/// One translation job: a source language, a target language, a document,
/// and how far its translation has come.
#[derive(Debug)]
pub struct Job {
    source: String,
    target: String,
    policy: RetryPolicy,
    stage: Stage,
}

impl View for Job {
    type V = JobView;

    closed spec fn view(&self) -> JobView {
        JobView {
            source: self.source@,
            target: self.target@,
            policy: self.policy@,
            stage: self.stage@,
        }
    }
}

impl Job {
    #[verifier::type_invariant]
    spec fn sound(self) -> bool {
        self@.wf() && self.stage.consistent(self.policy@.base_delay)
    }

    /// The job for a document that was parsed already, or that could not be.
    pub fn begin(
        source: &str,
        target: &str,
        policy: RetryPolicy,
        parsed: Result<Document, Failure>,
    ) -> (job: Job)
        ensures
            job@.wf(),
            job@ == JobView::begin(
                source@,
                target@,
                policy@,
                match parsed {
                    Ok(document) => Ok(document@),
                    Err(failure) => Err(failure@),
                },
            ),
    {
        let stage = match parsed {
            Ok(document) => {
                let texts = document.leaves();
                Stage::attempt(&policy, document, texts, 0, policy.base_delay())
            },
            Err(failure) => Stage::Failed(failure),
        };
        Job { source: source.to_owned(), target: target.to_owned(), policy, stage }
    }

    /// The job for the input text. The text is parsed once; where it is not
    /// JSON the job has failed before it began, and is never retried.
    pub fn start(source: &str, target: &str, policy: RetryPolicy, text: &str) -> (job: Job)
        ensures
            job@.wf(),
            job@.starts(source@, target@, policy@, text@),
    {
        let parsed = Document::parse(text);
        let ghost tree = parsed->Ok_0@;
        let job = Job::begin(source, target, policy, parsed);
        assert(parsed_json(text@) is Some ==> JobView::begin(source@, target@, policy@, Ok(tree))
            == job@);
        job
    }

    /// The source language of the job.
    pub fn source(&self) -> (code: &str)
        ensures
            code@ == self@.source,
    {
        self.source.as_str()
    }

    /// The target language of the job.
    pub fn target(&self) -> (code: &str)
        ensures
            code@ == self@.target,
    {
        self.target.as_str()
    }

    /// Whether the job has come to its end.
    pub fn is_over(&self) -> (over: bool)
        ensures
            over == (self@.stage is Done || self@.stage is Failed),
    {
        match &self.stage {
            Stage::Done => true,
            Stage::Failed(_) => true,
            _ => false,
        }
    }

    /// The failure of the job, where it has failed for good.
    pub fn failure(&self) -> (r: Option<Failure>)
        ensures
            match r {
                Some(failure) => self@.stage == StageView::Failed(failure@),
                None => !(self@.stage is Failed),
            },
    {
        match &self.stage {
            Stage::Failed(failure) => Some(failure.clone()),
            _ => None,
        }
    }

    /// What the caller is to do next.
    pub fn action(&self) -> (action: Action)
        ensures
            self@.wf(),
            action@ == self@.action(),
    {
        proof {
            use_type_invariant(self);
        }
        match &self.stage {
            Stage::Translating { texts, translated, .. } => {
                let ghost next = translated.len() as int;
                assert(texts.deep_view()[next] == texts[next]@);
                Action::Translate {
                    source: self.source.clone(),
                    target: self.target.clone(),
                    text: texts[translated.len()].clone(),
                }
            },
            Stage::Sleeping { delay, .. } => Action::Sleep { seconds: *delay },
            Stage::Storing { content } => Action::Store {
                destination: destination(self.target.as_str()),
                content: content.clone(),
            },
            Stage::Done => Action::Finished,
            Stage::Failed(failure) => Action::Failed(failure.clone()),
        }
    }

    /// The job after the caller reported `event`.
    pub fn step(self, event: Event) -> (next: Job)
        ensures
            next@.wf(),
            next@ == self@.step(event@),
    {
        proof {
            use_type_invariant(&self);
        }
        let Job { source, target, policy, stage } = self;
        let stage = match (stage, event) {
            (
                Stage::Translating { document, texts, translated, retries, delay },
                Event::Translated(text),
            ) => {
                let ghost before = translated.deep_view();
                let mut translated = translated;
                translated.push(text);
                assert(translated.deep_view() =~= before.push(text@));
                if translated.len() >= texts.len() {
                    let done = document.substitute(&translated).unwrap();
                    Stage::Storing { content: done.into_pretty() }
                } else {
                    Stage::Translating { document, texts, translated, retries, delay }
                }
            },
            (
                Stage::Translating { document, texts, retries, delay, .. },
                Event::TranslationFailed(message),
            ) => {
                if retries < policy.max_retries() {
                    Stage::Sleeping { document, texts, retries, delay }
                } else {
                    Stage::Failed(Failure::RetryExhausted(message))
                }
            },
            (Stage::Sleeping { document, texts, retries, delay }, Event::Slept) => {
                let limit = policy.max_retries();
                let delay = policy.next_delay(delay, retries);
                assert(retries < limit);
                Stage::attempt(&policy, document, texts, retries + 1, delay)
            },
            (Stage::Storing { .. }, Event::Stored) => Stage::Done,
            (Stage::Storing { .. }, Event::StoreFailed(message)) => Stage::Failed(
                Failure::Write(message),
            ),
            (stage, _) => stage,
        };
        Job { source, target, policy, stage }
    }
}

} // verus!
