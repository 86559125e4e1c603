//! Localizes a JSON document into many languages: the string leaves of the
//! document are sent to a translation service, the answers are put back in
//! their places, and each translated document is serialized for its
//! language.
//!
//! The crate holds the decisions of that pipeline; the caller performs the
//! service calls, the waiting and the file writes that the decisions ask
//! for.
//!
//! - [`document`]: the document tree, the leaves to translate and their
//!   replacement; [`tree_laws`] holds what is proved of them.
//! - [`json`]: reading a document from JSON text and printing it.
//! - [`retry`]: the retry policy and its delays.
//! - [`job`]: one job, from the input text to the stored translation, as a
//!   machine that takes events and asks for actions; [`job_laws`] holds
//!   what is proved of whole attempts and retries.
//! - [`fanout`]: the target languages of a run, its jobs and its verdict;
//!   [`fanout_laws`] holds what is proved of them.
//! - [`sink`]: where a translated document is stored.
//! - [`failure`]: the failures that end a job or a run.

pub mod document;
pub mod failure;
pub mod fanout;
pub mod fanout_laws;
pub mod job;
pub mod job_laws;
pub mod json;
pub mod retry;
pub mod sink;
pub mod tree_laws;
