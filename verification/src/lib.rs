//! Cross-source correlation of repository activity records.
//!
//! The crate collects three kinds of activity records per repository —
//! pull requests, commits, and issues — extracts issue references from
//! their free-text fields, and joins the results against a canonical
//! repository list. The components are:
//!
//! - the activity records themselves (`records`),
//! - reference extraction from free text (`extract`), with its laws
//!   (`extract_laws`),
//! - assembly of paginated fetch results (`fetch`),
//! - per-repository processing and batch mapping construction (`batch`),
//! - the join stage producing one analysis record per repository (`join`),
//! - repository identifier handling (`repo_id`),
//! - line statistics over mirrored file contents (`stats`).
//!
//! The transport that delivers the records — and every other effect —
//! belongs to the caller: each function here computes from plain values
//! and is verified.

pub mod batch;
pub mod extract;
pub mod extract_laws;
pub mod fetch;
pub mod join;
pub mod records;
pub mod repo_id;
pub mod stats;
