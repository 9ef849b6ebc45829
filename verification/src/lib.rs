//! A proctored, timed multiple-choice examination engine.
//!
//! The crate owns all mutable exam state: which users have an exam in
//! progress, which question they are on, and what they have answered. It
//! decides what happens on each client action, draws randomized question
//! variants, scores submitted answers with partial credit, and evicts
//! sessions whose time limit has elapsed. Network transport, configuration
//! files and the persistent mark store are collaborators behind narrow
//! trait interfaces.

mod answer;
mod config;
mod errors;
mod examiner;
mod network;
mod db;
mod generator;
mod manager;
mod question;
mod report;
mod score;
mod variant;

pub use answer::{lemma_normalized_unique, strictly_sorted, Answer};
pub use config::{Config, Settings, TestSettings};
pub use db::Database;
pub use errors::{ModelError, ModelResult};
pub use examiner::{lemma_access_denied_mutates_nothing, lemma_attempts_exhausted_no_variant, lemma_finalize_once, lemma_sweep_correct, Examiner};
pub use network::{Command, Marks, NextQuestion, Request, Response};
pub use report::{decimal_string, export_results, score_string, AnswerRecord, MarkRecord, QuestionRecord, Reporter, Statistic, VariantRecord};
pub use generator::generate;
pub use manager::{start_server, Server, Tick, WorkItem};
pub use question::{check_answer, Question};
pub use variant::{variant_scores, Variant};
pub use score::{total_score, Score};
