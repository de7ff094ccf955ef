//! Dataset model, script builders and scoring for binary patch-presence evaluation.

pub mod text;
pub mod config;
pub mod order;
pub mod seqs;
pub mod dataset;
pub mod metric;
pub mod evaluation;
pub mod scripts;
