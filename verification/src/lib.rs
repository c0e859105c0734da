//! Core logic of a transcription-upload pipeline: a filename parser for
//! recording files, a deduplication ledger with a bounded history and an
//! in-flight set, a per-path debounce state machine, and the pure decision
//! steps of the upload submitter. File watching, file reading and the HTTP
//! transport live outside this crate and hand plain values in and out.

pub mod debounce;
pub mod ledger;
pub mod parse;
pub mod paths;
pub mod seq_set;
pub mod signature;
pub mod submit;
