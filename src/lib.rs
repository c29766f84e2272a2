//! A progress-observable byte stream for uploads.
//!
//! `stream` holds the pull decisions of a body stream: what to read next, and
//! what a completed read turns into (a chunk with its progress record, the end,
//! or a failure). `slice` drives those decisions over an in-memory source, and
//! `chunks` describes and proves what a whole run over such a source yields.

pub mod chunks;
pub mod slice;
pub mod stream;
