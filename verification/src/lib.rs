//! A verified model of a small publishing platform's publication lifecycle.
//!
//! Authors write drafts, publish them as immutable editions of an article,
//! and attach files to drafts. The hard part of the design is keeping a
//! relational record (articles, drafts, editions, file rows) consistent with
//! a separate blob store (one path per attached file), across multi-step
//! operations that must appear atomic to callers.
//!
//! This crate verifies that lifecycle: the relational store and the blob
//! store are modelled explicitly, every operation of the lifecycle manager
//! carries an exact transition contract, and the cross-store consistency
//! invariant is proved to be preserved by every operation.

pub mod seq_util;
pub mod numfmt;
pub mod paths;
pub mod schema;
pub mod model;
pub mod transitions;
pub mod store;
pub mod blob;
pub mod engine;
pub mod laws;
