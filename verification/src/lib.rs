//! A document-retrieval pipeline: bounded chunking of extracted text,
//! embedding of every chunk through a remote provider under a payload guard
//! and a concurrency cap, caching of the resulting vectors per document,
//! cosine ranking of chunks against a query vector, and assembly of a
//! sanitized context window for a downstream generation step.
//!
//! All similarity arithmetic is carried out exactly over fixed-point integer
//! vectors, so the ranking order and the threshold test are free of rounding.

pub mod text;

pub mod chunk;

pub mod vector;

pub mod rank;

pub mod cache;

pub mod client;

pub mod pipeline;

pub mod assemble;

pub mod sanitize;

pub mod identity;

pub mod landmarks;

pub mod api;

pub mod xmltext;

pub mod wrap;
