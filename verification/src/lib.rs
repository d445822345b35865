//! A continuous SQL-style stream processor over columnar datasets.
//!
//! A query is parsed once, then evaluated incrementally over an unbounded
//! feed of record batches; one output batch is emitted for every completed
//! time window, and the per-window state can be saved and restored.
//!
//! - [`array`] and [`schema`] hold the columnar data model: data types,
//!   scalars, arrays with their builders, schemas and datasets.
//! - [`expr`] and [`sql`] hold the query language: the expression tree, the
//!   grammar and the parser.
//! - [`physical`] evaluates bound expressions over a dataset.
//! - [`window`], [`keys`] and [`grouping`] cut a batch into windows and
//!   groups; [`aggregate`] is the windowed, grouped aggregation itself.
//! - [`codec`], [`state`] and [`checkpoint`] are the byte formats of saved
//!   state and the barrier that collects it.
//! - [`operators`] and [`stream`] are the operators as streams of events.
//! - [`csv`] turns the records of a CSV text into schemas and datasets.
//!
//! Every function states what it returns; the proof functions named
//! `lemma_…` state what holds across functions: that a saved state loads
//! again as what was saved, that a state that is cut short is refused, that
//! late rows change nothing, that a watermark closes exactly the windows
//! that have ended, that a checkpoint holds one entry for each node that
//! reported a state.

pub mod aggregate;
pub mod array;
pub mod checkpoint;
pub mod codec;
pub mod csv;
pub mod error;
pub mod expr;
pub mod grouping;
pub mod keys;
pub mod operators;
pub mod physical;
pub mod schema;
pub mod sql;
pub mod state;
pub mod stream;
pub mod text;
pub mod window;
