//! Analysis of concurrent-execution traces.
//!
//! A trace is a totally ordered sequence of events in which threads acquire
//! and release locks and touch shared memory. The crate decodes such a
//! trace from its textual or its packed binary form, checks the lock
//! discipline event by event, and derives the lock graph and the
//! thread-level dependency graph on which deadlock detection runs.
//!
//! * [`parser`] holds the event model and the grammar of a line, [`token`],
//!   [`lexer`] and [`normalizer`] the tokens that the grammar reads;
//! * [`binary`] reads the packed binary format;
//! * [`analyzer`] checks one event against the state of the locks;
//! * [`trace`] runs the analyzer over a trace, line by line or record by
//!   record, and closes the run;
//! * [`deadlock`] builds the thread-level dependency graph and searches it,
//!   [`graphviz`] lists the edges of a graph;
//! * [`guarantees`] and [`cycles`] state what holds of every run and of
//!   every graph;
//! * [`error`] holds what is reported, [`text`] the numerals in messages,
//!   and [`arguments`] the settings of a run.

pub mod analyzer;
pub mod arguments;
pub mod binary;
pub mod cycles;
pub mod deadlock;
pub mod error;
pub mod graphviz;
pub mod guarantees;
pub mod lexer;
pub mod normalizer;
pub mod parser;
pub mod text;
pub mod token;
pub mod trace;
