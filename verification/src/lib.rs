//! The core of an embedded deductive database: the parts that decide, and
//! none of the parts that wait.
//!
//! * [`data`] holds the values, the tuples, the byte form in which tuples are
//!   stored as keys, and the order of values and of keys.
//! * [`query`] holds the stratification of programs.
//! * [`runtime`] holds the catalog of stored relations, the registry of
//!   running queries with their cancellation flags, and what the database
//!   decides between two calls into its storage engine.
//!
//! The storage engine, the parser of scripts and the evaluation of compiled
//! programs are not part of the library. It hands out keys, bounds and
//! verdicts as plain values, and takes back what was read.

pub mod data;
pub mod query;
pub mod runtime;
