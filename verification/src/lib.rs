//! Decision logic of a small maintenance tool that launches a fixed set of
//! independent upgrade jobs, lets them run side by side, and reports which of
//! them failed.
//!
//! The crate holds everything that decides: what a job launches next and when
//! it is over ([`job`]), how the outcomes of all jobs are gathered into one
//! report ([`engine`]), which packages a listing names ([`discovery`]), and the
//! fixed list of jobs ([`registry`]). Starting processes and threads is left to
//! the caller, which feeds what it observed back into these functions.

pub mod discovery;
pub mod engine;
pub mod job;
pub mod outcome;
pub mod registry;
