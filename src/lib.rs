//! Durable backtest engine and generator pipeline for a symbolic factor console.
//!
//! The library holds the verified logic: the job queue with its claim
//! protocol, retry policy and recovery; the alpha records and their JSON
//! merge; the worker's reading of upstream responses; expression parsing and
//! pre-enqueue validation; the field catalog with weighted sampling; prompt
//! assembly; the pagination and request-retry rules; and command parsing.
//! Network, clock, randomness beyond a drawn value, and floating point stay
//! with the caller, which hands plain values in.
use vstd::prelude::*;

pub mod alpha;
pub mod catalog;
pub mod command;
pub mod context;
pub mod fields;
pub mod generate;
pub mod job;
pub mod json;
pub mod llm;
pub mod model;
pub mod numparse;
pub mod parser;
pub mod prompt;
pub mod session;
pub mod store;
pub mod sync;
pub mod text;
pub mod tokens;
pub mod urls;
pub mod worker;

verus! {

} // verus!
