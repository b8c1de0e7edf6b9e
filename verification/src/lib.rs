//! From an uploaded text to the solution of the linear system it holds.
//!
//! The library reads a text as a linear system and decides, step by step,
//! what a run does with it: [`parser`] holds the format, [`pipeline`] the
//! run. It does no input or output and no arithmetic on the numbers: the
//! bytes come from the caller, the solver is the caller's, and the library
//! says what to fetch, what to solve, what to store and what to report.
pub mod decode;
pub mod number;
pub mod parser;
pub mod parser_facts;
pub mod pipeline;
pub mod pipeline_facts;
pub mod response;
pub mod search;
pub mod text;
