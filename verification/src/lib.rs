//! The inputs and the encoding of the ariadne conformance cases: random
//! reports, colour generators and texts split into lines, written as one
//! compact base-64 text.
pub mod cases;
pub mod colors;
pub mod encode;
pub mod file_text;
pub mod fingerprint;
pub mod inputs;
pub mod lines;
pub mod plan_text;
pub mod pools;
pub mod report;
pub mod rng;
