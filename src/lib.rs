//! A library for brute forcing arbitrary computations: a checking function
//! runs on many workers at once, each over its own part of a state space,
//! until one of them yields a result.
pub mod adaptors;
pub mod bytes;
pub mod config;
pub mod run;
pub mod scalar;
pub mod space;
pub mod worker;

pub use adaptors::{auto_advance, output_input, random_start, RandomStart};
pub use config::Config;
pub use run::{settle, Outcome};
pub use space::{Advance, Start};
pub use worker::run_batch;
