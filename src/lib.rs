//! A reusable test driver in the manner of LLVM's `lit`: test files carry
//! their own `RUN` and `CHECK` directives, and the output of each run is
//! checked against the patterns they declare.

pub use config::Config;
pub use vars::{Variables, VariablesExt};

pub mod text;
pub mod vars;
pub mod model;
pub mod parse;
pub mod config;
pub mod matching;
pub mod resolve;
pub mod evaluator;
pub mod util;
pub mod run;
pub mod report;
pub mod paths;
pub mod output_lines;
