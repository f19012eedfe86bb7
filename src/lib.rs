//! Supervision core of a health-checking process runner: line framing of a
//! child's output, a bounded log of recent lines, the output-liveness
//! heuristic, relaying of termination signals and arbitration of the outcome.
pub mod line_framer;
pub mod recent_log;
pub mod supervisor;
pub mod deadlock;
pub mod capture;
pub mod relay;
pub mod notify;
