//! The Qi profiler's logic on text and integers: the report table that a
//! profiled program prints, matching functions across runs and profiles,
//! display widths, name truncation, the flame graph's layout, the compiler
//! arguments, the waiting loop's decisions and output merging.
//!
//! Timings are floating-point numbers and stay outside this library; what is
//! here works on text and integers.

pub mod compare;
pub mod flame;
pub mod parser;
pub mod report;
pub mod runner;
pub mod stats;
