//! Developer tools for the Qi language: a whitespace-only formatter, a C header
//! binding renderer, diagnostics reporting, documentation rendering and
//! profiler text helpers.

pub mod text;
pub mod formatter;
pub mod bindgen;
pub mod checker;
pub mod profiler;
pub mod doc;
