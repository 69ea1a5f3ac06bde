//! Coverage report aggregation and safe export.
//!
//! The crate merges per-line execution traces with source file text,
//! builds an ordered report document, serializes it into a payload that
//! is safe to embed inside a `<script>` block of a generated page, and
//! decides the destination of the rendered artifact.

pub mod strutil;
pub mod traces;
pub mod paths;
pub mod json;
pub mod report;
pub mod config;
