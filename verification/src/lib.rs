//! Startup configuration loading and logging bootstrap for a long-running
//! background service.
//!
//! The library owns the validated configuration schema (with custom
//! field-level rules and an untagged address representation), the exact
//! textual form in which the defaults are written back out, and the
//! decision logic of the one-time logger initialization (backend choice,
//! filter resolution, log-file rotation).

pub mod de;
pub mod defaults;
pub mod ip;
pub mod logging;
pub mod schema;
pub mod ser;
pub mod text;
pub mod toml_input;
pub mod toml_model;
