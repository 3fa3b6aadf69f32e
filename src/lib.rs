//! Live strings built from templates with embedded expressions.
//!
//! `template` splits a template such as `"Uptime: {{uptime -p}}"` into
//! literal and expression segments. `aggregator` holds one slot per segment
//! and recomposes the whole string each time an expression's output arrives.

pub mod aggregator;
pub mod template;
