//! Phonotactic scheme checker: a line-oriented document declares character
//! classes, intent-tagged matching rules with optional failure reasons, and
//! test words; the engine judges each word against the rules in order and the
//! runner assembles a pass/fail report.

pub mod laws;
pub mod pattern;
pub mod runner;
pub mod scheme;
pub mod text;
