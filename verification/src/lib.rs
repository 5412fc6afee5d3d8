//! Converts strings into a file-system-friendly and human-readable form.
//!
//! The algorithm replaces or deletes characters from the input stream using
//! various filters that are applied in sequential order, line by line:
//!
//! 1. Replace all whitespace with space.
//! 2. Filter all control characters.
//! 3. Replace characters that are unsafe in filenames with underscore.
//! 4. Replace characters that are unsafe in URLs with space.
//! 5. Collapse repeated spaces and repeated underscores, suppress
//!    separator-like characters right after whitespace, and drop the
//!    zero-width space.
//! 6. Trim whitespace and `_-.,;` at both ends of every line.
//! 7. Join the lines with `-` and trim the ends of the result again.
//!
//! The module `rules` defines the character classes and `model` the
//! mathematical description of the pipeline; `sanitizer` holds the
//! executable transformation and `laws` the properties proved of it.

pub mod laws;
pub mod model;
pub mod rules;
mod sanitizer;

pub use sanitizer::sanitize;
