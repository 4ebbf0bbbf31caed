//! Canonical `major.minor.patch` versions recovered from loosely formatted
//! version identifiers.
//!
//! A raw text passes through the date stripper ([`date`]) and the version
//! extractor ([`extract`]), each an ordered list of rules of which the first
//! that applies decides ([`cascade`]); the outcome is resolved into a triple
//! of 32-bit numbers held by a [`ComposerVersion`], which can be bumped and
//! rendered.

pub mod cascade;
pub mod date;
pub mod decimal;
pub mod dotted;
pub mod extract;
pub mod pattern;
pub mod version;

pub use version::{ComposerVersion, DEFAULT, DEFAULT_TRIPLE};
