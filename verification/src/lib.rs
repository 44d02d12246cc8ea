//! A character cursor for hand-written tokenizers and parsers.
//!
//! [`TextReader`] reads a text one character at a time, steps back over
//! what it has read, and keeps line and column. [`Detector`] probes
//! whether a run of characters comes next: it moves the reader past the
//! run if so, leaves the reader untouched if not, and can step back over
//! a match afterwards. The module `model` says in plain values what both
//! do, and proves what holds of them.

pub mod detector;
pub mod model;
pub mod textreader;

pub use crate::detector::Detector;
pub use crate::textreader::TextReader;
