//! Writing tag-length-value units into a byte sink.

pub mod der;
