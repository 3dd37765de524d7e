//! Conversion, validation and classification of the character encoding of
//! line-oriented byte streams.

pub mod codec;
pub mod convert;
pub mod guess;
pub mod lines;
pub mod scan;
pub mod validate;
