//! The type dispatch and the chunked stream of a codec for sequences of numbers.
//!
//! - `data_types` holds the registry of the kinds of number and their tags.
//! - `num_vec` holds the erased container: a vector of any one kind.
//! - `standalone` holds the stream of header, chunks and end, read at once or
//!   pull by pull; `wire` and `delta` hold the bytes and the differences it is
//!   made of, `config` the settings of compression, `errors` what can go wrong.
//! - `java` holds what the bindings for Java decide, and `bench` what a
//!   benchmark of codecs decides and sums up.

pub mod bench;
pub mod config;
pub mod data_types;
pub mod delta;
pub mod errors;
pub mod java;
pub mod num_vec;
pub mod standalone;
pub mod text;
pub mod wire;
