//! Bidirectional binary codecs built from small combinators over persistent byte vectors.
pub mod error;
pub mod text;
pub mod byte_vector;
pub mod hlist;
pub mod integral;
pub mod codec;
pub use vstd::view::View;
