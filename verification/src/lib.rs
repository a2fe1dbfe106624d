//! Schema-driven binary codec for structured messages.
//!
//! A schema document describes nested tagged unions ("oneOf" alternatives)
//! whose leaves are flat records of typed fields. One compiled schema drives
//! both directions: encoding a structured value to bytes and decoding bytes
//! back to an equivalent structured value.

pub mod bytes;
pub mod codec;
pub mod config;
pub mod error;
pub mod fields;
pub mod props;
pub mod schema;
pub mod value;

pub use codec::Parser;
pub use error::Error;
pub use schema::MultiLayerSchema;
pub use value::JsonVal;
pub use value::ValView;
