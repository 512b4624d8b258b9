//! A codec for the tagged binary format of a browser engine's structured-clone
//! wire protocol: values are written as a stream of tag bytes and payloads,
//! and read back with every read checked against the end of the input.
mod de;
mod error;
mod laws;
mod read;
mod ser;
mod value;
mod wire;

pub use de::{decode, Deserializer};
pub use error::Error;
pub use laws::{
    lemma_count_integrity, lemma_count_integrity_at, lemma_header_is_optional, lemma_round_trip,
};
pub use ser::{encode, Frame, Serializer, FORMAT_VERSION};
pub use value::{ArrayBufferViewType, ErrorType, Value, ValueModel};
