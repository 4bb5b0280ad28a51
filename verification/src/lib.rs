//! A verified codec for the Bencode serialization format: the
//! length-prefixed, self-delimiting binary encoding used by
//! BitTorrent-style protocols.
//!
//! An in-memory tree of typed values ([`Bencode`]) is converted to its
//! canonical byte sequence and back.  The wire grammar is
//!
//! ```text
//! value  := number | bytes | array | object
//! number := 'i' digits 'e'
//! bytes  := length ':' raw-bytes
//! array  := 'l' value* 'e'
//! object := 'd' (bytes value)* 'e'
//! ```
//!
//! The mathematical model of trees and of the wire format lives in
//! [`model`]; every executable function is specified against it.

pub mod array;
pub mod bytes;
pub mod codec;
pub mod decode;
pub mod laws;
pub mod lemmas;
pub mod model;
pub mod number;
pub mod object;
pub mod types;
pub mod value;

pub use codec::BencodeCast;
pub use codec::BencodeVariable;
pub use codec::FromBencode;
pub use codec::ToBencode;
pub use model::BenEntry;
pub use model::BenValue;
pub use model::DecodeError;
pub use types::BencodeTypes;
pub use value::Bencode;
pub use value::BencodeArray;
pub use value::BencodeBytes;
pub use value::BencodeNumber;
pub use value::BencodeObject;
pub use value::ObjectEntry;
