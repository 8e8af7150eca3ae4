//! Binary Canonical Serialization (BCS): the encoding rules of the format,
//! each stated and proved against a mathematical model of the bytes it emits
//! and reads.
//!
//! - [`ser`] writes the parts of the encoding, value by value; [`de`] reads them.
//! - [`uleb128`], [`little_endian`], [`canonical_map`] and [`bytes_order`] model
//!   the bytes; [`roundtrip`] proves that reading gives back what was written.

pub mod bytes_order;
pub mod canonical_map;
pub mod de;
pub mod derive_generics;
pub mod error;
pub mod little_endian;
pub mod roundtrip;
pub mod ser;
pub mod test_helpers;
pub mod traits;
pub mod uleb128;

pub use de::{Deserializer, MapKeyTracker};
pub use error::Error;
pub use ser::{is_human_readable, MapSerializer, Serializer, WriteCounter};
pub use test_helpers::assert_canonical_encode_decode;
pub use traits::{TBCSDeserialize, TBCSDeserializeOwned, TBCSSerialize};

use vstd::prelude::*;

verus! {

/// Variable length sequences in BCS are limited to this many elements.
pub const MAX_SEQUENCE_LENGTH: usize = 2147483647;

/// Containers (structs, enums, newtypes) may be nested at most this deep.
pub const MAX_CONTAINER_DEPTH: usize = 500;

} // verus!
