//! The errors that encoding and decoding BCS can produce.

use vstd::prelude::*;

verus! {

/// Everything that can go wrong while producing or reading BCS bytes.
#[derive(Clone, Debug, PartialEq, Eq)]
pub enum Error {
    /// The input ended before the value was complete.
    Eof,
    /// Writing to or reading from the underlying stream failed.
    Io(String),
    /// A sequence was longer than `MAX_SEQUENCE_LENGTH`.
    ExceededMaxLen(usize),
    /// Containers were nested deeper than the allowed limit; the name is that of
    /// the container that could not be entered.
    ExceededContainerDepthLimit(&'static str),
    /// A boolean byte was neither 0 nor 1.
    ExpectedBoolean,
    /// A map value was serialized without a key before it.
    ExpectedMapKey,
    /// A map key was not followed by its value.
    ExpectedMapValue,
    /// Map keys were out of order or repeated.
    NonCanonicalMap,
    /// An option tag was neither 0 nor 1.
    ExpectedOption,
    /// A message from a `Serialize` or `Deserialize` implementation.
    Custom(String),
    /// A sequence was serialized without announcing its length.
    MissingLen,
    /// The data model feature named is not part of BCS.
    NotSupported(&'static str),
    /// Bytes were left after the value was read.
    RemainingInput,
    /// A string was not valid UTF-8.
    Utf8,
    /// A ULEB128 number was not in its shortest form.
    NonCanonicalUleb128Encoding,
    /// A ULEB128 number did not fit in 32 bits.
    IntegerOverflowDuringUleb128Decoding,
}

} // verus!
