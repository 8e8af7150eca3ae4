//! Support for tests that check that a value survives encoding and decoding.

use crate::error::Error;
use vstd::prelude::*;

verus! {

/// Encodes `t` with `encode`, then decodes the bytes with `decode`, and returns
/// what came back, or the first error. A test then asserts that it equals `t`.
pub fn assert_canonical_encode_decode<T, E, D>(t: &T, encode: E, decode: D) -> (r: Result<T, Error>) where
    E: FnOnce(&T) -> Result<Vec<u8>, Error>,
    D: FnOnce(&Vec<u8>) -> Result<T, Error>,

    requires
        encode.requires((t,)),
        forall|bytes: &Vec<u8>| #[trigger] decode.requires((bytes,)),
    ensures
        exists|encoded: Result<Vec<u8>, Error>|
            #[trigger] encode.ensures((t,), encoded) && match encoded {
                Ok(bytes) => decode.ensures((&bytes,), r),
                Err(e) => r == Err::<T, Error>(e),
            },
{
    let encoded = encode(t);
    match encoded {
        Ok(bytes) => decode(&bytes),
        Err(e) => Err(e),
    }
}

} // verus!
