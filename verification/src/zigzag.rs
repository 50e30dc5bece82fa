//! The varint decoders under the names `decode_int` and `decode_zigzag`.

use vstd::prelude::*;
use crate::decode_int::{
    decode_sint, decode_uint, spec_decode_sint, spec_decode_uint, varint_length,
};

pub use crate::decode_int::DecodedInt;

verus! {

/// Reads an unsigned varint at `index`: seven bits at a time, the least
/// significant first, with the high bit set on every byte but the last.
pub fn decode_int(bytes: &[u8], index: usize) -> (r: Option<DecodedInt>)
    ensures
        r == spec_decode_uint(bytes@, index as int),
        r matches Some(d) ==> index < d.new_index <= bytes@.len() && d.new_index == index
            + varint_length(bytes@, index as int),
{
    decode_uint(bytes, index)
}

/// Reads a signed varint at `index`: an unsigned varint whose lowest bit is
/// the sign, and whose other bits are inverted where the sign is set.
pub fn decode_zigzag(bytes: &[u8], index: usize) -> (r: Option<DecodedInt>)
    ensures
        r == spec_decode_sint(bytes@, index as int),
        r matches Some(d) ==> index < d.new_index <= bytes@.len() && d.new_index == index
            + varint_length(bytes@, index as int),
{
    decode_sint(bytes, index)
}

} // verus!
