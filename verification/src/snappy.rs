//! Snappy decompression, as the `snap` crate does it. Nothing of what is stated of the two
//! calls here is proved.

use crate::varint::decoded;
use vstd::prelude::*;

verus! {

/// The most bytes that the header of Snappy data may have.
pub const MAX_HEADER_BYTES: usize = 5;

/// The length that the header of the Snappy data `input` announces, if the header can be
/// read. Empty data announce the length zero. Other data start with the length as a varint,
/// which has to end within five bytes and to fit 32 bits.
pub open spec fn snappy_len(input: Seq<u8>) -> Option<nat> {
    if input.len() == 0 {
        Some(0)
    } else {
        match decoded(input) {
            Some((v, n)) => if n <= MAX_HEADER_BYTES && v <= u32::MAX {
                Some(v)
            } else {
                None
            },
            None => None,
        }
    }
}

/// The bytes that the Snappy data `input` decompress to, if they can be decompressed.
pub uninterp spec fn snappy_decoded(input: Seq<u8>) -> Option<Seq<u8>>;

/// `snap::raw::decompress_len`: the length that the header announces, or nothing where the
/// header cannot be read.
#[verifier::external_body]
pub(crate) fn decompress_len(input: &Vec<u8>) -> (r: Option<usize>)
    ensures
        match r {
            Some(n) => snappy_len(input@) == Some(n as nat),
            None => snappy_len(input@) is None,
        },
{
    snap::raw::decompress_len(input).ok()
}

/// `snap::raw::Decoder::decompress_vec`: the decompressed bytes, which are as many as the
/// header announces, or nothing where the call fails. The call allocates the announced
/// length at once, so the length has to be known to be small.
#[verifier::external_body]
pub(crate) fn decompress_vec(input: &Vec<u8>) -> (r: Option<Vec<u8>>)
    requires
        snappy_len(input@) matches Some(n) && n <= crate::stringtables::MAX_USERDATA_SIZE,
    ensures
        match r {
            Some(v) => snappy_decoded(input@) == Some(v@) && snappy_len(input@) == Some(v@.len()),
            None => snappy_decoded(input@) is None,
        },
{
    snap::raw::Decoder::new().decompress_vec(input).ok()
}

} // verus!
