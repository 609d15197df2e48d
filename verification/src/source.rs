//! Fixed-width reads from the shared byte buffer.

use vstd::prelude::*;
use scroll::Pread;
use crate::error::DecodeError;

verus! {

/// The error type of the `scroll` crate. Nothing is known of a value of it.
#[verifier::external_type_specification]
#[verifier::external_body]
#[verifier::reject_recursive_types(T)]
pub struct ExScrollError<T>(scroll::Error<T>);

/// Byte order of the fixed-width fields of a buffer.
#[derive(Clone, Copy, Debug, PartialEq, Eq, Structural)]
pub enum Endian {
    /// Least significant byte first.
    Little,
    /// Most significant byte first.
    Big,
}

/// Width in bytes of one fixed-width field.
pub const WORD_SIZE: usize = 4;

/// The number whose bytes are, from the least significant upward, `b0` to `b3`.
pub open spec fn word(b0: u8, b1: u8, b2: u8, b3: u8) -> u32 {
    (b0 + 0x100 * b1 + 0x1_0000 * b2 + 0x100_0000 * b3) as u32
}

/// The 32-bit number that the four bytes from `at` on hold in byte order `endian`.
pub open spec fn word_at(bytes: Seq<u8>, at: int, endian: Endian) -> u32 {
    match endian {
        Endian::Little => word(bytes[at], bytes[at + 1], bytes[at + 2], bytes[at + 3]),
        Endian::Big => word(bytes[at + 3], bytes[at + 2], bytes[at + 1], bytes[at]),
    }
}

/// What reading one 32-bit field at `at` gives: the number and the offset
/// behind it, or `Truncated` where fewer than four bytes are left.
pub open spec fn u32_at(bytes: Seq<u8>, at: usize, endian: Endian) -> Result<(u32, usize), DecodeError> {
    if at + WORD_SIZE <= bytes.len() {
        Ok((word_at(bytes, at as int, endian), (at + WORD_SIZE) as usize))
    } else {
        Err(DecodeError::Truncated { offset: at })
    }
}

/// Calls `scroll::Pread::pread_with::<u32>` on the buffer.
///
/// Trusted: the read succeeds exactly when four bytes lie at `offset` inside
/// the buffer, and then gives the number they hold in the byte order asked for.
#[verifier::external_body]
fn pread_u32(bytes: &[u8], offset: usize, endian: Endian) -> (r: Result<u32, scroll::Error>)
    ensures
        r is Ok <==> offset + WORD_SIZE <= bytes@.len(),
        r matches Ok(value) ==> value == word_at(bytes@, offset as int, endian),
{
    let order = match endian {
        Endian::Little => scroll::Endian::Little,
        Endian::Big => scroll::Endian::Big,
    };
    bytes.pread_with::<u32>(offset, order)
}

/// Reads one 32-bit field at `*offset` and moves the offset behind it.
/// On failure the offset stays where it was.
pub fn read_u32(bytes: &[u8], offset: &mut usize, endian: Endian) -> (r: Result<u32, DecodeError>)
    ensures
        match u32_at(bytes@, *old(offset), endian) {
            Ok((value, next)) => r == Ok::<u32, DecodeError>(value) && *final(offset) == next,
            Err(e) => r == Err::<u32, DecodeError>(e) && *final(offset) == *old(offset),
        },
{
    match pread_u32(bytes, *offset, endian) {
        Ok(value) => {
            assert(bytes@.len() == bytes.len());
            *offset = *offset + WORD_SIZE;
            Ok(value)
        },
        Err(_) => Err(DecodeError::Truncated { offset: *offset }),
    }
}

} // verus!
