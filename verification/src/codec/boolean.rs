//! Booleans on the wire: one byte, 0 or 1.

use crate::buf::{put_u8, remaining_mut};
use crate::codec::{decoded, spec_reads_only_its_bytes, Output, Parsed};
use crate::error::{Error, ErrorKind};
use vstd::prelude::*;

verus! {

/// Encoding `b` into a vector that holds `len` bytes.
pub open spec fn spec_write_bool(len: nat, b: bool) -> Output {
    Output::put(
        len,
        seq![if b {
            1u8
        } else {
            0u8
        }],
    )
}

/// What decoding a boolean reads from the front of `s`. A byte other than 0
/// and 1 is an `InvalidBooleanValue`.
pub open spec fn spec_parse_bool(s: Seq<u8>) -> Parsed<bool> {
    if s.len() == 0 {
        Err(ErrorKind::UnexpectedEnd)
    } else if s[0] == 0 {
        Ok((false, 1))
    } else if s[0] == 1 {
        Ok((true, 1))
    } else {
        Err(ErrorKind::InvalidBooleanValue(s[0]))
    }
}

/// Appends `b` to `w`.
pub fn serialize_bool(b: bool, w: &mut Vec<u8>) -> (r: Result<usize, Error>)
    ensures
        spec_write_bool(old(w)@.len(), b).describes(old(w)@, final(w)@, r),
{
    if remaining_mut(w) < 1 {
        return Err(Error::ErrBufferTooShort);
    }
    put_u8(
        w,
        if b {
            1
        } else {
            0
        },
    );
    Ok(1)
}

/// Reads one boolean from the front of `buf`.
pub fn deserialize_bool(buf: &[u8]) -> (r: Result<(bool, usize), Error>)
    ensures
        decoded(r) == spec_parse_bool(buf@),
        r matches Ok((_, n)) ==> 1 <= n <= buf@.len(),
{
    if buf.len() < 1 {
        return Err(Error::ErrUnexpectedEnd);
    }
    match buf[0] {
        0 => Ok((false, 1)),
        1 => Ok((true, 1)),
        other => Err(Error::ErrInvalidBooleanValue(other)),
    }
}

/// Decoding an encoded boolean gives it back and takes exactly the encoded
/// byte, whatever follows it.
pub proof fn lemma_parse_write_bool(len: nat, b: bool, rest: Seq<u8>)
    requires
        spec_write_bool(len, b).error is None,
    ensures
        spec_parse_bool(spec_write_bool(len, b).bytes + rest) == Ok::<_, ErrorKind>(
            (b, spec_write_bool(len, b).bytes.len()),
        ),
{
}

/// Decoding a boolean looks at no byte beyond the one it takes.
pub proof fn lemma_parse_bool_prefix(s: Seq<u8>, k: int)
    requires
        0 <= k <= s.len(),
    ensures
        spec_reads_only_its_bytes(spec_parse_bool(s), spec_parse_bool(s.take(k)), k),
{
}

} // verus!
