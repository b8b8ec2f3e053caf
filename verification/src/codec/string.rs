//! Strings on the wire: a variable-length integer that counts bytes, then
//! that many bytes of UTF-8.

use crate::buf::{put_slice, remaining_mut};
use crate::codec::varint::{
    deserialize_u64, lemma_decode_bound, lemma_decode_encode, lemma_decode_prefix,
    lemma_tag_agrees_with_length, serialize_usize, spec_parse_varint, spec_write_u64,
};
use crate::codec::{decoded, spec_reads_only_its_bytes, Output, Parsed};
use crate::error::{Error, ErrorKind};
use std::string::FromUtf8Error;
use vstd::prelude::*;
use vstd::slice::{slice_subrange, slice_to_vec};
use vstd::utf8::*;

verus! {

/// Encoding the string `chars` into a vector that holds `len` bytes.
#[verifier::opaque]
pub open spec fn spec_write_string(len: nat, chars: Seq<char>) -> Output {
    let body = encode_utf8(chars);
    let head = spec_write_u64(len, body.len() as u64);
    head.followed_by(Output::put(len + head.bytes.len(), body))
}

/// What decoding a string reads from the front of `s`.
#[verifier::opaque]
pub open spec fn spec_parse_string(s: Seq<u8>) -> Parsed<Seq<char>> {
    match spec_parse_varint(s) {
        Err(e) => Err(e),
        Ok((size, n)) => {
            if s.len() - n < size {
                Err(ErrorKind::BufferTooShort)
            } else if !valid_utf8(s.subrange(n as int, n + size)) {
                Err(ErrorKind::InvalidString)
            } else {
                Ok((decode_utf8(s.subrange(n as int, n + size)), n + size as nat))
            }
        },
    }
}

/// `String::from_utf8`: succeeds exactly on well-formed UTF-8, and the string
/// it returns then holds the bytes it was given.
#[verifier::external_body]
pub(crate) fn string_from_utf8(bytes: Vec<u8>) -> (r: Result<String, FromUtf8Error>)
    ensures
        r is Ok <==> valid_utf8(bytes@),
        r matches Ok(s) ==> encode_utf8(s@) == bytes@,
{
    String::from_utf8(bytes)
}

/// Appends the byte length of `s` and its bytes to `w`.
pub fn serialize_string(s: &String, w: &mut Vec<u8>) -> (r: Result<usize, Error>)
    ensures
        spec_write_string(old(w)@.len(), s@).describes(old(w)@, final(w)@, r),
{
    proof {
        reveal(spec_write_string);
    }
    let body = s.as_str().as_bytes();
    let l = serialize_usize(body.len(), w)?;
    if remaining_mut(w) < body.len() {
        return Err(Error::ErrBufferTooShort);
    }
    put_slice(w, body);
    Ok(l + body.len())
}

/// Reads one string from the front of `buf`.
pub fn deserialize_string(buf: &[u8]) -> (r: Result<(String, usize), Error>)
    ensures
        decoded(r) == spec_parse_string(buf@),
        r matches Ok((_, n)) ==> 1 <= n <= buf@.len(),
{
    proof {
        reveal(spec_parse_string);
    }
    let (size, n) = deserialize_u64(buf)?;
    proof {
        lemma_decode_bound(buf@);
    }
    if ((buf.len() - n) as u64) < size {
        return Err(Error::ErrBufferTooShort);
    }
    let end: usize = n + size as usize;
    let body = slice_to_vec(slice_subrange(buf, n, end));
    match string_from_utf8(body) {
        Ok(s) => {
            proof {
                encode_utf8_decode_utf8(s@);
            }
            Ok((s, end))
        },
        Err(e) => Err(Error::ErrInvalidString(e)),
    }
}

/// Decoding an encoded string gives the string back and takes exactly the
/// encoded bytes, whatever follows them.
pub proof fn lemma_parse_write_string(len: nat, chars: Seq<char>, rest: Seq<u8>)
    requires
        spec_write_string(len, chars).error is None,
    ensures
        spec_parse_string(spec_write_string(len, chars).bytes + rest) == Ok::<_, ErrorKind>(
            (chars, spec_write_string(len, chars).bytes.len()),
        ),
{
    reveal(spec_write_string);
    reveal(spec_parse_string);
    let body = encode_utf8(chars);
    let size = body.len() as u64;
    let out = spec_write_string(len, chars);
    let s = out.bytes + rest;
    let head = spec_write_u64(len, size).bytes;
    lemma_tag_agrees_with_length(size);
    assert(s =~= head + (body + rest));
    lemma_decode_encode(size, body + rest);
    assert(s.subrange(head.len() as int, head.len() + size) =~= body);
    encode_utf8_valid_utf8(chars);
    encode_utf8_decode_utf8(chars);
}

/// Decoding a string looks at no byte beyond those it takes.
pub proof fn lemma_parse_string_prefix(s: Seq<u8>, k: int)
    requires
        0 <= k <= s.len(),
    ensures
        spec_reads_only_its_bytes(spec_parse_string(s), spec_parse_string(s.take(k)), k),
{
    reveal(spec_parse_string);
    lemma_decode_prefix(s, k);
    lemma_decode_bound(s);
    if let Ok((size, n)) = spec_parse_varint(s) {
        if n + size <= k {
            assert(s.take(k).subrange(n as int, n + size) =~= s.subrange(n as int, n + size));
        }
    }
}

} // verus!
