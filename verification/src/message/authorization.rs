//! The parameter block of the messages that may carry an authorization: the
//! authorization is its only entry, or the block is empty.

use crate::codec::parameters::{
    deserialize_parameter, lemma_parse_parameter_prefix, lemma_parse_write_parameter,
    spec_parse_parameter, spec_write_entries, spec_write_parameter, spec_write_parameters,
    ParameterKey, Parameters,
};
use crate::codec::string::string_from_utf8;
use crate::codec::varint::{
    deserialize_u64, lemma_decode_bound, lemma_decode_prefix, lemma_parse_write_u64,
    spec_parse_varint, spec_write_u64,
};
use crate::codec::{
    lemma_followed_by, lemma_split_input, spec_advance, spec_reads_only_its_bytes, spec_text,
    Output, Parsed,
};
use crate::error::{Error, ErrorKind};
use crate::message::message_parser::ParserErrorCode;
use vstd::prelude::*;
use vstd::slice::{slice_subrange, slice_to_vec};
use vstd::utf8::*;

verus! {

/// The entries of the block that carries `authorization_info`.
pub open spec fn spec_authorization_entries(authorization_info: Option<Seq<char>>) -> Seq<
    (u64, Seq<u8>),
> {
    match authorization_info {
        Some(text) => seq![(ParameterKey::AuthorizationInfo.spec_value(), encode_utf8(text))],
        None => Seq::empty(),
    }
}

/// Encoding the block that carries `authorization_info` into a vector that
/// holds `len` bytes.
#[verifier::opaque]
pub open spec fn spec_write_authorization_block(
    len: nat,
    authorization_info: Option<Seq<char>>,
) -> Output {
    spec_write_parameters(len, spec_authorization_entries(authorization_info))
}

/// What reading `count` parameters reads from the front of `s`, `found` being
/// the authorization met before them: the authorization of the block. A
/// second authorization is a violation of the protocol, reported as `reason`;
/// entries under
/// other keys are passed over.
pub open spec fn spec_parse_authorization(
    s: Seq<u8>,
    count: nat,
    found: Option<Seq<char>>,
    reason: Seq<char>,
) -> Parsed<Option<Seq<char>>>
    decreases count,
{
    if count == 0 {
        Ok((found, 0))
    } else {
        match spec_parse_parameter(s) {
            Err(e) => Err(e),
            Ok(((key, value), n)) => {
                if key != ParameterKey::AuthorizationInfo.spec_value() {
                    spec_advance(
                        spec_parse_authorization(
                            s.skip(n as int),
                            (count - 1) as nat,
                            found,
                            reason,
                        ),
                        n,
                    )
                } else if found is Some {
                    Err(ErrorKind::ParseError(ParserErrorCode::ProtocolViolation, reason))
                } else if !valid_utf8(value) {
                    Err(ErrorKind::InvalidString)
                } else {
                    spec_advance(
                        spec_parse_authorization(
                            s.skip(n as int),
                            (count - 1) as nat,
                            Some(decode_utf8(value)),
                            reason,
                        ),
                        n,
                    )
                }
            },
        }
    }
}

/// What reading a parameter block reads from the front of `s`: the number
/// of entries, then the entries, of which the authorization is kept.
#[verifier::opaque]
pub open spec fn spec_parse_authorization_block(s: Seq<u8>, reason: Seq<char>) -> Parsed<
    Option<Seq<char>>,
> {
    match spec_parse_varint(s) {
        Err(e) => Err(e),
        Ok((count, n)) => spec_advance(
            spec_parse_authorization(s.skip(n as int), count as nat, None, reason),
            n,
        ),
    }
}

/// The mathematical content of the result of reading an authorization.
pub open spec fn found(r: Result<(Option<String>, usize), Error>) -> Parsed<Option<Seq<char>>> {
    match r {
        Ok((text, n)) => Ok((spec_text(text), n as nat)),
        Err(e) => Err(e@),
    }
}

/// Reads `count` parameters from the front of `buf` and returns the
/// authorization among them.
pub fn deserialize_authorization(buf: &[u8], count: u64, reason: &str) -> (r: Result<
    (Option<String>, usize),
    Error,
>)
    ensures
        found(r) == spec_parse_authorization(buf@, count as nat, None, reason@),
        r matches Ok((_, n)) ==> n <= buf@.len(),
{
    let mut text: Option<String> = None;
    let mut pos: usize = 0;
    let mut i: u64 = 0;
    assert(buf@.skip(0) =~= buf@);
    while i < count
        invariant
            i <= count,
            pos <= buf@.len(),
            spec_parse_authorization(buf@, count as nat, None, reason@) == spec_advance(
                spec_parse_authorization(
                    buf@.skip(pos as int),
                    (count - i) as nat,
                    spec_text(text),
                    reason@,
                ),
                pos as nat,
            ),
        decreases count - i,
    {
        let rest = slice_subrange(buf, pos, buf.len());
        let span = deserialize_parameter(rest)?;
        if span.key == ParameterKey::AuthorizationInfo.value() {
            if text.is_some() {
                return Err(
                    Error::ErrParseError(ParserErrorCode::ProtocolViolation, reason.to_owned()),
                );
            }
            let value = slice_to_vec(slice_subrange(rest, span.start, span.end));
            match string_from_utf8(value) {
                Ok(s) => {
                    proof {
                        encode_utf8_decode_utf8(s@);
                    }
                    text = Some(s);
                },
                Err(e) => {
                    return Err(Error::ErrInvalidString(e));
                },
            }
        }
        proof {
            assert(buf@.skip(pos as int).skip(span.end as int) =~= buf@.skip(pos + span.end));
        }
        pos = pos + span.end;
        i = i + 1;
    }
    Ok((text, pos))
}

/// Reads a parameter block from the front of `buf` and returns the
/// authorization in it. A second authorization is reported as `reason`.
pub fn deserialize_authorization_block(buf: &[u8], reason: &str) -> (r: Result<
    (Option<String>, usize),
    Error,
>)
    ensures
        found(r) == spec_parse_authorization_block(buf@, reason@),
        r matches Ok((_, n)) ==> 1 <= n <= buf@.len(),
{
    proof {
        reveal(spec_parse_authorization_block);
    }
    let (count, n) = deserialize_u64(buf)?;
    let (text, m) = deserialize_authorization(slice_subrange(buf, n, buf.len()), count, reason)?;
    Ok((text, n + m))
}

/// Appends the block that carries `authorization_info` to `w`.
pub fn serialize_authorization_block(authorization_info: &Option<String>, w: &mut Vec<u8>) -> (r:
    Result<usize, Error>)
    ensures
        spec_write_authorization_block(old(w)@.len(), spec_text(*authorization_info)).describes(
            old(w)@,
            final(w)@,
            r,
        ),
{
    proof {
        reveal(spec_write_authorization_block);
    }
    let mut parameters = Parameters::new();
    if let Some(text) = authorization_info.as_ref() {
        parameters.insert(ParameterKey::AuthorizationInfo, text.clone())?;
    }
    assert(parameters@ =~= spec_authorization_entries(spec_text(*authorization_info)));
    parameters.serialize(w)
}

/// Reading the entries that were written for an authorization gives the
/// authorization back and takes exactly the entries.
proof fn lemma_parse_write_authorization(
    len: nat,
    authorization_info: Option<Seq<char>>,
    reason: Seq<char>,
    rest: Seq<u8>,
)
    requires
        spec_write_entries(len, spec_authorization_entries(authorization_info)).error is None,
    ensures
        spec_parse_authorization(
            spec_write_entries(len, spec_authorization_entries(authorization_info)).bytes + rest,
            spec_authorization_entries(authorization_info).len(),
            None,
            reason,
        ) == Ok::<_, ErrorKind>(
            (
                authorization_info,
                spec_write_entries(len, spec_authorization_entries(authorization_info)).bytes.len(),
            ),
        ),
{
    let entries = spec_authorization_entries(authorization_info);
    reveal_with_fuel(spec_write_entries, 2);
    reveal_with_fuel(spec_parse_authorization, 2);
    match authorization_info {
        None => {},
        Some(text) => {
            let value = encode_utf8(text);
            let key = ParameterKey::AuthorizationInfo.spec_value();
            assert(entries.drop_last() =~= Seq::<(u64, Seq<u8>)>::empty());
            assert(entries.last() == (key, value));
            let p = spec_write_parameter(len, key, value);
            let out = spec_write_entries(len, entries);
            assert(out.bytes =~= p.bytes);
            lemma_parse_write_parameter(len, key, value, rest);
            encode_utf8_valid_utf8(text);
            encode_utf8_decode_utf8(text);
        },
    }
}

/// Reading the block that was written for an authorization gives the
/// authorization back and takes exactly the block, whatever follows it.
pub proof fn lemma_parse_write_authorization_block(
    len: nat,
    authorization_info: Option<Seq<char>>,
    reason: Seq<char>,
    rest: Seq<u8>,
)
    requires
        spec_write_authorization_block(len, authorization_info).error is None,
    ensures
        spec_parse_authorization_block(
            spec_write_authorization_block(len, authorization_info).bytes + rest,
            reason,
        ) == Ok::<_, ErrorKind>(
            (
                authorization_info,
                spec_write_authorization_block(len, authorization_info).bytes.len(),
            ),
        ),
{
    reveal(spec_write_authorization_block);
    reveal(spec_parse_authorization_block);
    let entries = spec_authorization_entries(authorization_info);
    let count = entries.len() as u64;
    let a = spec_write_u64(len, count);
    let b = spec_write_entries(len + a.bytes.len(), entries);
    lemma_followed_by(a, b);
    lemma_split_input(a.bytes, b.bytes, rest);
    lemma_parse_write_u64(len, count, b.bytes + rest);
    lemma_parse_write_authorization(len + a.bytes.len(), authorization_info, reason, rest);
}

/// Reading parameters looks at no byte beyond those it takes.
proof fn lemma_parse_authorization_prefix(
    s: Seq<u8>,
    count: nat,
    found: Option<Seq<char>>,
    reason: Seq<char>,
    k: int,
)
    requires
        0 <= k <= s.len(),
    ensures
        spec_reads_only_its_bytes(
            spec_parse_authorization(s, count, found, reason),
            spec_parse_authorization(s.take(k), count, found, reason),
            k,
        ),
    decreases count,
{
    if count > 0 {
        lemma_parse_parameter_prefix(s, k);
        if let Ok(((key, value), n)) = spec_parse_parameter(s) {
            if n <= k {
                assert(s.take(k).skip(n as int) =~= s.skip(n as int).take(k - n));
                let next = if key != ParameterKey::AuthorizationInfo.spec_value() {
                    found
                } else {
                    Some(decode_utf8(value))
                };
                lemma_parse_authorization_prefix(
                    s.skip(n as int),
                    (count - 1) as nat,
                    next,
                    reason,
                    k - n,
                );
            }
        }
    }
}

/// Reading a parameter block looks at no byte beyond those it takes.
pub proof fn lemma_parse_authorization_block_prefix(s: Seq<u8>, reason: Seq<char>, k: int)
    requires
        0 <= k <= s.len(),
    ensures
        spec_reads_only_its_bytes(
            spec_parse_authorization_block(s, reason),
            spec_parse_authorization_block(s.take(k), reason),
            k,
        ),
{
    reveal(spec_parse_authorization_block);
    lemma_decode_prefix(s, k);
    lemma_decode_bound(s);
    if let Ok((count, n)) = spec_parse_varint(s) {
        if n <= k {
            assert(s.take(k).skip(n as int) =~= s.skip(n as int).take(k - n));
            lemma_parse_authorization_prefix(s.skip(n as int), count as nat, None, reason, k - n);
        }
    }
}

} // verus!
