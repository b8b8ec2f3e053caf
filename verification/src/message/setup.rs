//! What the two setup messages are made of: the list of versions that a
//! client offers, and the parameter blocks that carry the role of an endpoint
//! and the path that a client asks for.

use crate::codec::parameters::{
    lemma_parse_parameters_prefix, lemma_parse_write_parameters, spec_parse_parameters,
    spec_value_of, spec_write_parameters, ParameterKey, Parameters,
};
use crate::codec::string::string_from_utf8;
use crate::codec::varint::{
    deserialize_u64, lemma_decode_bound, lemma_decode_prefix, lemma_parse_write_u64,
    serialize_usize, spec_parse_varint, spec_write_u64,
};
use crate::codec::{
    decoded, lemma_followed_by, lemma_split_input, spec_advance, spec_reads_only_its_bytes,
    spec_text, Output, Parsed,
};
use crate::error::{Error, ErrorKind};
use crate::message::message_parser::ParserErrorCode;
use crate::message::{Role, Version};
use vstd::prelude::*;
use vstd::slice::{slice_subrange, slice_to_vec};
use vstd::utf8::*;

verus! {

/// Encoding `versions` one after the other into a vector that holds `len`
/// bytes.
pub open spec fn spec_write_version_list(len: nat, versions: Seq<Version>) -> Output
    decreases versions.len(),
{
    if versions.len() == 0 {
        Output { bytes: Seq::empty(), error: None }
    } else {
        let a = spec_write_version_list(len, versions.drop_last());
        a.followed_by(Version::spec_write(len + a.bytes.len(), versions.last()))
    }
}

/// Encoding the versions that a client offers into a vector that holds `len`
/// bytes: their number, then the versions.
#[verifier::opaque]
pub open spec fn spec_write_versions(len: nat, versions: Seq<Version>) -> Output {
    let a = spec_write_u64(len, versions.len() as u64);
    a.followed_by(spec_write_version_list(len + a.bytes.len(), versions))
}

/// What decoding `count` versions in a row reads from the front of `s`.
pub open spec fn spec_parse_version_list(s: Seq<u8>, count: nat) -> Parsed<Seq<Version>>
    decreases count,
{
    if count == 0 {
        Ok((Seq::empty(), 0))
    } else {
        match spec_parse_version_list(s, (count - 1) as nat) {
            Err(e) => Err(e),
            Ok((versions, n)) => match Version::spec_parse(s.skip(n as int)) {
                Err(e) => Err(e),
                Ok((version, m)) => Ok((versions.push(version), n + m)),
            },
        }
    }
}

/// What decoding the versions that a client offers reads from the front of
/// `s`.
#[verifier::opaque]
pub open spec fn spec_parse_versions(s: Seq<u8>) -> Parsed<Seq<Version>> {
    match spec_parse_varint(s) {
        Err(e) => Err(e),
        Ok((count, n)) => spec_advance(spec_parse_version_list(s.skip(n as int), count as nat), n),
    }
}

/// Appends the number of `versions` and the versions to `w`.
pub fn serialize_versions(versions: &Vec<Version>, w: &mut Vec<u8>) -> (r: Result<usize, Error>)
    ensures
        spec_write_versions(old(w)@.len(), versions@).describes(old(w)@, final(w)@, r),
{
    proof {
        reveal(spec_write_versions);
    }
    let count = versions.len();
    let before = w.len();
    let l = serialize_usize(count, w)?;
    let ghost start = w@.len();
    let mut i: usize = 0;
    while i < count
        invariant
            i <= count,
            count == versions@.len(),
            start == old(w)@.len() + l,
            before == old(w)@.len(),
            spec_write_version_list(start, versions@.take(i as int)).error is None,
            w@ =~= old(w)@ + spec_write_u64(old(w)@.len(), count as u64).bytes
                + spec_write_version_list(start, versions@.take(i as int)).bytes,
            l == spec_write_u64(old(w)@.len(), count as u64).bytes.len(),
            spec_write_u64(old(w)@.len(), count as u64).error is None,
            w@.len() <= isize::MAX,
        decreases count - i,
    {
        proof {
            reveal(spec_write_versions);
            assert(versions@.take(i + 1).drop_last() =~= versions@.take(i as int));
            assert(versions@.take(i + 1).last() == versions@[i as int]);
            if i + 1 < count {
                lemma_write_version_list_stops(start, versions@, (i + 1) as int);
            } else {
                assert(versions@.take(i + 1) =~= versions@);
            }
        }
        match versions[i].encode(w) {
            Ok(_) => {},
            Err(e) => {
                return Err(e);
            },
        }
        i = i + 1;
    }
    proof {
        assert(versions@.take(count as int) =~= versions@);
    }
    Ok(w.len() - before)
}

/// Reads the number of versions and the versions from the front of `buf`.
pub fn deserialize_versions(buf: &[u8]) -> (r: Result<(Vec<Version>, usize), Error>)
    ensures
        decoded(r) == spec_parse_versions(buf@),
        r matches Ok((_, n)) ==> 1 <= n <= buf@.len(),
{
    proof {
        reveal(spec_parse_versions);
    }
    let (count, start) = deserialize_u64(buf)?;
    let body = slice_subrange(buf, start, buf.len());
    assert(body@ =~= buf@.skip(start as int));
    let mut versions: Vec<Version> = Vec::new();
    let mut pos: usize = 0;
    let mut i: u64 = 0;
    while i < count
        invariant
            i <= count,
            pos <= body@.len(),
            body@ == buf@.skip(start as int),
            spec_parse_varint(buf@) == Ok::<_, ErrorKind>((count, start as nat)),
            start + body@.len() == buf@.len(),
            spec_parse_version_list(body@, i as nat) == Ok::<_, ErrorKind>(
                (versions@, pos as nat),
            ),
        decreases count - i,
    {
        let rest = slice_subrange(body, pos, body.len());
        assert(rest@ =~= body@.skip(pos as int));
        match Version::decode(rest) {
            Ok((version, n)) => {
                versions.push(version);
                pos = pos + n;
            },
            Err(e) => {
                proof {
                    reveal(spec_parse_versions);
                    lemma_parse_version_list_stops(body@, (i + 1) as nat, count as nat);
                }
                return Err(e);
            },
        }
        i = i + 1;
    }
    Ok((versions, start + pos))
}

/// Once the encoding of the first `i` versions has failed, the encoding of
/// all of them fails in the same way.
pub proof fn lemma_write_version_list_stops(len: nat, versions: Seq<Version>, i: int)
    requires
        0 <= i <= versions.len(),
    ensures
        spec_write_version_list(len, versions.take(i)).error is Some ==> spec_write_version_list(
            len,
            versions,
        ) == spec_write_version_list(len, versions.take(i)),
    decreases versions.len() - i,
{
    if i < versions.len() {
        assert(versions.take(i + 1).drop_last() =~= versions.take(i));
        lemma_write_version_list_stops(len, versions, i + 1);
    } else {
        assert(versions.take(i) =~= versions);
    }
}

/// Once a run of versions has failed, a longer run fails in the same way.
pub proof fn lemma_parse_version_list_stops(s: Seq<u8>, i: nat, count: nat)
    requires
        i <= count,
        spec_parse_version_list(s, i) is Err,
    ensures
        spec_parse_version_list(s, count) == spec_parse_version_list(s, i),
    decreases count,
{
    if i < count {
        lemma_parse_version_list_stops(s, i, (count - 1) as nat);
    }
}

/// Decoding encoded versions gives them back and takes exactly the encoded
/// bytes, whatever follows them.
proof fn lemma_parse_write_version_list(len: nat, versions: Seq<Version>, rest: Seq<u8>)
    requires
        spec_write_version_list(len, versions).error is None,
    ensures
        spec_parse_version_list(
            spec_write_version_list(len, versions).bytes + rest,
            versions.len(),
        ) == Ok::<_, ErrorKind>((versions, spec_write_version_list(len, versions).bytes.len())),
    decreases versions.len(),
{
    if versions.len() > 0 {
        let front = versions.drop_last();
        let last = versions.last();
        let a = spec_write_version_list(len, front);
        let b = Version::spec_write(len + a.bytes.len(), last);
        assert(spec_write_version_list(len, versions) == a.followed_by(b));
        lemma_followed_by(a, b);
        lemma_split_input(a.bytes, b.bytes, rest);
        let s = spec_write_version_list(len, versions).bytes + rest;
        assert(s == a.bytes + (b.bytes + rest));
        lemma_parse_write_version_list(len, front, b.bytes + rest);
        Version::lemma_parse_write(len + a.bytes.len(), last, rest);
        assert(front.push(last) =~= versions);
        assert(spec_parse_version_list(s, (front.len() + 1) as nat) == Ok::<_, ErrorKind>(
            (versions, a.bytes.len() + b.bytes.len()),
        ));
    } else {
        assert(versions =~= Seq::empty());
    }
}

/// Versions that were encoded took at least one byte each, and the vector
/// could take them.
proof fn lemma_write_version_list_size(len: nat, versions: Seq<Version>)
    requires
        spec_write_version_list(len, versions).error is None,
    ensures
        versions.len() <= spec_write_version_list(len, versions).bytes.len(),
        versions.len() > 0 ==> len + spec_write_version_list(len, versions).bytes.len()
            <= isize::MAX,
    decreases versions.len(),
{
    if versions.len() > 0 {
        let a = spec_write_version_list(len, versions.drop_last());
        let b = Version::spec_write(len + a.bytes.len(), versions.last());
        lemma_followed_by(a, b);
        lemma_write_version_list_size(len, versions.drop_last());
        crate::codec::varint::lemma_tag_agrees_with_length(versions.last().spec_value());
    }
}

/// Decoding the encoded versions of a client gives them back and takes
/// exactly the encoded bytes, whatever follows them.
pub proof fn lemma_parse_write_versions(len: nat, versions: Seq<Version>, rest: Seq<u8>)
    requires
        spec_write_versions(len, versions).error is None,
    ensures
        spec_parse_versions(spec_write_versions(len, versions).bytes + rest) == Ok::<_, ErrorKind>(
            (versions, spec_write_versions(len, versions).bytes.len()),
        ),
{
    reveal(spec_write_versions);
    reveal(spec_parse_versions);
    let count = versions.len() as u64;
    let a = spec_write_u64(len, count);
    let b = spec_write_version_list(len + a.bytes.len(), versions);
    lemma_followed_by(a, b);
    lemma_write_version_list_size(len + a.bytes.len(), versions);
    lemma_split_input(a.bytes, b.bytes, rest);
    lemma_parse_write_u64(len, count, b.bytes + rest);
    lemma_parse_write_version_list(len + a.bytes.len(), versions, rest);
}

/// Decoding a run of versions looks at no byte beyond those it takes.
proof fn lemma_parse_version_list_prefix(s: Seq<u8>, count: nat, k: int)
    requires
        0 <= k <= s.len(),
    ensures
        spec_reads_only_its_bytes(
            spec_parse_version_list(s, count),
            spec_parse_version_list(s.take(k), count),
            k,
        ),
    decreases count,
{
    if count > 0 {
        lemma_parse_version_list_prefix(s, (count - 1) as nat, k);
        if let Ok((versions, n)) = spec_parse_version_list(s, (count - 1) as nat) {
            if n <= k {
                assert(s.take(k).skip(n as int) =~= s.skip(n as int).take(k - n));
                Version::lemma_parse_prefix(s.skip(n as int), k - n);
            }
        }
    }
}

/// Decoding the versions of a client looks at no byte beyond those it takes.
pub proof fn lemma_parse_versions_prefix(s: Seq<u8>, k: int)
    requires
        0 <= k <= s.len(),
    ensures
        spec_reads_only_its_bytes(spec_parse_versions(s), spec_parse_versions(s.take(k)), k),
{
    reveal(spec_parse_versions);
    lemma_decode_prefix(s, k);
    lemma_decode_bound(s);
    if let Ok((count, n)) = spec_parse_varint(s) {
        if n <= k {
            assert(s.take(k).skip(n as int) =~= s.skip(n as int).take(k - n));
            lemma_parse_version_list_prefix(s.skip(n as int), count as nat, k - n);
        }
    }
}

/// The text that reports a role whose length is not that of its encoding.
pub open spec fn spec_reason_role_length() -> Seq<char> {
    "Parameter length does not match varint encoding"@
}

/// The role that a parameter block names. A block without a role is a
/// `MissingParameter`, and a role that does not fill its entry exactly is a
/// `ParameterLengthMismatch`.
pub open spec fn spec_role_in(entries: Seq<(u64, Seq<u8>)>) -> Result<Role, ErrorKind> {
    match spec_value_of(entries, ParameterKey::Role.spec_value()) {
        None => Err(ErrorKind::MissingParameter),
        Some(value) => match Role::spec_parse(value) {
            Err(e) => Err(e),
            Ok((role, n)) => {
                if n == value.len() {
                    Ok(role)
                } else {
                    Err(
                        ErrorKind::ParseError(
                            ParserErrorCode::ParameterLengthMismatch,
                            spec_reason_role_length(),
                        ),
                    )
                }
            },
        },
    }
}

/// The path that a parameter block names, if it names one.
pub open spec fn spec_path_in(entries: Seq<(u64, Seq<u8>)>) -> Result<
    Option<Seq<char>>,
    ErrorKind,
> {
    match spec_value_of(entries, ParameterKey::Path.spec_value()) {
        None => Ok(None),
        Some(value) => {
            if valid_utf8(value) {
                Ok(Some(decode_utf8(value)))
            } else {
                Err(ErrorKind::InvalidString)
            }
        },
    }
}

/// The entries of the block that carries `role` and `path`.
pub open spec fn spec_setup_entries(role: Role, path: Option<Seq<char>>) -> Seq<(u64, Seq<u8>)> {
    let first = (ParameterKey::Role.spec_value(), Role::spec_write(0, role).bytes);
    match path {
        Some(text) => seq![first, (ParameterKey::Path.spec_value(), encode_utf8(text))],
        None => seq![first],
    }
}

/// Encoding the parameter block of a setup message into a vector that holds
/// `len` bytes.
#[verifier::opaque]
pub open spec fn spec_write_setup_parameters(len: nat, v: (Role, Option<Seq<char>>)) -> Output {
    spec_write_parameters(len, spec_setup_entries(v.0, v.1))
}

/// What decoding the parameter block of a client's setup message reads from
/// the front of `s`: the role and the path. Entries under other keys are
/// passed over.
#[verifier::opaque]
pub open spec fn spec_parse_setup_parameters(s: Seq<u8>) -> Parsed<(Role, Option<Seq<char>>)> {
    match spec_parse_parameters(s) {
        Err(e) => Err(e),
        Ok((entries, n)) => match spec_role_in(entries) {
            Err(e) => Err(e),
            Ok(role) => match spec_path_in(entries) {
                Err(e) => Err(e),
                Ok(path) => Ok(((role, path), n)),
            },
        },
    }
}

/// The role that `block` names.
fn role_in(block: &Parameters) -> (r: Result<Role, Error>)
    ensures
        match r {
            Ok(role) => spec_role_in(block@) == Ok::<_, ErrorKind>(role),
            Err(e) => spec_role_in(block@) == Err::<Role, _>(e@),
        },
{
    match block.get(ParameterKey::Role.value()) {
        None => Err(Error::ErrMissingParameter),
        Some(value) => {
            let (role, n) = Role::decode(value.as_slice())?;
            if n == value.len() {
                Ok(role)
            } else {
                Err(
                    Error::ErrParseError(
                        ParserErrorCode::ParameterLengthMismatch,
                        "Parameter length does not match varint encoding".to_owned(),
                    ),
                )
            }
        },
    }
}

/// The path that `block` names, if it names one.
fn path_in(block: &Parameters) -> (r: Result<Option<String>, Error>)
    ensures
        match r {
            Ok(path) => spec_path_in(block@) == Ok::<_, ErrorKind>(spec_text(path)),
            Err(e) => spec_path_in(block@) == Err::<Option<Seq<char>>, _>(e@),
        },
{
    match block.get(ParameterKey::Path.value()) {
        None => Ok(None),
        Some(value) => match string_from_utf8(slice_to_vec(value.as_slice())) {
            Ok(text) => {
                proof {
                    encode_utf8_decode_utf8(text@);
                }
                Ok(Some(text))
            },
            Err(e) => Err(Error::ErrInvalidString(e)),
        },
    }
}

/// The mathematical content of the result of reading a setup block.
pub open spec fn setup(r: Result<((Role, Option<String>), usize), Error>) -> Parsed<
    (Role, Option<Seq<char>>),
> {
    match r {
        Ok(((role, path), n)) => Ok(((role, spec_text(path)), n as nat)),
        Err(e) => Err(e@),
    }
}

/// Reads the parameter block of a setup message from the front of `buf`.
pub fn deserialize_setup_parameters(buf: &[u8]) -> (r: Result<
    ((Role, Option<String>), usize),
    Error,
>)
    ensures
        setup(r) == spec_parse_setup_parameters(buf@),
        r matches Ok((_, n)) ==> 1 <= n <= buf@.len(),
{
    proof {
        reveal(spec_parse_setup_parameters);
    }
    let (block, n) = Parameters::deserialize(buf)?;
    let role = role_in(&block)?;
    let path = path_in(&block)?;
    Ok(((role, path), n))
}

/// Appends the parameter block that carries `role` and `path` to `w`.
pub fn serialize_setup_parameters(role: Role, path: &Option<String>, w: &mut Vec<u8>) -> (r:
    Result<usize, Error>)
    ensures
        spec_write_setup_parameters(old(w)@.len(), (role, spec_text(*path))).describes(
            old(w)@,
            final(w)@,
            r,
        ),
{
    proof {
        reveal(spec_write_setup_parameters);
    }
    let mut value: Vec<u8> = Vec::new();
    proof {
        crate::codec::varint::lemma_tag_agrees_with_length(role.spec_value());
    }
    role.encode(&mut value)?;
    let mut block = Parameters::new();
    block.insert_bytes(ParameterKey::Role, value)?;
    if let Some(text) = path.as_ref() {
        block.insert(ParameterKey::Path, text.clone())?;
    }
    assert(block@ =~= spec_setup_entries(role, spec_text(*path)));
    block.serialize(w)
}

/// Decoding the encoded parameter block of a setup message gives the role
/// and the path back and takes exactly the encoded bytes, whatever follows
/// them.
pub proof fn lemma_parse_write_setup_parameters(
    len: nat,
    v: (Role, Option<Seq<char>>),
    rest: Seq<u8>,
)
    requires
        spec_write_setup_parameters(len, v).error is None,
    ensures
        spec_parse_setup_parameters(spec_write_setup_parameters(len, v).bytes + rest) == Ok::<
            _,
            ErrorKind,
        >((v, spec_write_setup_parameters(len, v).bytes.len())),
{
    reveal(spec_write_setup_parameters);
    reveal(spec_parse_setup_parameters);
    reveal_with_fuel(spec_value_of, 3);
    let entries = spec_setup_entries(v.0, v.1);
    lemma_parse_write_parameters(len, entries, rest);
    let value = Role::spec_write(0, v.0).bytes;
    crate::codec::varint::lemma_tag_agrees_with_length(v.0.spec_value());
    Role::lemma_parse_write(0, v.0, Seq::empty());
    assert(value + Seq::<u8>::empty() =~= value);
    match v.1 {
        Some(text) => {
            assert(entries.skip(1)[0] == entries[1]);
            encode_utf8_valid_utf8(text);
            encode_utf8_decode_utf8(text);
        },
        None => {
            assert(entries.skip(1) =~= Seq::<(u64, Seq<u8>)>::empty());
        },
    }
}

/// Decoding the parameter block of a setup message looks at no byte beyond
/// those it takes.
pub proof fn lemma_parse_setup_parameters_prefix(s: Seq<u8>, k: int)
    requires
        0 <= k <= s.len(),
    ensures
        spec_reads_only_its_bytes(
            spec_parse_setup_parameters(s),
            spec_parse_setup_parameters(s.take(k)),
            k,
        ),
{
    reveal(spec_parse_setup_parameters);
    lemma_parse_parameters_prefix(s, k);
}

/// What decoding the parameter block of a server's setup message reads from
/// the front of `s`: the role. Entries under other keys are passed over.
#[verifier::opaque]
pub open spec fn spec_parse_role_parameters(s: Seq<u8>) -> Parsed<Role> {
    match spec_parse_parameters(s) {
        Err(e) => Err(e),
        Ok((entries, n)) => match spec_role_in(entries) {
            Err(e) => Err(e),
            Ok(role) => Ok((role, n)),
        },
    }
}

/// Encoding the parameter block that carries `role` alone into a vector that
/// holds `len` bytes.
pub open spec fn spec_write_role_parameters(len: nat, role: Role) -> Output {
    spec_write_setup_parameters(len, (role, None))
}

/// Reads the parameter block of a server's setup message from the front of
/// `buf`.
pub fn deserialize_role_parameters(buf: &[u8]) -> (r: Result<(Role, usize), Error>)
    ensures
        decoded(r) == spec_parse_role_parameters(buf@),
        r matches Ok((_, n)) ==> 1 <= n <= buf@.len(),
{
    proof {
        reveal(spec_parse_role_parameters);
    }
    let (block, n) = Parameters::deserialize(buf)?;
    let role = role_in(&block)?;
    Ok((role, n))
}

/// Appends the parameter block that carries `role` alone to `w`.
pub fn serialize_role_parameters(role: Role, w: &mut Vec<u8>) -> (r: Result<usize, Error>)
    ensures
        spec_write_role_parameters(old(w)@.len(), role).describes(old(w)@, final(w)@, r),
{
    serialize_setup_parameters(role, &None, w)
}

/// Decoding the encoded parameter block of a server's setup message gives
/// the role back and takes exactly the encoded bytes, whatever follows them.
pub proof fn lemma_parse_write_role_parameters(len: nat, role: Role, rest: Seq<u8>)
    requires
        spec_write_role_parameters(len, role).error is None,
    ensures
        spec_parse_role_parameters(spec_write_role_parameters(len, role).bytes + rest) == Ok::<
            _,
            ErrorKind,
        >((role, spec_write_role_parameters(len, role).bytes.len())),
{
    reveal(spec_parse_role_parameters);
    reveal(spec_parse_setup_parameters);
    lemma_parse_write_setup_parameters(len, (role, None), rest);
}

/// Decoding the parameter block of a server's setup message looks at no byte
/// beyond those it takes.
pub proof fn lemma_parse_role_parameters_prefix(s: Seq<u8>, k: int)
    requires
        0 <= k <= s.len(),
    ensures
        spec_reads_only_its_bytes(
            spec_parse_role_parameters(s),
            spec_parse_role_parameters(s.take(k)),
            k,
        ),
{
    reveal(spec_parse_role_parameters);
    lemma_parse_parameters_prefix(s, k);
}

} // verus!
