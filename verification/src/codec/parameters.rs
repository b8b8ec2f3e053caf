//! Parameter blocks: a count, then that many entries, each a key, a byte
//! length and that many bytes. A key occurs at most once in a block.

use crate::buf::{put_slice, remaining_mut};
use crate::codec::varint::{
    deserialize_u64, lemma_decode_bound, lemma_decode_encode, lemma_decode_prefix,
    lemma_tag_agrees_with_length, serialize_u64, serialize_usize, spec_parse_varint,
    spec_write_u64,
};
use crate::codec::{
    decoded, lemma_followed_by, lemma_split_input, spec_advance, spec_reads_only_its_bytes, Output,
    Parsed,
};
use crate::error::{Error, ErrorKind};
use vstd::prelude::*;
use vstd::slice::{slice_subrange, slice_to_vec};
use vstd::utf8::*;

verus! {

/// The keys of the parameters that messages carry.
#[derive(Debug, Copy, Clone, Eq, PartialEq, Structural)]
pub enum ParameterKey {
    Role,
    Path,
    AuthorizationInfo,
}

impl ParameterKey {
    /// The integer that stands for the key on the wire.
    pub open spec fn spec_value(self) -> u64 {
        match self {
            ParameterKey::Role => 0x0,
            ParameterKey::Path => 0x1,
            ParameterKey::AuthorizationInfo => 0x2,
        }
    }

    /// The integer that stands for the key on the wire.
    pub fn value(self) -> (r: u64)
        ensures
            r == self.spec_value(),
    {
        match self {
            ParameterKey::Role => 0x0,
            ParameterKey::Path => 0x1,
            ParameterKey::AuthorizationInfo => 0x2,
        }
    }
}

/// Encoding one entry into a vector that holds `len` bytes.
pub open spec fn spec_write_parameter(len: nat, key: u64, value: Seq<u8>) -> Output {
    let a = spec_write_u64(len, key);
    let b = a.followed_by(spec_write_u64(len + a.bytes.len(), value.len() as u64));
    b.followed_by(Output::put(len + b.bytes.len(), value))
}

/// What decoding one entry reads from the front of `s`: the key and the
/// value's bytes.
pub open spec fn spec_parse_parameter(s: Seq<u8>) -> Parsed<(u64, Seq<u8>)> {
    match spec_parse_varint(s) {
        Err(e) => Err(e),
        Ok((key, n)) => match spec_parse_varint(s.skip(n as int)) {
            Err(e) => Err(e),
            Ok((size, m)) => {
                if s.len() - n - m < size {
                    Err(ErrorKind::BufferTooShort)
                } else {
                    Ok(((key, s.subrange((n + m) as int, n + m + size)), n + m + size as nat))
                }
            },
        },
    }
}

/// Where one entry lies in a buffer: its key, the offset of its value and the
/// offset of the byte that follows the value.
pub struct ParameterSpan {
    pub key: u64,
    pub start: usize,
    pub end: usize,
}

/// Appends one entry to `w`.
pub fn serialize_parameter(key: u64, value: &[u8], w: &mut Vec<u8>) -> (r: Result<usize, Error>)
    ensures
        spec_write_parameter(old(w)@.len(), key, value@).describes(old(w)@, final(w)@, r),
{
    let mut l = serialize_u64(key, w)?;
    l += serialize_usize(value.len(), w)?;
    if remaining_mut(w) < value.len() {
        return Err(Error::ErrBufferTooShort);
    }
    put_slice(w, value);
    Ok(l + value.len())
}

/// Finds one entry at the front of `buf`.
pub fn deserialize_parameter(buf: &[u8]) -> (r: Result<ParameterSpan, Error>)
    ensures
        match r {
            Ok(span) => span.start <= span.end <= buf@.len() && 2 <= span.end
                && spec_parse_parameter(buf@) == Ok::<_, ErrorKind>(
                ((span.key, buf@.subrange(span.start as int, span.end as int)), span.end as nat),
            ),
            Err(e) => spec_parse_parameter(buf@) == Err::<((u64, Seq<u8>), nat), _>(e@),
        },
{
    let (key, n) = deserialize_u64(buf)?;
    let (size, m) = deserialize_u64(slice_subrange(buf, n, buf.len()))?;
    if ((buf.len() - n - m) as u64) < size {
        return Err(Error::ErrBufferTooShort);
    }
    Ok(ParameterSpan { key, start: n + m, end: n + m + size as usize })
}

/// Decoding an encoded entry gives it back and takes exactly the encoded
/// bytes, whatever follows them.
pub proof fn lemma_parse_write_parameter(len: nat, key: u64, value: Seq<u8>, rest: Seq<u8>)
    requires
        spec_write_parameter(len, key, value).error is None,
    ensures
        spec_parse_parameter(spec_write_parameter(len, key, value).bytes + rest) == Ok::<
            _,
            ErrorKind,
        >(((key, value), spec_write_parameter(len, key, value).bytes.len())),
{
    let a = spec_write_u64(len, key);
    let size = value.len() as u64;
    let b = spec_write_u64(len + a.bytes.len(), size);
    let s = spec_write_parameter(len, key, value).bytes + rest;
    lemma_tag_agrees_with_length(key);
    lemma_tag_agrees_with_length(size);
    assert(s =~= a.bytes + (b.bytes + (value + rest)));
    lemma_decode_encode(key, b.bytes + (value + rest));
    assert(s.skip(a.bytes.len() as int) =~= b.bytes + (value + rest));
    lemma_decode_encode(size, value + rest);
    let at = a.bytes.len() + b.bytes.len();
    assert(s.subrange(at as int, at + size) =~= value);
}

/// Decoding an entry looks at no byte beyond those it takes.
pub proof fn lemma_parse_parameter_prefix(s: Seq<u8>, k: int)
    requires
        0 <= k <= s.len(),
    ensures
        spec_reads_only_its_bytes(spec_parse_parameter(s), spec_parse_parameter(s.take(k)), k),
{
    lemma_decode_prefix(s, k);
    lemma_decode_bound(s);
    if let Ok((_, n)) = spec_parse_varint(s) {
        if n <= k {
            let t = s.skip(n as int);
            assert(s.take(k).skip(n as int) =~= t.take(k - n));
            lemma_decode_prefix(t, k - n);
            lemma_decode_bound(t);
            if let Ok((size, m)) = spec_parse_varint(t) {
                if n + m + size <= k {
                    assert(s.take(k).subrange((n + m) as int, n + m + size) =~= s.subrange(
                        (n + m) as int,
                        n + m + size,
                    ));
                }
            }
        }
    }
}

/// One entry of a parameter block.
#[derive(Debug, Clone, Eq, PartialEq)]
pub struct Parameter {
    pub key: u64,
    pub value: Vec<u8>,
}

impl View for Parameter {
    type V = (u64, Seq<u8>);

    open spec fn view(&self) -> (u64, Seq<u8>) {
        (self.key, self.value@)
    }
}

/// True where no key occurs twice among `entries`.
pub open spec fn spec_keys_distinct(entries: Seq<(u64, Seq<u8>)>) -> bool {
    forall|i: int, j: int|
        0 <= i < entries.len() && 0 <= j < entries.len() && i != j ==> entries[i].0 != entries[j].0
}

/// True where `key` occurs among `entries`.
pub open spec fn spec_has_key(entries: Seq<(u64, Seq<u8>)>, key: u64) -> bool {
    exists|i: int| 0 <= i < entries.len() && entries[i].0 == key
}

/// The value of the first of `entries` under `key`, if there is one.
pub open spec fn spec_value_of(entries: Seq<(u64, Seq<u8>)>, key: u64) -> Option<Seq<u8>>
    decreases entries.len(),
{
    if entries.len() == 0 {
        None
    } else if entries[0].0 == key {
        Some(entries[0].1)
    } else {
        spec_value_of(entries.skip(1), key)
    }
}

/// Encoding `entries` one after the other into a vector that holds `len`
/// bytes.
pub open spec fn spec_write_entries(len: nat, entries: Seq<(u64, Seq<u8>)>) -> Output
    decreases entries.len(),
{
    if entries.len() == 0 {
        Output { bytes: Seq::empty(), error: None }
    } else {
        let a = spec_write_entries(len, entries.drop_last());
        a.followed_by(
            spec_write_parameter(len + a.bytes.len(), entries.last().0, entries.last().1),
        )
    }
}

/// Encoding a block into a vector that holds `len` bytes: the number of
/// entries, then the entries.
pub open spec fn spec_write_parameters(len: nat, entries: Seq<(u64, Seq<u8>)>) -> Output {
    let a = spec_write_u64(len, entries.len() as u64);
    a.followed_by(spec_write_entries(len + a.bytes.len(), entries))
}

/// What decoding `count` entries in a row reads from the front of `s`. An
/// entry under a key that an earlier entry has is a `DuplicateParameter`.
pub open spec fn spec_parse_entries(s: Seq<u8>, count: nat) -> Parsed<Seq<(u64, Seq<u8>)>>
    decreases count,
{
    if count == 0 {
        Ok((Seq::empty(), 0))
    } else {
        match spec_parse_entries(s, (count - 1) as nat) {
            Err(e) => Err(e),
            Ok((entries, n)) => match spec_parse_parameter(s.skip(n as int)) {
                Err(e) => Err(e),
                Ok((entry, m)) => {
                    if spec_has_key(entries, entry.0) {
                        Err(ErrorKind::DuplicateParameter)
                    } else {
                        Ok((entries.push(entry), n + m))
                    }
                },
            },
        }
    }
}

/// What decoding a block reads from the front of `s`: the number of entries,
/// then the entries.
pub open spec fn spec_parse_parameters(s: Seq<u8>) -> Parsed<Seq<(u64, Seq<u8>)>> {
    match spec_parse_varint(s) {
        Err(e) => Err(e),
        Ok((count, n)) => spec_advance(spec_parse_entries(s.skip(n as int), count as nat), n),
    }
}

/// The parameters of a message, in the order in which they were added. No
/// key occurs twice.
#[derive(Debug, Clone, Eq, PartialEq)]
pub struct Parameters {
    entries: Vec<Parameter>,
}

impl View for Parameters {
    type V = Seq<(u64, Seq<u8>)>;

    closed spec fn view(&self) -> Seq<(u64, Seq<u8>)> {
        self.entries@.map_values(|e: Parameter| e@)
    }
}

impl Parameters {
    /// The invariant of a block: no key occurs twice.
    pub open spec fn wf(&self) -> bool {
        spec_keys_distinct(self@)
    }

    /// An empty block.
    pub fn new() -> (r: Self)
        ensures
            r@ == Seq::<(u64, Seq<u8>)>::empty(),
            r.wf(),
    {
        let r = Parameters { entries: Vec::new() };
        assert(r@ =~= Seq::<(u64, Seq<u8>)>::empty());
        r
    }

    /// The number of entries.
    pub fn len(&self) -> (r: usize)
        ensures
            r == self@.len(),
    {
        self.entries.len()
    }

    /// Tells whether the block holds an entry under `key`.
    pub fn contains(&self, key: u64) -> (r: bool)
        ensures
            r == spec_has_key(self@, key),
    {
        let mut i: usize = 0;
        while i < self.entries.len()
            invariant
                i <= self.entries@.len(),
                forall|j: int| 0 <= j < i ==> self@[j].0 != key,
            decreases self.entries@.len() - i,
        {
            if self.entries[i].key == key {
                assert(self@[i as int].0 == key);
                return true;
            }
            i = i + 1;
        }
        false
    }

    /// The value under `key`, if the block holds one.
    pub fn get(&self, key: u64) -> (r: Option<&Vec<u8>>)
        ensures
            match r {
                Some(value) => spec_value_of(self@, key) == Some(value@),
                None => spec_value_of(self@, key) is None,
            },
    {
        let mut i: usize = 0;
        assert(self@.skip(0) =~= self@);
        while i < self.entries.len()
            invariant
                i <= self.entries@.len(),
                spec_value_of(self@, key) == spec_value_of(self@.skip(i as int), key),
            decreases self.entries@.len() - i,
        {
            if self.entries[i].key == key {
                return Some(&self.entries[i].value);
            }
            assert(self@.skip(i as int).skip(1) =~= self@.skip(i + 1));
            i = i + 1;
        }
        None
    }

    /// Adds the bytes `value` under `key` at the end of the block. Where the
    /// block holds the key already, it is left as it is and the call fails
    /// with `ErrDuplicateParameter`.
    pub fn insert_bytes(&mut self, key: ParameterKey, value: Vec<u8>) -> (r: Result<(), Error>)
        requires
            old(self).wf(),
        ensures
            final(self).wf(),
            match r {
                Ok(()) => !spec_has_key(old(self)@, key.spec_value()) && final(self)@ == old(
                    self,
                )@.push((key.spec_value(), value@)),
                Err(e) => spec_has_key(old(self)@, key.spec_value()) && final(self)@ == old(self)@
                    && e@ == ErrorKind::DuplicateParameter,
            },
    {
        let k = key.value();
        if self.contains(k) {
            return Err(Error::ErrDuplicateParameter);
        }
        let ghost before = self@;
        self.entries.push(Parameter { key: k, value });
        assert(self@ =~= before.push((k, value@)));
        Ok(())
    }

    /// Adds the text `value` under `key` at the end of the block. Where the
    /// block holds the key already, it is left as it is and the call fails
    /// with `ErrDuplicateParameter`.
    pub fn insert(&mut self, key: ParameterKey, value: String) -> (r: Result<(), Error>)
        requires
            old(self).wf(),
        ensures
            final(self).wf(),
            match r {
                Ok(()) => !spec_has_key(old(self)@, key.spec_value()) && final(self)@ == old(
                    self,
                )@.push((key.spec_value(), encode_utf8(value@))),
                Err(e) => spec_has_key(old(self)@, key.spec_value()) && final(self)@ == old(self)@
                    && e@ == ErrorKind::DuplicateParameter,
            },
    {
        self.insert_bytes(key, slice_to_vec(value.as_str().as_bytes()))
    }

    /// Reads a block from the front of `buf`. A key that occurs twice is an
    /// `ErrDuplicateParameter`.
    pub fn deserialize(buf: &[u8]) -> (r: Result<(Self, usize), Error>)
        ensures
            decoded(r) == spec_parse_parameters(buf@),
            r matches Ok((block, n)) ==> block.wf() && 1 <= n <= buf@.len(),
    {
        let (count, start) = deserialize_u64(buf)?;
        let body = slice_subrange(buf, start, buf.len());
        assert(body@ =~= buf@.skip(start as int));
        let mut block = Parameters::new();
        let mut pos: usize = 0;
        let mut i: u64 = 0;
        while i < count
            invariant
                i <= count,
                pos <= body@.len(),
                block.wf(),
                body@ == buf@.skip(start as int),
                spec_parse_varint(buf@) == Ok::<_, ErrorKind>((count, start as nat)),
                start + body@.len() == buf@.len(),
                spec_parse_entries(body@, i as nat) == Ok::<_, ErrorKind>((block@, pos as nat)),
            decreases count - i,
        {
            let rest = slice_subrange(body, pos, body.len());
            assert(rest@ =~= body@.skip(pos as int));
            let span = match deserialize_parameter(rest) {
                Ok(span) => span,
                Err(e) => {
                    proof {
                        lemma_parse_entries_stops(body@, (i + 1) as nat, count as nat);
                    }
                    return Err(e);
                },
            };
            if block.contains(span.key) {
                proof {
                    lemma_parse_entries_stops(body@, (i + 1) as nat, count as nat);
                }
                return Err(Error::ErrDuplicateParameter);
            }
            let value = slice_to_vec(slice_subrange(rest, span.start, span.end));
            let ghost before = block@;
            let ghost entry = (span.key, value@);
            block.entries.push(Parameter { key: span.key, value });
            assert(block@ =~= before.push(entry));
            assert(spec_parse_parameter(rest@) == Ok::<_, ErrorKind>((entry, span.end as nat)));
            pos = pos + span.end;
            i = i + 1;
        }
        Ok((block, start + pos))
    }

    /// Appends the block to `w`.
    pub fn serialize(&self, w: &mut Vec<u8>) -> (r: Result<usize, Error>)
        ensures
            spec_write_parameters(old(w)@.len(), self@).describes(old(w)@, final(w)@, r),
    {
        let count = self.entries.len();
        let before = w.len();
        let l = serialize_usize(count, w)?;
        let ghost start = w@.len();
        let mut i: usize = 0;
        while i < count
            invariant
                i <= count,
                count == self.entries@.len(),
                start == old(w)@.len() + l,
                before == old(w)@.len(),
                spec_write_entries(start, self@.take(i as int)).error is None,
                w@ =~= old(w)@ + spec_write_u64(old(w)@.len(), count as u64).bytes
                    + spec_write_entries(start, self@.take(i as int)).bytes,
                l == spec_write_u64(old(w)@.len(), count as u64).bytes.len(),
                spec_write_u64(old(w)@.len(), count as u64).error is None,
                w@.len() <= isize::MAX,
            decreases count - i,
        {
            let ghost done = spec_write_entries(start, self@.take(i as int));
            proof {
                assert(self@.take(i + 1).drop_last() =~= self@.take(i as int));
                assert(self@.take(i + 1).last() == self@[i as int]);
                if i + 1 < count {
                    lemma_write_entries_stops(start, self@, (i + 1) as int);
                } else {
                    assert(self@.take(i + 1) =~= self@);
                }
            }
            match serialize_parameter(self.entries[i].key, self.entries[i].value.as_slice(), w) {
                Ok(_) => {},
                Err(e) => {
                    return Err(e);
                },
            }
            i = i + 1;
        }
        proof {
            assert(self@.take(count as int) =~= self@);
        }
        Ok(w.len() - before)
    }
}

/// Once the encoding of the first `i` entries has failed, the encoding of all
/// of them fails in the same way.
pub proof fn lemma_write_entries_stops(len: nat, entries: Seq<(u64, Seq<u8>)>, i: int)
    requires
        0 <= i <= entries.len(),
    ensures
        spec_write_entries(len, entries.take(i)).error is Some ==> spec_write_entries(len, entries)
            == spec_write_entries(len, entries.take(i)),
    decreases entries.len() - i,
{
    if i < entries.len() {
        assert(entries.take(i + 1).drop_last() =~= entries.take(i));
        lemma_write_entries_stops(len, entries, i + 1);
    } else {
        assert(entries.take(i) =~= entries);
    }
}

/// Once a run of entries has failed, a longer run fails in the same way.
pub proof fn lemma_parse_entries_stops(s: Seq<u8>, i: nat, count: nat)
    requires
        i <= count,
        spec_parse_entries(s, i) is Err,
    ensures
        spec_parse_entries(s, count) == spec_parse_entries(s, i),
    decreases count,
{
    if i < count {
        lemma_parse_entries_stops(s, i, (count - 1) as nat);
    }
}

/// Entries that were read are as many as were asked for, no two of them
/// under one key.
pub proof fn lemma_parse_entries_distinct(s: Seq<u8>, count: nat)
    ensures
        spec_parse_entries(s, count) matches Ok((entries, n)) ==> entries.len() == count
            && spec_keys_distinct(entries),
    decreases count,
{
    if count > 0 {
        lemma_parse_entries_distinct(s, (count - 1) as nat);
    }
}

/// Decoding encoded entries, no two of them under one key, gives them back
/// and takes exactly the encoded bytes, whatever follows them.
pub proof fn lemma_parse_write_entries(len: nat, entries: Seq<(u64, Seq<u8>)>, rest: Seq<u8>)
    requires
        spec_keys_distinct(entries),
        spec_write_entries(len, entries).error is None,
    ensures
        spec_parse_entries(spec_write_entries(len, entries).bytes + rest, entries.len()) == Ok::<
            _,
            ErrorKind,
        >((entries, spec_write_entries(len, entries).bytes.len())),
    decreases entries.len(),
{
    if entries.len() > 0 {
        let front = entries.drop_last();
        let last = entries.last();
        let a = spec_write_entries(len, front);
        let b = spec_write_parameter(len + a.bytes.len(), last.0, last.1);
        assert(spec_write_entries(len, entries) == a.followed_by(b));
        lemma_followed_by(a, b);
        lemma_split_input(a.bytes, b.bytes, rest);
        let s = spec_write_entries(len, entries).bytes + rest;
        assert(s == a.bytes + (b.bytes + rest));
        assert(spec_keys_distinct(front));
        lemma_parse_write_entries(len, front, b.bytes + rest);
        assert(spec_parse_entries(s, front.len()) == Ok::<_, ErrorKind>((front, a.bytes.len())));
        lemma_parse_write_parameter(len + a.bytes.len(), last.0, last.1, rest);
        assert(spec_parse_parameter(s.skip(a.bytes.len() as int)) == Ok::<_, ErrorKind>(
            (last, b.bytes.len()),
        ));
        assert(!spec_has_key(front, last.0)) by {
            if spec_has_key(front, last.0) {
                let i = choose|i: int| 0 <= i < front.len() && front[i].0 == last.0;
                assert(entries[i].0 == entries[entries.len() - 1].0);
            }
        }
        assert(front.push(last) =~= entries);
        assert(spec_parse_entries(s, (front.len() + 1) as nat) == Ok::<_, ErrorKind>(
            (entries, a.bytes.len() + b.bytes.len()),
        ));
    } else {
        assert(entries =~= Seq::empty());
    }
}

/// Decoding an encoded block, no two of its entries under one key, gives the
/// block back and takes exactly the encoded bytes, whatever follows them.
pub proof fn lemma_parse_write_parameters(len: nat, entries: Seq<(u64, Seq<u8>)>, rest: Seq<u8>)
    requires
        spec_keys_distinct(entries),
        entries.len() <= usize::MAX,
        spec_write_parameters(len, entries).error is None,
    ensures
        spec_parse_parameters(spec_write_parameters(len, entries).bytes + rest) == Ok::<
            _,
            ErrorKind,
        >((entries, spec_write_parameters(len, entries).bytes.len())),
{
    let count = entries.len() as u64;
    let a = spec_write_u64(len, count);
    let b = spec_write_entries(len + a.bytes.len(), entries);
    lemma_followed_by(a, b);
    lemma_split_input(a.bytes, b.bytes, rest);
    lemma_tag_agrees_with_length(count);
    lemma_decode_encode(count, b.bytes + rest);
    lemma_parse_write_entries(len + a.bytes.len(), entries, rest);
}

/// Decoding a run of entries looks at no byte beyond those it takes.
pub proof fn lemma_parse_entries_prefix(s: Seq<u8>, count: nat, k: int)
    requires
        0 <= k <= s.len(),
    ensures
        spec_reads_only_its_bytes(
            spec_parse_entries(s, count),
            spec_parse_entries(s.take(k), count),
            k,
        ),
    decreases count,
{
    if count > 0 {
        lemma_parse_entries_prefix(s, (count - 1) as nat, k);
        if let Ok((entries, n)) = spec_parse_entries(s, (count - 1) as nat) {
            if n <= k {
                assert(s.take(k).skip(n as int) =~= s.skip(n as int).take(k - n));
                lemma_parse_parameter_prefix(s.skip(n as int), k - n);
            }
        }
    }
}

/// Decoding a block looks at no byte beyond those it takes.
pub proof fn lemma_parse_parameters_prefix(s: Seq<u8>, k: int)
    requires
        0 <= k <= s.len(),
    ensures
        spec_reads_only_its_bytes(spec_parse_parameters(s), spec_parse_parameters(s.take(k)), k),
{
    lemma_decode_prefix(s, k);
    lemma_decode_bound(s);
    if let Ok((count, n)) = spec_parse_varint(s) {
        if n <= k {
            assert(s.take(k).skip(n as int) =~= s.skip(n as int).take(k - n));
            lemma_parse_entries_prefix(s.skip(n as int), count as nat, k - n);
        }
    }
}

} // verus!
