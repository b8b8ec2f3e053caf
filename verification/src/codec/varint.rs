//! The self-describing variable-length integer that every field is built on.

use crate::buf::{put_u16, put_u32, put_u64, put_u8, remaining_mut, u16_be, u32_be, u64_be};
use crate::codec::{decoded, spec_reads_only_its_bytes, Output, Parsed};
use crate::error::{Error, ErrorKind};
use vstd::prelude::*;
use vstd::slice::slice_subrange;

verus! {

/// The first value that no variable-length integer can hold: 2^62.
pub const VARINT_LIMIT: u64 = 0x4000_0000_0000_0000;

/// The number of bytes that encode `v`: 1, 2, 4 or 8, by magnitude.
pub open spec fn spec_size(v: u64) -> nat {
    if v < 0x40 {
        1
    } else if v < 0x4000 {
        2
    } else if v < 0x4000_0000 {
        4
    } else {
        8
    }
}

/// The canonical encoding of `v`: its value in the shortest of the four
/// lengths, big-endian, with the length tag in the two highest bits.
#[verifier::opaque]
pub open spec fn spec_encode(v: u64) -> Seq<u8>
    recommends
        v < VARINT_LIMIT,
{
    if v < 0x40 {
        seq![v as u8]
    } else if v < 0x4000 {
        u16_be((0x4000 + v) as u16)
    } else if v < 0x4000_0000 {
        u32_be((0x8000_0000 + v) as u32)
    } else {
        u64_be((0xc000_0000_0000_0000 + v) as u64)
    }
}

/// The length that the two highest bits of a first byte announce.
pub open spec fn spec_tagged_len(first: u8) -> nat {
    if first < 0x40 {
        1
    } else if first < 0x80 {
        2
    } else if first < 0xc0 {
        4
    } else {
        8
    }
}

/// The number that `n` leading bytes of `s` spell, most significant first.
pub open spec fn spec_be_value(s: Seq<u8>, n: nat) -> nat
    decreases n,
{
    if n == 0 {
        0
    } else {
        spec_be_value(s, (n - 1) as nat) * 0x100 + s[n - 1] as nat
    }
}

/// What decoding reads from the front of `s`: the value and the number of
/// bytes it took, or nothing where `s` ends before the announced length.
#[verifier::opaque]
pub open spec fn spec_decode(s: Seq<u8>) -> Option<(u64, nat)> {
    if s.len() == 0 {
        None
    } else {
        let n = spec_tagged_len(s[0]);
        if s.len() < n {
            None
        } else {
            Some(((spec_be_value(s.update(0, s[0] % 0x40), n)) as u64, n))
        }
    }
}

/// Decoding as codecs compose it: the input that ends too early is an
/// `UnexpectedEnd`.
pub open spec fn spec_parse_varint(s: Seq<u8>) -> Parsed<u64> {
    match spec_decode(s) {
        Some(read) => Ok(read),
        None => Err(ErrorKind::UnexpectedEnd),
    }
}

/// Encoding a value below 2^62 into a vector that holds `len` bytes.
pub open spec fn spec_write_varint(len: nat, v: u64) -> Output {
    Output::put(len, spec_encode(v))
}

/// Encoding any `u64`: one of 2^62 or more is refused.
pub open spec fn spec_write_u64(len: nat, v: u64) -> Output {
    if v < VARINT_LIMIT {
        spec_write_varint(len, v)
    } else {
        Output::fail(ErrorKind::VarIntBoundsExceeded)
    }
}

/// An integer less than 2^62.
#[derive(Debug, Copy, Clone, Eq, PartialEq, Ord, PartialOrd, Hash)]
pub struct VarInt(pub(crate) u64);

impl View for VarInt {
    type V = u64;

    closed spec fn view(&self) -> u64 {
        self.0
    }
}

impl VarInt {
    /// The largest encoded value length.
    pub const MAX_SIZE: usize = 8;

    /// Every value keeps below 2^62.
    #[verifier::type_invariant]
    pub closed spec fn inv(self) -> bool {
        self.0 < VARINT_LIMIT
    }

    /// Construct a `VarInt` infallibly.
    pub fn from_u32(x: u32) -> (r: Self)
        ensures
            r@ == x,
    {
        VarInt(x as u64)
    }

    /// Succeeds iff `x` < 2^62.
    pub fn from_u64(x: u64) -> (r: Result<Self, Error>)
        ensures
            match r {
                Ok(v) => x < VARINT_LIMIT && v@ == x,
                Err(e) => x >= VARINT_LIMIT && e@ == ErrorKind::VarIntBoundsExceeded,
            },
    {
        if x < VARINT_LIMIT {
            Ok(VarInt(x))
        } else {
            Err(Error::ErrVarIntBoundsExceeded)
        }
    }

    /// The largest representable value, 2^62 - 1.
    pub fn max() -> (r: Self)
        ensures
            r@ == VARINT_LIMIT - 1,
    {
        VarInt(0x3fff_ffff_ffff_ffff)
    }

    /// Create a `VarInt` from a value that is known to be in range: `x` must
    /// be less than 2^62.
    pub fn from_u64_unchecked(x: u64) -> (r: Self)
        requires
            x < VARINT_LIMIT,
        ensures
            r@ == x,
    {
        VarInt(x)
    }

    /// Extract the integer value.
    pub fn into_inner(self) -> (r: u64)
        ensures
            r == self@,
            r < VARINT_LIMIT,
    {
        proof {
            use_type_invariant(&self);
        }
        self.0
    }

    /// Compute the number of bytes needed to encode this value.
    pub fn size(self) -> (r: usize)
        ensures
            r == spec_size(self@),
    {
        let x = self.0;
        if x < 0x40 {
            1
        } else if x < 0x4000 {
            2
        } else if x < 0x4000_0000 {
            4
        } else {
            8
        }
    }

    /// Reads one value from the front of `buf`. The two highest bits of the
    /// first byte alone decide how many bytes are read.
    pub fn deserialize(buf: &[u8]) -> (r: Result<(Self, usize), Error>)
        ensures
            decoded(r) == spec_parse_varint(buf@),
            r matches Ok((_, n)) ==> 1 <= n <= 8 && n <= buf@.len() && n == spec_tagged_len(
                buf@[0],
            ),
    {
        if buf.len() < 1 {
            proof {
                reveal(spec_decode);
            }
            return Err(Error::ErrUnexpectedEnd);
        }
        let first: u8 = buf[0];
        let tag: u8 = first / 0x40;
        let low: u64 = (first % 0x40) as u64;
        proof {
            reveal(spec_decode);
            reveal_with_fuel(spec_be_value, 9);
            lemma_decode_bound(buf@);
        }
        if tag == 0 {
            Ok((VarInt(low), 1))
        } else if tag == 1 {
            if buf.len() < 2 {
                return Err(Error::ErrUnexpectedEnd);
            }
            let x: u64 = low * 0x100 + buf[1] as u64;
            Ok((VarInt(x), 2))
        } else if tag == 2 {
            if buf.len() < 4 {
                return Err(Error::ErrUnexpectedEnd);
            }
            let x: u64 = ((low * 0x100 + buf[1] as u64) * 0x100 + buf[2] as u64) * 0x100
                + buf[3] as u64;
            Ok((VarInt(x), 4))
        } else {
            if buf.len() < 8 {
                return Err(Error::ErrUnexpectedEnd);
            }
            let hi: u64 = ((low * 0x100 + buf[1] as u64) * 0x100 + buf[2] as u64) * 0x100
                + buf[3] as u64;
            let x: u64 = (((hi * 0x100 + buf[4] as u64) * 0x100 + buf[5] as u64) * 0x100
                + buf[6] as u64) * 0x100 + buf[7] as u64;
            Ok((VarInt(x), 8))
        }
    }

    /// Appends the canonical encoding of the value to `w`.
    pub fn serialize(&self, w: &mut Vec<u8>) -> (r: Result<usize, Error>)
        ensures
            spec_write_varint(old(w)@.len(), self@).describes(old(w)@, final(w)@, r),
    {
        let x: u64 = self.0;
        proof {
            use_type_invariant(self);
            reveal(spec_encode);
        }
        if x < 0x40 {
            if remaining_mut(w) < 1 {
                return Err(Error::ErrBufferTooShort);
            }
            put_u8(w, x as u8);
            Ok(1)
        } else if x < 0x4000 {
            if remaining_mut(w) < 2 {
                return Err(Error::ErrBufferTooShort);
            }
            put_u16(w, (0x4000 + x) as u16);
            Ok(2)
        } else if x < 0x4000_0000 {
            if remaining_mut(w) < 4 {
                return Err(Error::ErrBufferTooShort);
            }
            put_u32(w, (0x8000_0000 + x) as u32);
            Ok(4)
        } else {
            if remaining_mut(w) < 8 {
                return Err(Error::ErrBufferTooShort);
            }
            put_u64(w, 0xc000_0000_0000_0000 + x);
            Ok(8)
        }
    }
}

impl Default for VarInt {
    fn default() -> (r: Self)
        ensures
            r@ == 0,
    {
        VarInt(0)
    }
}

impl From<VarInt> for u64 {
    fn from(x: VarInt) -> (r: u64) {
        x.0
    }
}

impl vstd::std_specs::convert::FromSpecImpl<VarInt> for u64 {
    open spec fn obeys_from_spec() -> bool {
        true
    }

    open spec fn from_spec(x: VarInt) -> u64 {
        x@
    }
}

impl From<u8> for VarInt {
    fn from(x: u8) -> (r: VarInt) {
        VarInt(x as u64)
    }
}

impl vstd::std_specs::convert::FromSpecImpl<u8> for VarInt {
    open spec fn obeys_from_spec() -> bool {
        true
    }

    closed spec fn from_spec(x: u8) -> VarInt {
        VarInt(x as u64)
    }
}

impl From<u16> for VarInt {
    fn from(x: u16) -> (r: VarInt) {
        VarInt(x as u64)
    }
}

impl vstd::std_specs::convert::FromSpecImpl<u16> for VarInt {
    open spec fn obeys_from_spec() -> bool {
        true
    }

    closed spec fn from_spec(x: u16) -> VarInt {
        VarInt(x as u64)
    }
}

impl From<u32> for VarInt {
    fn from(x: u32) -> (r: VarInt) {
        VarInt(x as u64)
    }
}

impl vstd::std_specs::convert::FromSpecImpl<u32> for VarInt {
    open spec fn obeys_from_spec() -> bool {
        true
    }

    closed spec fn from_spec(x: u32) -> VarInt {
        VarInt(x as u64)
    }
}

impl TryFrom<u64> for VarInt {
    type Error = Error;

    /// Succeeds iff `x` < 2^62.
    fn try_from(x: u64) -> (r: Result<Self, Error>) {
        if x < VARINT_LIMIT {
            Ok(VarInt(x))
        } else {
            Err(Error::ErrVarIntBoundsExceeded)
        }
    }
}

impl vstd::std_specs::convert::TryFromSpecImpl<u64> for VarInt {
    open spec fn obeys_try_from_spec() -> bool {
        true
    }

    closed spec fn try_from_spec(x: u64) -> Result<Self, Error> {
        if x < VARINT_LIMIT {
            Ok(VarInt(x))
        } else {
            Err(Error::ErrVarIntBoundsExceeded)
        }
    }
}

impl TryFrom<u128> for VarInt {
    type Error = Error;

    /// Succeeds iff `x` < 2^62.
    fn try_from(x: u128) -> (r: Result<Self, Error>) {
        if x < VARINT_LIMIT as u128 {
            Ok(VarInt(x as u64))
        } else {
            Err(Error::ErrVarIntBoundsExceeded)
        }
    }
}

impl vstd::std_specs::convert::TryFromSpecImpl<u128> for VarInt {
    open spec fn obeys_try_from_spec() -> bool {
        true
    }

    closed spec fn try_from_spec(x: u128) -> Result<Self, Error> {
        if x < VARINT_LIMIT as u128 {
            Ok(VarInt(x as u64))
        } else {
            Err(Error::ErrVarIntBoundsExceeded)
        }
    }
}

impl TryFrom<usize> for VarInt {
    type Error = Error;

    /// Succeeds iff `x` < 2^62.
    fn try_from(x: usize) -> (r: Result<Self, Error>) {
        if (x as u64) < VARINT_LIMIT {
            Ok(VarInt(x as u64))
        } else {
            Err(Error::ErrVarIntBoundsExceeded)
        }
    }
}

impl vstd::std_specs::convert::TryFromSpecImpl<usize> for VarInt {
    open spec fn obeys_try_from_spec() -> bool {
        true
    }

    closed spec fn try_from_spec(x: usize) -> Result<Self, Error> {
        if (x as u64) < VARINT_LIMIT {
            Ok(VarInt(x as u64))
        } else {
            Err(Error::ErrVarIntBoundsExceeded)
        }
    }
}

/// A `VarInt` is made from a larger integer exactly where it is below 2^62,
/// and then has its value.
pub proof fn lemma_try_from(a: u64, b: u128, c: usize)
    ensures
        match <VarInt as vstd::std_specs::convert::TryFromSpec<u64>>::try_from_spec(a) {
            Ok(v) => a < VARINT_LIMIT && v@ == a,
            Err(e) => a >= VARINT_LIMIT && e@ == ErrorKind::VarIntBoundsExceeded,
        },
        match <VarInt as vstd::std_specs::convert::TryFromSpec<u128>>::try_from_spec(b) {
            Ok(v) => b < VARINT_LIMIT && v@ == b,
            Err(e) => b >= VARINT_LIMIT && e@ == ErrorKind::VarIntBoundsExceeded,
        },
        match <VarInt as vstd::std_specs::convert::TryFromSpec<usize>>::try_from_spec(c) {
            Ok(v) => c < VARINT_LIMIT && v@ == c,
            Err(e) => c >= VARINT_LIMIT && e@ == ErrorKind::VarIntBoundsExceeded,
        },
{
}

/// The value of a `VarInt` made from a smaller integer is that integer.
pub proof fn lemma_from_small(a: u8, b: u16, c: u32)
    ensures
        <VarInt as vstd::std_specs::convert::FromSpec<u8>>::from_spec(a)@ == a,
        <VarInt as vstd::std_specs::convert::FromSpec<u16>>::from_spec(b)@ == b,
        <VarInt as vstd::std_specs::convert::FromSpec<u32>>::from_spec(c)@ == c,
{
}

/// Appends the canonical encoding of `v` to `w`; fails with
/// `ErrVarIntBoundsExceeded` where `v` is 2^62 or more.
pub fn serialize_u64(v: u64, w: &mut Vec<u8>) -> (r: Result<usize, Error>)
    ensures
        spec_write_u64(old(w)@.len(), v).describes(old(w)@, final(w)@, r),
{
    match VarInt::from_u64(v) {
        Ok(var) => var.serialize(w),
        Err(e) => Err(e),
    }
}

/// Reads one variable-length integer from the front of `buf`.
pub fn deserialize_u64(buf: &[u8]) -> (r: Result<(u64, usize), Error>)
    ensures
        decoded(r) == spec_parse_varint(buf@),
        r matches Ok((v, n)) ==> 1 <= n <= 8 && n <= buf@.len() && v < VARINT_LIMIT,
{
    match VarInt::deserialize(buf) {
        Ok((v, n)) => Ok((v.into_inner(), n)),
        Err(e) => Err(e),
    }
}

/// Appends the canonical encoding of `v` to `w`, as [`serialize_u64`] does.
pub fn serialize_usize(v: usize, w: &mut Vec<u8>) -> (r: Result<usize, Error>)
    ensures
        spec_write_u64(old(w)@.len(), v as u64).describes(old(w)@, final(w)@, r),
{
    serialize_u64(v as u64, w)
}

/// Decoding an encoded integer gives it back and takes exactly the encoded
/// bytes, whatever follows them.
pub proof fn lemma_parse_write_u64(len: nat, v: u64, rest: Seq<u8>)
    requires
        spec_write_u64(len, v).error is None,
    ensures
        spec_parse_varint(spec_write_u64(len, v).bytes + rest) == Ok::<_, ErrorKind>(
            (v, spec_write_u64(len, v).bytes.len()),
        ),
{
    lemma_tag_agrees_with_length(v);
    lemma_decode_encode(v, rest);
}

/// Decoding an integer looks at no byte beyond those it takes.
pub proof fn lemma_parse_u64_prefix(s: Seq<u8>, k: int)
    requires
        0 <= k <= s.len(),
    ensures
        spec_reads_only_its_bytes(spec_parse_varint(s), spec_parse_varint(s.take(k)), k),
{
    lemma_decode_prefix(s, k);
}

/// What decoding `count` integers in a row reads from the front of `s`.
pub open spec fn spec_parse_varints(s: Seq<u8>, count: nat) -> Parsed<Seq<u64>>
    decreases count,
{
    if count == 0 {
        Ok((Seq::empty(), 0))
    } else {
        match spec_parse_varints(s, (count - 1) as nat) {
            Err(e) => Err(e),
            Ok((values, n)) => match spec_parse_varint(s.skip(n as int)) {
                Err(e) => Err(e),
                Ok((v, m)) => Ok((values.push(v), n + m)),
            },
        }
    }
}

/// Reads `count` variable-length integers in a row from the front of `buf`.
pub fn deserialize_varints(buf: &[u8], count: usize) -> (r: Result<(Vec<u64>, usize), Error>)
    ensures
        decoded(r) == spec_parse_varints(buf@, count as nat),
        r matches Ok((values, n)) ==> values@.len() == count && n <= buf@.len() && count <= n,
{
    let mut values: Vec<u64> = Vec::new();
    let mut pos: usize = 0;
    let mut i: usize = 0;
    while i < count
        invariant
            i <= count,
            pos <= buf@.len(),
            i <= pos,
            values@.len() == i,
            spec_parse_varints(buf@, i as nat) == Ok::<_, ErrorKind>((values@, pos as nat)),
        decreases count - i,
    {
        match deserialize_u64(slice_subrange(buf, pos, buf.len())) {
            Ok((v, n)) => {
                values.push(v);
                pos = pos + n;
            },
            Err(e) => {
                proof {
                    lemma_parse_varints_stops(buf@, (i + 1) as nat, count as nat);
                }
                return Err(e);
            },
        }
        i = i + 1;
    }
    Ok((values, pos))
}

/// Once a run of integers has failed, a longer run fails in the same way.
pub proof fn lemma_parse_varints_stops(s: Seq<u8>, i: nat, count: nat)
    requires
        i <= count,
        spec_parse_varints(s, i) is Err,
    ensures
        spec_parse_varints(s, count) == spec_parse_varints(s, i),
    decreases count,
{
    if i < count {
        lemma_parse_varints_stops(s, i, (count - 1) as nat);
    }
}

/// A run of integers that was read took its bytes from the input and holds
/// as many values as were asked for, each below 2^62.
pub proof fn lemma_parse_varints_bound(s: Seq<u8>, count: nat)
    ensures
        spec_parse_varints(s, count) matches Ok((values, n)) ==> {
            &&& values.len() == count
            &&& count <= n <= s.len()
            &&& forall|i: int| 0 <= i < count ==> values[i] < VARINT_LIMIT
        },
    decreases count,
{
    if count > 0 {
        lemma_parse_varints_bound(s, (count - 1) as nat);
        if let Ok((values, n)) = spec_parse_varints(s, (count - 1) as nat) {
            lemma_decode_bound(s.skip(n as int));
        }
    }
}

/// Decoding a run of integers looks at no byte beyond those it takes.
pub proof fn lemma_parse_varints_prefix(s: Seq<u8>, count: nat, k: int)
    requires
        0 <= k <= s.len(),
    ensures
        spec_reads_only_its_bytes(
            spec_parse_varints(s, count),
            spec_parse_varints(s.take(k), count),
            k,
        ),
    decreases count,
{
    if count > 0 {
        lemma_parse_varints_prefix(s, (count - 1) as nat, k);
        lemma_parse_varints_bound(s, (count - 1) as nat);
        if let Ok((values, n)) = spec_parse_varints(s, (count - 1) as nat) {
            if n <= k {
                assert(s.take(k).skip(n as int) =~= s.skip(n as int).take(k - n));
                lemma_decode_prefix(s.skip(n as int), k - n);
                lemma_decode_bound(s.skip(n as int));
            }
        }
    }
}

/// The encoding of `v` is as long as its magnitude asks, and the tag in its
/// first byte announces exactly that length.
pub proof fn lemma_tag_agrees_with_length(v: u64)
    requires
        v < VARINT_LIMIT,
    ensures
        spec_encode(v).len() == spec_size(v),
        spec_tagged_len(spec_encode(v)[0]) == spec_size(v),
{
    reveal(spec_encode);
}

/// Each byte of a 64-bit number extends the number spelled by those above it.
proof fn lemma_u64_digits(n: u64)
    by (bit_vector)
    ensures
        (n / 0x100_0000_0000_0000) * 0x100 + n / 0x1_0000_0000_0000 % 0x100 == n
            / 0x1_0000_0000_0000,
        (n / 0x1_0000_0000_0000) * 0x100 + n / 0x100_0000_0000 % 0x100 == n / 0x100_0000_0000,
        (n / 0x100_0000_0000) * 0x100 + n / 0x1_0000_0000 % 0x100 == n / 0x1_0000_0000,
        (n / 0x1_0000_0000) * 0x100 + n / 0x100_0000 % 0x100 == n / 0x100_0000,
        (n / 0x100_0000) * 0x100 + n / 0x1_0000 % 0x100 == n / 0x1_0000,
        (n / 0x1_0000) * 0x100 + n / 0x100 % 0x100 == n / 0x100,
        (n / 0x100) * 0x100 + n % 0x100 == n,
        n / 0x100_0000_0000_0000 < 0x100,
{
}

/// Taking the tag off an eight-byte encoding leaves the digits of the value.
proof fn lemma_u64_untag(v: u64)
    by (bit_vector)
    requires
        v < 0x4000_0000_0000_0000,
    ensures
        (0xc000_0000_0000_0000 + v) as u64 / 0x100_0000_0000_0000 == 0xc0 + v
            / 0x100_0000_0000_0000,
        v / 0x100_0000_0000_0000 < 0x40,
        (0xc000_0000_0000_0000 + v) as u64 / 0x1_0000_0000_0000 % 0x100 == v / 0x1_0000_0000_0000
            % 0x100,
        (0xc000_0000_0000_0000 + v) as u64 / 0x100_0000_0000 % 0x100 == v / 0x100_0000_0000
            % 0x100,
        (0xc000_0000_0000_0000 + v) as u64 / 0x1_0000_0000 % 0x100 == v / 0x1_0000_0000 % 0x100,
        (0xc000_0000_0000_0000 + v) as u64 / 0x100_0000 % 0x100 == v / 0x100_0000 % 0x100,
        (0xc000_0000_0000_0000 + v) as u64 / 0x1_0000 % 0x100 == v / 0x1_0000 % 0x100,
        (0xc000_0000_0000_0000 + v) as u64 / 0x100 % 0x100 == v / 0x100 % 0x100,
        (0xc000_0000_0000_0000 + v) as u64 % 0x100 == v % 0x100,
{
}

/// The eight bytes of a number spell that number.
proof fn lemma_be_value_u64(n: u64)
    ensures
        spec_be_value(u64_be(n), 8) == n,
{
    reveal_with_fuel(spec_be_value, 9);
    lemma_u64_digits(n);
}

/// The digits of a two-byte encoding, with the tag taken off, spell the value.
proof fn lemma_u16_untag(v: u64)
    by (bit_vector)
    requires
        0x40 <= v < 0x4000,
    ensures
        0x40 <= (0x4000 + v) as u16 / 0x100 < 0x80,
        ((0x4000 + v) as u16 / 0x100 % 0x40) * 0x100 + (0x4000 + v) as u16 % 0x100 == v,
{
}

/// The digits of a four-byte encoding, with the tag taken off, spell the value.
proof fn lemma_u32_untag(v: u64)
    by (bit_vector)
    requires
        0x4000 <= v < 0x4000_0000,
    ensures
        0x80 <= (0x8000_0000 + v) as u32 / 0x100_0000 < 0xc0,
        ((((0x8000_0000 + v) as u32 / 0x100_0000 % 0x40) * 0x100 + (0x8000_0000 + v) as u32
            / 0x1_0000 % 0x100) * 0x100 + (0x8000_0000 + v) as u32 / 0x100 % 0x100) * 0x100 + (
        0x8000_0000 + v) as u32 % 0x100 == v,
{
}

/// The round trip of a value that takes one byte.
proof fn lemma_decode_encode_1(v: u64, rest: Seq<u8>)
    requires
        v < 0x40,
    ensures
        spec_decode(spec_encode(v) + rest) == Some((v, 1nat)),
{
    reveal(spec_encode);
    reveal(spec_decode);
    reveal_with_fuel(spec_be_value, 2);
    let s = spec_encode(v) + rest;
    assert(s[0] == v as u8);
}

/// The round trip of a value that takes two bytes.
proof fn lemma_decode_encode_2(v: u64, rest: Seq<u8>)
    requires
        0x40 <= v < 0x4000,
    ensures
        spec_decode(spec_encode(v) + rest) == Some((v, 2nat)),
{
    reveal(spec_encode);
    reveal(spec_decode);
    reveal_with_fuel(spec_be_value, 3);
    lemma_u16_untag(v);
    let e = u16_be((0x4000 + v) as u16);
    let s = e + rest;
    assert(s[0] == e[0] && s[1] == e[1]);
    let t = s.update(0, s[0] % 0x40);
    assert(t[0] == e[0] % 0x40 && t[1] == e[1]);
}

/// The round trip of a value that takes four bytes.
proof fn lemma_decode_encode_4(v: u64, rest: Seq<u8>)
    requires
        0x4000 <= v < 0x4000_0000,
    ensures
        spec_decode(spec_encode(v) + rest) == Some((v, 4nat)),
{
    reveal(spec_encode);
    reveal(spec_decode);
    reveal_with_fuel(spec_be_value, 5);
    lemma_u32_untag(v);
    let e = u32_be((0x8000_0000 + v) as u32);
    let s = e + rest;
    assert(s[0] == e[0] && s[1] == e[1] && s[2] == e[2] && s[3] == e[3]);
    let t = s.update(0, s[0] % 0x40);
    assert(t[0] == e[0] % 0x40 && t[1] == e[1] && t[2] == e[2] && t[3] == e[3]);
}

/// The round trip of a value that takes eight bytes.
proof fn lemma_decode_encode_8(v: u64, rest: Seq<u8>)
    requires
        0x4000_0000 <= v < VARINT_LIMIT,
    ensures
        spec_decode(spec_encode(v) + rest) == Some((v, 8nat)),
{
    reveal(spec_encode);
    reveal(spec_decode);
    lemma_be_value_u64(v);
    lemma_u64_untag(v);
    let w = u64_be((0xc000_0000_0000_0000 + v) as u64);
    let e = u64_be(v);
    let s = w + rest;
    let t = s.update(0, s[0] % 0x40);
    assert(s[0] == w[0]);
    assert forall|i: int| 0 <= i < 8 implies t[i] == e[i] by {
        if i > 0 {
            assert(t[i] == w[i]);
        }
    }
    lemma_be_value_same(t, e, 8);
}

/// Decoding what was encoded gives the value back and takes exactly the
/// encoded bytes, whatever follows them.
pub proof fn lemma_decode_encode(v: u64, rest: Seq<u8>)
    requires
        v < VARINT_LIMIT,
    ensures
        spec_decode(spec_encode(v) + rest) == Some((v, spec_size(v))),
{
    if v < 0x40 {
        lemma_decode_encode_1(v, rest);
    } else if v < 0x4000 {
        lemma_decode_encode_2(v, rest);
    } else if v < 0x4000_0000 {
        lemma_decode_encode_4(v, rest);
    } else {
        lemma_decode_encode_8(v, rest);
    }
}

/// The number that leading bytes spell depends on those bytes alone.
proof fn lemma_be_value_same(a: Seq<u8>, b: Seq<u8>, n: nat)
    requires
        forall|i: int| 0 <= i < n ==> a[i] == b[i],
    ensures
        spec_be_value(a, n) == spec_be_value(b, n),
    decreases n,
{
    if n > 0 {
        lemma_be_value_same(a, b, (n - 1) as nat);
    }
}

/// Decoding looks at no byte beyond those it takes: on the first `k` bytes of
/// `s` it reads what it reads from `s` where they hold the whole encoding,
/// and nothing where they do not.
pub proof fn lemma_decode_prefix(s: Seq<u8>, k: int)
    requires
        0 <= k <= s.len(),
    ensures
        spec_decode(s.take(k)) == match spec_decode(s) {
            Some((v, n)) => if n <= k {
                Some((v, n))
            } else {
                None
            },
            None => None,
        },
{
    reveal(spec_decode);
    reveal_with_fuel(spec_be_value, 9);
    if k > 0 {
        let t = s.take(k);
        let n = spec_tagged_len(s[0]);
        assert(t[0] == s[0]);
        if n <= k {
            assert(spec_be_value(t.update(0, t[0] % 0x40), n) == spec_be_value(
                s.update(0, s[0] % 0x40),
                n,
            ));
        }
    }
}

/// A decoded value is always below 2^62.
pub proof fn lemma_decode_bound(s: Seq<u8>)
    ensures
        spec_decode(s) matches Some((v, n)) ==> v < VARINT_LIMIT && 1 <= n <= 8 && n <= s.len()
            && n == spec_tagged_len(s[0]),
{
    reveal(spec_decode);
    reveal_with_fuel(spec_be_value, 9);
}

} // verus!
