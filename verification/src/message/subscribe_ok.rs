//! SUBSCRIBE_OK: the publisher accepts a subscription.

use crate::codec::varint::{
    deserialize_u64, lemma_parse_u64_prefix, lemma_parse_write_u64, serialize_u64,
    spec_parse_varint, spec_write_u64,
};
use crate::codec::{
    also, decoded, lemma_followed_by, lemma_split_input, spec_failure, spec_read,
    spec_reads_only_its_bytes, spec_taken, Output, Parsed,
};
use crate::error::{Error, ErrorKind};
use crate::message::FullSequence;
use vstd::prelude::*;
use vstd::slice::slice_subrange;

verus! {

/// The body of a SUBSCRIBE_OK message.
#[derive(Debug, Clone, Eq, PartialEq)]
pub struct SubscribeOk {
    pub subscribe_id: u64,
    /// The time in milliseconds after which the subscription lapses.
    pub expires: u64,
    /// The largest position that the publisher has, where it has content.
    pub largest_id: Option<FullSequence>,
}

/// The mathematical content of a [`SubscribeOk`].
pub struct SubscribeOkView {
    pub subscribe_id: u64,
    pub expires: u64,
    pub largest_id: Option<FullSequence>,
}

impl View for SubscribeOk {
    type V = SubscribeOkView;

    open spec fn view(&self) -> SubscribeOkView {
        SubscribeOkView {
            subscribe_id: self.subscribe_id,
            expires: self.expires,
            largest_id: self.largest_id,
        }
    }
}

impl Default for SubscribeOk {
    fn default() -> (r: Self)
        ensures
            r@.subscribe_id == 0,
            r@.expires == 0,
            r@.largest_id is None,
    {
        SubscribeOk {
            subscribe_id: 0,
            expires: 0,
            largest_id: None,
        }
    }
}

impl SubscribeOk {
    /// Encoding the body into a vector that holds `len` bytes: the
    /// subscription, the lifetime, whether content exists, where it does, the
    /// largest position.
    #[verifier::opaque]
    pub open spec fn spec_write(len: nat, v: SubscribeOkView) -> Output {
        let c0 = spec_write_u64(len, v.subscribe_id);
        let c1 = c0.followed_by(spec_write_u64(len + c0.bytes.len(), v.expires));
        c1.followed_by(FullSequence::spec_write_optional(len + c1.bytes.len(), v.largest_id))
    }

    /// What decoding the body reads from the front of `s`.
    #[verifier::opaque]
    pub open spec fn spec_parse(s: Seq<u8>) -> Parsed<SubscribeOkView> {
        let subscribe_id = spec_parse_varint(s);
        let at1 = spec_taken(subscribe_id);
        let expires = spec_parse_varint(s.skip(at1 as int));
        let at2 = at1 + spec_taken(expires);
        let largest_id = FullSequence::spec_parse_optional(s.skip(at2 as int));
        let at3 = at2 + spec_taken(largest_id);
        if subscribe_id is Err {
            Err(spec_failure(subscribe_id))
        } else if expires is Err {
            Err(spec_failure(expires))
        } else if largest_id is Err {
            Err(spec_failure(largest_id))
        } else {
            Ok(
                (
                    SubscribeOkView {
                        subscribe_id: spec_read(subscribe_id),
                        expires: spec_read(expires),
                        largest_id: spec_read(largest_id),
                    },
                    at3,
                ),
            )
        }
    }

    /// Reads the body from the front of `buf`.
    pub fn deserialize(buf: &[u8]) -> (r: Result<(Self, usize), Error>)
        ensures
            decoded(r) == SubscribeOk::spec_parse(buf@),
            r matches Ok((_, n)) ==> 1 <= n <= buf@.len(),
    {
        proof {
            reveal(SubscribeOk::spec_parse);
        }
        let (subscribe_id, n0) = deserialize_u64(buf)?;
        let at = n0;
        let (expires, n1) = deserialize_u64(slice_subrange(buf, at, buf.len()))?;
        let at = at + n1;
        let (largest_id, n2) = FullSequence::decode_optional(slice_subrange(buf, at, buf.len()))?;
        let at = at + n2;
        Ok((SubscribeOk { subscribe_id, expires, largest_id }, at))
    }

    /// Appends the body to `w`.
    pub fn serialize(&self, w: &mut Vec<u8>) -> (r: Result<usize, Error>)
        ensures
            SubscribeOk::spec_write(old(w)@.len(), self@).describes(old(w)@, final(w)@, r),
    {
        proof {
            reveal(SubscribeOk::spec_write);
        }
        let ghost v = self@;
        let ghost s0 = w@;
        let ghost c0 = spec_write_u64(s0.len(), v.subscribe_id);
        let l = serialize_u64(self.subscribe_id, w)?;
        let ghost s1 = w@;
        let ghost o1 = spec_write_u64(s1.len(), v.expires);
        let r = serialize_u64(self.expires, w);
        let l = also(l, r, Ghost(c0), Ghost(o1), Ghost(s0), Ghost(s1), &*w)?;
        let ghost c1 = c0.followed_by(o1);
        let ghost s2 = w@;
        let ghost o2 = FullSequence::spec_write_optional(s2.len(), v.largest_id);
        let r = FullSequence::encode_optional(&self.largest_id, w);
        also(l, r, Ghost(c1), Ghost(o2), Ghost(s0), Ghost(s2), &*w)
    }

    /// Decoding an encoded body gives it back and takes exactly the encoded
    /// bytes, whatever follows them.
    pub proof fn lemma_parse_write(len: nat, v: SubscribeOkView, rest: Seq<u8>)
        requires
            SubscribeOk::spec_write(len, v).error is None,
        ensures
            SubscribeOk::spec_parse(SubscribeOk::spec_write(len, v).bytes + rest) == Ok::<
                _,
                ErrorKind,
            >((v, SubscribeOk::spec_write(len, v).bytes.len())),
    {
        reveal(SubscribeOk::spec_write);
        reveal(SubscribeOk::spec_parse);
        let o0 = spec_write_u64(len, v.subscribe_id);
        let c0 = o0;
        let o1 = spec_write_u64(len + c0.bytes.len(), v.expires);
        let c1 = c0.followed_by(o1);
        let o2 = FullSequence::spec_write_optional(len + c1.bytes.len(), v.largest_id);
        let c2 = c1.followed_by(o2);
        assert(SubscribeOk::spec_write(len, v) == c2);
        lemma_followed_by(c1, o2);
        lemma_followed_by(c0, o1);
        let s = SubscribeOk::spec_write(len, v).bytes + rest;
        let t2 = rest;
        let t1 = o2.bytes + t2;
        let t0 = o1.bytes + t1;
        lemma_split_input(c1.bytes, o2.bytes, t2);
        lemma_split_input(c0.bytes, o1.bytes, t1);
        let n0 = o0.bytes.len();
        let n1 = o1.bytes.len();
        let n2 = o2.bytes.len();
        assert(s == o0.bytes + t0);
        assert(s.skip(n0 as int) == t0);
        assert(s.skip((n0 + n1) as int) == t1);
        assert(spec_parse_varint(s) == Ok::<_, ErrorKind>((v.subscribe_id, n0))) by {
            lemma_parse_write_u64(len, v.subscribe_id, t0);
        }
        assert(spec_parse_varint(t0) == Ok::<_, ErrorKind>((v.expires, n1))) by {
            lemma_parse_write_u64(len + c0.bytes.len(), v.expires, t1);
        }
        assert(FullSequence::spec_parse_optional(t1) == Ok::<_, ErrorKind>((v.largest_id, n2))) by {
            FullSequence::lemma_parse_write_optional(len + c1.bytes.len(), v.largest_id, t2);
        }
    }

    /// Decoding the body looks at no byte beyond those it takes.
    pub proof fn lemma_parse_prefix(s: Seq<u8>, k: int)
        requires
            0 <= k <= s.len(),
        ensures
            spec_reads_only_its_bytes(
                SubscribeOk::spec_parse(s),
                SubscribeOk::spec_parse(s.take(k)),
                k,
            ),
    {
        reveal(SubscribeOk::spec_parse);
        let p = s.take(k);
        if SubscribeOk::spec_parse(s) is Ok {
            lemma_parse_u64_prefix(s, k);
            let at1 = spec_taken(spec_parse_varint(s));
            if at1 <= k {
                assert(p.skip(at1 as int) =~= s.skip(at1 as int).take(k - at1));
                lemma_parse_u64_prefix(s.skip(at1 as int), k - at1);
            }
            let at2 = at1 + spec_taken(spec_parse_varint(s.skip(at1 as int)));
            if at2 <= k {
                assert(p.skip(at2 as int) =~= s.skip(at2 as int).take(k - at2));
                FullSequence::lemma_parse_optional_prefix(s.skip(at2 as int), k - at2);
            }
        }
    }
}

} // verus!
