//! SUBSCRIBE_DONE: the publisher ends a subscription.

use crate::codec::string::{
    deserialize_string, lemma_parse_string_prefix, lemma_parse_write_string,
    serialize_string, spec_parse_string, spec_write_string,
};
use crate::codec::varint::{
    deserialize_u64, lemma_parse_u64_prefix, lemma_parse_write_u64, serialize_u64,
    spec_parse_varint, spec_write_u64,
};
use crate::codec::{
    also, decoded, lemma_followed_by, lemma_split_input, spec_failure, spec_read,
    spec_reads_only_its_bytes, spec_taken, Output, Parsed,
};
use crate::error::{Error, ErrorKind};
use crate::message::FullSequence;
use vstd::prelude::*;
use vstd::slice::slice_subrange;

verus! {

/// The body of a SUBSCRIBE_DONE message.
#[derive(Debug, Clone, Eq, PartialEq)]
pub struct SubscribeDone {
    pub subscribe_id: u64,
    pub status_code: u64,
    pub reason_phrase: String,
    /// The last position that was sent, where any was.
    pub final_id: Option<FullSequence>,
}

/// The mathematical content of a [`SubscribeDone`].
pub struct SubscribeDoneView {
    pub subscribe_id: u64,
    pub status_code: u64,
    pub reason_phrase: Seq<char>,
    pub final_id: Option<FullSequence>,
}

impl View for SubscribeDone {
    type V = SubscribeDoneView;

    open spec fn view(&self) -> SubscribeDoneView {
        SubscribeDoneView {
            subscribe_id: self.subscribe_id,
            status_code: self.status_code,
            reason_phrase: self.reason_phrase@,
            final_id: self.final_id,
        }
    }
}

impl Default for SubscribeDone {
    fn default() -> (r: Self)
        ensures
            r@.subscribe_id == 0,
            r@.status_code == 0,
            r@.reason_phrase.len() == 0,
            r@.final_id is None,
    {
        SubscribeDone {
            subscribe_id: 0,
            status_code: 0,
            reason_phrase: String::new(),
            final_id: None,
        }
    }
}

impl SubscribeDone {
    /// Encoding the body into a vector that holds `len` bytes: the
    /// subscription, the status code, the reason, whether content exists, where
    /// it does, the final position.
    #[verifier::opaque]
    pub open spec fn spec_write(len: nat, v: SubscribeDoneView) -> Output {
        let c0 = spec_write_u64(len, v.subscribe_id);
        let c1 = c0.followed_by(spec_write_u64(len + c0.bytes.len(), v.status_code));
        let c2 = c1.followed_by(spec_write_string(len + c1.bytes.len(), v.reason_phrase));
        c2.followed_by(FullSequence::spec_write_optional(len + c2.bytes.len(), v.final_id))
    }

    /// What decoding the body reads from the front of `s`.
    #[verifier::opaque]
    pub open spec fn spec_parse(s: Seq<u8>) -> Parsed<SubscribeDoneView> {
        let subscribe_id = spec_parse_varint(s);
        let at1 = spec_taken(subscribe_id);
        let status_code = spec_parse_varint(s.skip(at1 as int));
        let at2 = at1 + spec_taken(status_code);
        let reason_phrase = spec_parse_string(s.skip(at2 as int));
        let at3 = at2 + spec_taken(reason_phrase);
        let final_id = FullSequence::spec_parse_optional(s.skip(at3 as int));
        let at4 = at3 + spec_taken(final_id);
        if subscribe_id is Err {
            Err(spec_failure(subscribe_id))
        } else if status_code is Err {
            Err(spec_failure(status_code))
        } else if reason_phrase is Err {
            Err(spec_failure(reason_phrase))
        } else if final_id is Err {
            Err(spec_failure(final_id))
        } else {
            Ok(
                (
                    SubscribeDoneView {
                        subscribe_id: spec_read(subscribe_id),
                        status_code: spec_read(status_code),
                        reason_phrase: spec_read(reason_phrase),
                        final_id: spec_read(final_id),
                    },
                    at4,
                ),
            )
        }
    }

    /// Reads the body from the front of `buf`.
    pub fn deserialize(buf: &[u8]) -> (r: Result<(Self, usize), Error>)
        ensures
            decoded(r) == SubscribeDone::spec_parse(buf@),
            r matches Ok((_, n)) ==> 1 <= n <= buf@.len(),
    {
        proof {
            reveal(SubscribeDone::spec_parse);
        }
        let (subscribe_id, n0) = deserialize_u64(buf)?;
        let at = n0;
        let (status_code, n1) = deserialize_u64(slice_subrange(buf, at, buf.len()))?;
        let at = at + n1;
        let (reason_phrase, n2) = deserialize_string(slice_subrange(buf, at, buf.len()))?;
        let at = at + n2;
        let (final_id, n3) = FullSequence::decode_optional(slice_subrange(buf, at, buf.len()))?;
        let at = at + n3;
        Ok((SubscribeDone { subscribe_id, status_code, reason_phrase, final_id }, at))
    }

    /// Appends the body to `w`.
    pub fn serialize(&self, w: &mut Vec<u8>) -> (r: Result<usize, Error>)
        ensures
            SubscribeDone::spec_write(old(w)@.len(), self@).describes(old(w)@, final(w)@, r),
    {
        proof {
            reveal(SubscribeDone::spec_write);
        }
        let ghost v = self@;
        let ghost s0 = w@;
        let ghost c0 = spec_write_u64(s0.len(), v.subscribe_id);
        let l = serialize_u64(self.subscribe_id, w)?;
        let ghost s1 = w@;
        let ghost o1 = spec_write_u64(s1.len(), v.status_code);
        let r = serialize_u64(self.status_code, w);
        let l = also(l, r, Ghost(c0), Ghost(o1), Ghost(s0), Ghost(s1), &*w)?;
        let ghost c1 = c0.followed_by(o1);
        let ghost s2 = w@;
        let ghost o2 = spec_write_string(s2.len(), v.reason_phrase);
        let r = serialize_string(&self.reason_phrase, w);
        let l = also(l, r, Ghost(c1), Ghost(o2), Ghost(s0), Ghost(s2), &*w)?;
        let ghost c2 = c1.followed_by(o2);
        let ghost s3 = w@;
        let ghost o3 = FullSequence::spec_write_optional(s3.len(), v.final_id);
        let r = FullSequence::encode_optional(&self.final_id, w);
        also(l, r, Ghost(c2), Ghost(o3), Ghost(s0), Ghost(s3), &*w)
    }

    /// Decoding an encoded body gives it back and takes exactly the encoded
    /// bytes, whatever follows them.
    pub proof fn lemma_parse_write(len: nat, v: SubscribeDoneView, rest: Seq<u8>)
        requires
            SubscribeDone::spec_write(len, v).error is None,
        ensures
            SubscribeDone::spec_parse(SubscribeDone::spec_write(len, v).bytes + rest) == Ok::<
                _,
                ErrorKind,
            >((v, SubscribeDone::spec_write(len, v).bytes.len())),
    {
        reveal(SubscribeDone::spec_write);
        reveal(SubscribeDone::spec_parse);
        let o0 = spec_write_u64(len, v.subscribe_id);
        let c0 = o0;
        let o1 = spec_write_u64(len + c0.bytes.len(), v.status_code);
        let c1 = c0.followed_by(o1);
        let o2 = spec_write_string(len + c1.bytes.len(), v.reason_phrase);
        let c2 = c1.followed_by(o2);
        let o3 = FullSequence::spec_write_optional(len + c2.bytes.len(), v.final_id);
        let c3 = c2.followed_by(o3);
        assert(SubscribeDone::spec_write(len, v) == c3);
        lemma_followed_by(c2, o3);
        lemma_followed_by(c1, o2);
        lemma_followed_by(c0, o1);
        let s = SubscribeDone::spec_write(len, v).bytes + rest;
        let t3 = rest;
        let t2 = o3.bytes + t3;
        let t1 = o2.bytes + t2;
        let t0 = o1.bytes + t1;
        lemma_split_input(c2.bytes, o3.bytes, t3);
        lemma_split_input(c1.bytes, o2.bytes, t2);
        lemma_split_input(c0.bytes, o1.bytes, t1);
        let n0 = o0.bytes.len();
        let n1 = o1.bytes.len();
        let n2 = o2.bytes.len();
        let n3 = o3.bytes.len();
        assert(s == o0.bytes + t0);
        assert(s.skip(n0 as int) == t0);
        assert(s.skip((n0 + n1) as int) == t1);
        assert(s.skip((n0 + n1 + n2) as int) == t2);
        assert(spec_parse_varint(s) == Ok::<_, ErrorKind>((v.subscribe_id, n0))) by {
            lemma_parse_write_u64(len, v.subscribe_id, t0);
        }
        assert(spec_parse_varint(t0) == Ok::<_, ErrorKind>((v.status_code, n1))) by {
            lemma_parse_write_u64(len + c0.bytes.len(), v.status_code, t1);
        }
        assert(spec_parse_string(t1) == Ok::<_, ErrorKind>((v.reason_phrase, n2))) by {
            lemma_parse_write_string(len + c1.bytes.len(), v.reason_phrase, t2);
        }
        assert(FullSequence::spec_parse_optional(t2) == Ok::<_, ErrorKind>((v.final_id, n3))) by {
            FullSequence::lemma_parse_write_optional(len + c2.bytes.len(), v.final_id, t3);
        }
    }

    /// Decoding the body looks at no byte beyond those it takes.
    pub proof fn lemma_parse_prefix(s: Seq<u8>, k: int)
        requires
            0 <= k <= s.len(),
        ensures
            spec_reads_only_its_bytes(
                SubscribeDone::spec_parse(s),
                SubscribeDone::spec_parse(s.take(k)),
                k,
            ),
    {
        reveal(SubscribeDone::spec_parse);
        let p = s.take(k);
        if SubscribeDone::spec_parse(s) is Ok {
            lemma_parse_u64_prefix(s, k);
            let at1 = spec_taken(spec_parse_varint(s));
            if at1 <= k {
                assert(p.skip(at1 as int) =~= s.skip(at1 as int).take(k - at1));
                lemma_parse_u64_prefix(s.skip(at1 as int), k - at1);
            }
            let at2 = at1 + spec_taken(spec_parse_varint(s.skip(at1 as int)));
            if at2 <= k {
                assert(p.skip(at2 as int) =~= s.skip(at2 as int).take(k - at2));
                lemma_parse_string_prefix(s.skip(at2 as int), k - at2);
            }
            let at3 = at2 + spec_taken(spec_parse_string(s.skip(at2 as int)));
            if at3 <= k {
                assert(p.skip(at3 as int) =~= s.skip(at3 as int).take(k - at3));
                FullSequence::lemma_parse_optional_prefix(s.skip(at3 as int), k - at3);
            }
        }
    }
}

} // verus!
