//! SUBSCRIBE_ERROR: the publisher refuses a subscription.

use crate::codec::string::{
    deserialize_string, lemma_parse_string_prefix, lemma_parse_write_string,
    serialize_string, spec_parse_string, spec_write_string,
};
use crate::codec::varint::{
    deserialize_u64, lemma_parse_u64_prefix, lemma_parse_write_u64, serialize_u64,
    spec_parse_varint, spec_write_u64,
};
use crate::codec::{
    also, decoded, lemma_followed_by, lemma_split_input, spec_failure, spec_read,
    spec_reads_only_its_bytes, spec_taken, Output, Parsed,
};
use crate::error::{Error, ErrorKind};
use vstd::prelude::*;
use vstd::slice::slice_subrange;

verus! {

/// The body of a SUBSCRIBE_ERROR message.
#[derive(Debug, Clone, Eq, PartialEq)]
pub struct SubscribeError {
    pub subscribe_id: u64,
    pub error_code: u64,
    pub reason_phrase: String,
    pub track_alias: u64,
}

/// The mathematical content of a [`SubscribeError`].
pub struct SubscribeErrorView {
    pub subscribe_id: u64,
    pub error_code: u64,
    pub reason_phrase: Seq<char>,
    pub track_alias: u64,
}

impl View for SubscribeError {
    type V = SubscribeErrorView;

    open spec fn view(&self) -> SubscribeErrorView {
        SubscribeErrorView {
            subscribe_id: self.subscribe_id,
            error_code: self.error_code,
            reason_phrase: self.reason_phrase@,
            track_alias: self.track_alias,
        }
    }
}

impl Default for SubscribeError {
    fn default() -> (r: Self)
        ensures
            r@.subscribe_id == 0,
            r@.error_code == 0,
            r@.reason_phrase.len() == 0,
            r@.track_alias == 0,
    {
        SubscribeError {
            subscribe_id: 0,
            error_code: 0,
            reason_phrase: String::new(),
            track_alias: 0,
        }
    }
}

impl SubscribeError {
    /// Encoding the body into a vector that holds `len` bytes: the
    /// subscription, the error code, the reason, the track alias.
    #[verifier::opaque]
    pub open spec fn spec_write(len: nat, v: SubscribeErrorView) -> Output {
        let c0 = spec_write_u64(len, v.subscribe_id);
        let c1 = c0.followed_by(spec_write_u64(len + c0.bytes.len(), v.error_code));
        let c2 = c1.followed_by(spec_write_string(len + c1.bytes.len(), v.reason_phrase));
        c2.followed_by(spec_write_u64(len + c2.bytes.len(), v.track_alias))
    }

    /// What decoding the body reads from the front of `s`.
    #[verifier::opaque]
    pub open spec fn spec_parse(s: Seq<u8>) -> Parsed<SubscribeErrorView> {
        let subscribe_id = spec_parse_varint(s);
        let at1 = spec_taken(subscribe_id);
        let error_code = spec_parse_varint(s.skip(at1 as int));
        let at2 = at1 + spec_taken(error_code);
        let reason_phrase = spec_parse_string(s.skip(at2 as int));
        let at3 = at2 + spec_taken(reason_phrase);
        let track_alias = spec_parse_varint(s.skip(at3 as int));
        let at4 = at3 + spec_taken(track_alias);
        if subscribe_id is Err {
            Err(spec_failure(subscribe_id))
        } else if error_code is Err {
            Err(spec_failure(error_code))
        } else if reason_phrase is Err {
            Err(spec_failure(reason_phrase))
        } else if track_alias is Err {
            Err(spec_failure(track_alias))
        } else {
            Ok(
                (
                    SubscribeErrorView {
                        subscribe_id: spec_read(subscribe_id),
                        error_code: spec_read(error_code),
                        reason_phrase: spec_read(reason_phrase),
                        track_alias: spec_read(track_alias),
                    },
                    at4,
                ),
            )
        }
    }

    /// Reads the body from the front of `buf`.
    pub fn deserialize(buf: &[u8]) -> (r: Result<(Self, usize), Error>)
        ensures
            decoded(r) == SubscribeError::spec_parse(buf@),
            r matches Ok((_, n)) ==> 1 <= n <= buf@.len(),
    {
        proof {
            reveal(SubscribeError::spec_parse);
        }
        let (subscribe_id, n0) = deserialize_u64(buf)?;
        let at = n0;
        let (error_code, n1) = deserialize_u64(slice_subrange(buf, at, buf.len()))?;
        let at = at + n1;
        let (reason_phrase, n2) = deserialize_string(slice_subrange(buf, at, buf.len()))?;
        let at = at + n2;
        let (track_alias, n3) = deserialize_u64(slice_subrange(buf, at, buf.len()))?;
        let at = at + n3;
        Ok((SubscribeError { subscribe_id, error_code, reason_phrase, track_alias }, at))
    }

    /// Appends the body to `w`.
    pub fn serialize(&self, w: &mut Vec<u8>) -> (r: Result<usize, Error>)
        ensures
            SubscribeError::spec_write(old(w)@.len(), self@).describes(old(w)@, final(w)@, r),
    {
        proof {
            reveal(SubscribeError::spec_write);
        }
        let ghost v = self@;
        let ghost s0 = w@;
        let ghost c0 = spec_write_u64(s0.len(), v.subscribe_id);
        let l = serialize_u64(self.subscribe_id, w)?;
        let ghost s1 = w@;
        let ghost o1 = spec_write_u64(s1.len(), v.error_code);
        let r = serialize_u64(self.error_code, w);
        let l = also(l, r, Ghost(c0), Ghost(o1), Ghost(s0), Ghost(s1), &*w)?;
        let ghost c1 = c0.followed_by(o1);
        let ghost s2 = w@;
        let ghost o2 = spec_write_string(s2.len(), v.reason_phrase);
        let r = serialize_string(&self.reason_phrase, w);
        let l = also(l, r, Ghost(c1), Ghost(o2), Ghost(s0), Ghost(s2), &*w)?;
        let ghost c2 = c1.followed_by(o2);
        let ghost s3 = w@;
        let ghost o3 = spec_write_u64(s3.len(), v.track_alias);
        let r = serialize_u64(self.track_alias, w);
        also(l, r, Ghost(c2), Ghost(o3), Ghost(s0), Ghost(s3), &*w)
    }

    /// Decoding an encoded body gives it back and takes exactly the encoded
    /// bytes, whatever follows them.
    pub proof fn lemma_parse_write(len: nat, v: SubscribeErrorView, rest: Seq<u8>)
        requires
            SubscribeError::spec_write(len, v).error is None,
        ensures
            SubscribeError::spec_parse(SubscribeError::spec_write(len, v).bytes + rest) == Ok::<
                _,
                ErrorKind,
            >((v, SubscribeError::spec_write(len, v).bytes.len())),
    {
        reveal(SubscribeError::spec_write);
        reveal(SubscribeError::spec_parse);
        let o0 = spec_write_u64(len, v.subscribe_id);
        let c0 = o0;
        let o1 = spec_write_u64(len + c0.bytes.len(), v.error_code);
        let c1 = c0.followed_by(o1);
        let o2 = spec_write_string(len + c1.bytes.len(), v.reason_phrase);
        let c2 = c1.followed_by(o2);
        let o3 = spec_write_u64(len + c2.bytes.len(), v.track_alias);
        let c3 = c2.followed_by(o3);
        assert(SubscribeError::spec_write(len, v) == c3);
        lemma_followed_by(c2, o3);
        lemma_followed_by(c1, o2);
        lemma_followed_by(c0, o1);
        let s = SubscribeError::spec_write(len, v).bytes + rest;
        let t3 = rest;
        let t2 = o3.bytes + t3;
        let t1 = o2.bytes + t2;
        let t0 = o1.bytes + t1;
        lemma_split_input(c2.bytes, o3.bytes, t3);
        lemma_split_input(c1.bytes, o2.bytes, t2);
        lemma_split_input(c0.bytes, o1.bytes, t1);
        let n0 = o0.bytes.len();
        let n1 = o1.bytes.len();
        let n2 = o2.bytes.len();
        let n3 = o3.bytes.len();
        assert(s == o0.bytes + t0);
        assert(s.skip(n0 as int) == t0);
        assert(s.skip((n0 + n1) as int) == t1);
        assert(s.skip((n0 + n1 + n2) as int) == t2);
        assert(spec_parse_varint(s) == Ok::<_, ErrorKind>((v.subscribe_id, n0))) by {
            lemma_parse_write_u64(len, v.subscribe_id, t0);
        }
        assert(spec_parse_varint(t0) == Ok::<_, ErrorKind>((v.error_code, n1))) by {
            lemma_parse_write_u64(len + c0.bytes.len(), v.error_code, t1);
        }
        assert(spec_parse_string(t1) == Ok::<_, ErrorKind>((v.reason_phrase, n2))) by {
            lemma_parse_write_string(len + c1.bytes.len(), v.reason_phrase, t2);
        }
        assert(spec_parse_varint(t2) == Ok::<_, ErrorKind>((v.track_alias, n3))) by {
            lemma_parse_write_u64(len + c2.bytes.len(), v.track_alias, t3);
        }
    }

    /// Decoding the body looks at no byte beyond those it takes.
    pub proof fn lemma_parse_prefix(s: Seq<u8>, k: int)
        requires
            0 <= k <= s.len(),
        ensures
            spec_reads_only_its_bytes(
                SubscribeError::spec_parse(s),
                SubscribeError::spec_parse(s.take(k)),
                k,
            ),
    {
        reveal(SubscribeError::spec_parse);
        let p = s.take(k);
        if SubscribeError::spec_parse(s) is Ok {
            lemma_parse_u64_prefix(s, k);
            let at1 = spec_taken(spec_parse_varint(s));
            if at1 <= k {
                assert(p.skip(at1 as int) =~= s.skip(at1 as int).take(k - at1));
                lemma_parse_u64_prefix(s.skip(at1 as int), k - at1);
            }
            let at2 = at1 + spec_taken(spec_parse_varint(s.skip(at1 as int)));
            if at2 <= k {
                assert(p.skip(at2 as int) =~= s.skip(at2 as int).take(k - at2));
                lemma_parse_string_prefix(s.skip(at2 as int), k - at2);
            }
            let at3 = at2 + spec_taken(spec_parse_string(s.skip(at2 as int)));
            if at3 <= k {
                assert(p.skip(at3 as int) =~= s.skip(at3 as int).take(k - at3));
                lemma_parse_u64_prefix(s.skip(at3 as int), k - at3);
            }
        }
    }
}

} // verus!
