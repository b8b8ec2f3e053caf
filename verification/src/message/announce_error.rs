//! ANNOUNCE_ERROR: the subscriber refuses an announcement.

use crate::codec::string::{
    deserialize_string, lemma_parse_string_prefix, lemma_parse_write_string,
    serialize_string, spec_parse_string, spec_write_string,
};
use crate::codec::varint::{
    deserialize_u64, lemma_parse_u64_prefix, lemma_parse_write_u64, serialize_u64,
    spec_parse_varint, spec_write_u64,
};
use crate::codec::{
    also, decoded, lemma_followed_by, lemma_split_input, spec_failure, spec_read,
    spec_reads_only_its_bytes, spec_taken, Output, Parsed,
};
use crate::error::{Error, ErrorKind};
use vstd::prelude::*;
use vstd::slice::slice_subrange;

verus! {

/// The body of an ANNOUNCE_ERROR message.
#[derive(Debug, Clone, Eq, PartialEq)]
pub struct AnnounceError {
    pub track_namespace: String,
    pub error_code: u64,
    pub reason_phrase: String,
}

/// The mathematical content of an [`AnnounceError`].
pub struct AnnounceErrorView {
    pub track_namespace: Seq<char>,
    pub error_code: u64,
    pub reason_phrase: Seq<char>,
}

impl View for AnnounceError {
    type V = AnnounceErrorView;

    open spec fn view(&self) -> AnnounceErrorView {
        AnnounceErrorView {
            track_namespace: self.track_namespace@,
            error_code: self.error_code,
            reason_phrase: self.reason_phrase@,
        }
    }
}

impl Default for AnnounceError {
    fn default() -> (r: Self)
        ensures
            r@.track_namespace.len() == 0,
            r@.error_code == 0,
            r@.reason_phrase.len() == 0,
    {
        AnnounceError {
            track_namespace: String::new(),
            error_code: 0,
            reason_phrase: String::new(),
        }
    }
}

impl AnnounceError {
    /// Encoding the body into a vector that holds `len` bytes: the namespace,
    /// the error code, the reason.
    #[verifier::opaque]
    pub open spec fn spec_write(len: nat, v: AnnounceErrorView) -> Output {
        let c0 = spec_write_string(len, v.track_namespace);
        let c1 = c0.followed_by(spec_write_u64(len + c0.bytes.len(), v.error_code));
        c1.followed_by(spec_write_string(len + c1.bytes.len(), v.reason_phrase))
    }

    /// What decoding the body reads from the front of `s`.
    #[verifier::opaque]
    pub open spec fn spec_parse(s: Seq<u8>) -> Parsed<AnnounceErrorView> {
        let track_namespace = spec_parse_string(s);
        let at1 = spec_taken(track_namespace);
        let error_code = spec_parse_varint(s.skip(at1 as int));
        let at2 = at1 + spec_taken(error_code);
        let reason_phrase = spec_parse_string(s.skip(at2 as int));
        let at3 = at2 + spec_taken(reason_phrase);
        if track_namespace is Err {
            Err(spec_failure(track_namespace))
        } else if error_code is Err {
            Err(spec_failure(error_code))
        } else if reason_phrase is Err {
            Err(spec_failure(reason_phrase))
        } else {
            Ok(
                (
                    AnnounceErrorView {
                        track_namespace: spec_read(track_namespace),
                        error_code: spec_read(error_code),
                        reason_phrase: spec_read(reason_phrase),
                    },
                    at3,
                ),
            )
        }
    }

    /// Reads the body from the front of `buf`.
    pub fn deserialize(buf: &[u8]) -> (r: Result<(Self, usize), Error>)
        ensures
            decoded(r) == AnnounceError::spec_parse(buf@),
            r matches Ok((_, n)) ==> 1 <= n <= buf@.len(),
    {
        proof {
            reveal(AnnounceError::spec_parse);
        }
        let (track_namespace, n0) = deserialize_string(buf)?;
        let at = n0;
        let (error_code, n1) = deserialize_u64(slice_subrange(buf, at, buf.len()))?;
        let at = at + n1;
        let (reason_phrase, n2) = deserialize_string(slice_subrange(buf, at, buf.len()))?;
        let at = at + n2;
        Ok((AnnounceError { track_namespace, error_code, reason_phrase }, at))
    }

    /// Appends the body to `w`.
    pub fn serialize(&self, w: &mut Vec<u8>) -> (r: Result<usize, Error>)
        ensures
            AnnounceError::spec_write(old(w)@.len(), self@).describes(old(w)@, final(w)@, r),
    {
        proof {
            reveal(AnnounceError::spec_write);
        }
        let ghost v = self@;
        let ghost s0 = w@;
        let ghost c0 = spec_write_string(s0.len(), v.track_namespace);
        let l = serialize_string(&self.track_namespace, w)?;
        let ghost s1 = w@;
        let ghost o1 = spec_write_u64(s1.len(), v.error_code);
        let r = serialize_u64(self.error_code, w);
        let l = also(l, r, Ghost(c0), Ghost(o1), Ghost(s0), Ghost(s1), &*w)?;
        let ghost c1 = c0.followed_by(o1);
        let ghost s2 = w@;
        let ghost o2 = spec_write_string(s2.len(), v.reason_phrase);
        let r = serialize_string(&self.reason_phrase, w);
        also(l, r, Ghost(c1), Ghost(o2), Ghost(s0), Ghost(s2), &*w)
    }

    /// Decoding an encoded body gives it back and takes exactly the encoded
    /// bytes, whatever follows them.
    pub proof fn lemma_parse_write(len: nat, v: AnnounceErrorView, rest: Seq<u8>)
        requires
            AnnounceError::spec_write(len, v).error is None,
        ensures
            AnnounceError::spec_parse(AnnounceError::spec_write(len, v).bytes + rest) == Ok::<
                _,
                ErrorKind,
            >((v, AnnounceError::spec_write(len, v).bytes.len())),
    {
        reveal(AnnounceError::spec_write);
        reveal(AnnounceError::spec_parse);
        let o0 = spec_write_string(len, v.track_namespace);
        let c0 = o0;
        let o1 = spec_write_u64(len + c0.bytes.len(), v.error_code);
        let c1 = c0.followed_by(o1);
        let o2 = spec_write_string(len + c1.bytes.len(), v.reason_phrase);
        let c2 = c1.followed_by(o2);
        assert(AnnounceError::spec_write(len, v) == c2);
        lemma_followed_by(c1, o2);
        lemma_followed_by(c0, o1);
        let s = AnnounceError::spec_write(len, v).bytes + rest;
        let t2 = rest;
        let t1 = o2.bytes + t2;
        let t0 = o1.bytes + t1;
        lemma_split_input(c1.bytes, o2.bytes, t2);
        lemma_split_input(c0.bytes, o1.bytes, t1);
        let n0 = o0.bytes.len();
        let n1 = o1.bytes.len();
        let n2 = o2.bytes.len();
        assert(s == o0.bytes + t0);
        assert(s.skip(n0 as int) == t0);
        assert(s.skip((n0 + n1) as int) == t1);
        assert(spec_parse_string(s) == Ok::<_, ErrorKind>((v.track_namespace, n0))) by {
            lemma_parse_write_string(len, v.track_namespace, t0);
        }
        assert(spec_parse_varint(t0) == Ok::<_, ErrorKind>((v.error_code, n1))) by {
            lemma_parse_write_u64(len + c0.bytes.len(), v.error_code, t1);
        }
        assert(spec_parse_string(t1) == Ok::<_, ErrorKind>((v.reason_phrase, n2))) by {
            lemma_parse_write_string(len + c1.bytes.len(), v.reason_phrase, t2);
        }
    }

    /// Decoding the body looks at no byte beyond those it takes.
    pub proof fn lemma_parse_prefix(s: Seq<u8>, k: int)
        requires
            0 <= k <= s.len(),
        ensures
            spec_reads_only_its_bytes(
                AnnounceError::spec_parse(s),
                AnnounceError::spec_parse(s.take(k)),
                k,
            ),
    {
        reveal(AnnounceError::spec_parse);
        let p = s.take(k);
        if AnnounceError::spec_parse(s) is Ok {
            lemma_parse_string_prefix(s, k);
            let at1 = spec_taken(spec_parse_string(s));
            if at1 <= k {
                assert(p.skip(at1 as int) =~= s.skip(at1 as int).take(k - at1));
                lemma_parse_u64_prefix(s.skip(at1 as int), k - at1);
            }
            let at2 = at1 + spec_taken(spec_parse_varint(s.skip(at1 as int)));
            if at2 <= k {
                assert(p.skip(at2 as int) =~= s.skip(at2 as int).take(k - at2));
                lemma_parse_string_prefix(s.skip(at2 as int), k - at2);
            }
        }
    }
}

} // verus!
