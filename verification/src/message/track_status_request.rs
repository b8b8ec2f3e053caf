//! TRACK_STATUS_REQUEST: a question about the state of a track.

use crate::codec::string::{
    deserialize_string, lemma_parse_string_prefix, lemma_parse_write_string,
    serialize_string, spec_parse_string, spec_write_string,
};
use crate::codec::{
    also, decoded, lemma_followed_by, lemma_split_input, spec_failure, spec_read,
    spec_reads_only_its_bytes, spec_taken, Output, Parsed,
};
use crate::error::{Error, ErrorKind};
use vstd::prelude::*;
use vstd::slice::slice_subrange;

verus! {

/// The body of a TRACK_STATUS_REQUEST message.
#[derive(Debug, Clone, Eq, PartialEq)]
pub struct TrackStatusRequest {
    pub track_namespace: String,
    pub track_name: String,
}

/// The mathematical content of a [`TrackStatusRequest`].
pub struct TrackStatusRequestView {
    pub track_namespace: Seq<char>,
    pub track_name: Seq<char>,
}

impl View for TrackStatusRequest {
    type V = TrackStatusRequestView;

    open spec fn view(&self) -> TrackStatusRequestView {
        TrackStatusRequestView {
            track_namespace: self.track_namespace@,
            track_name: self.track_name@,
        }
    }
}

impl Default for TrackStatusRequest {
    fn default() -> (r: Self)
        ensures
            r@.track_namespace.len() == 0,
            r@.track_name.len() == 0,
    {
        TrackStatusRequest {
            track_namespace: String::new(),
            track_name: String::new(),
        }
    }
}

impl TrackStatusRequest {
    /// Encoding the body into a vector that holds `len` bytes: the namespace,
    /// the name.
    #[verifier::opaque]
    pub open spec fn spec_write(len: nat, v: TrackStatusRequestView) -> Output {
        let c0 = spec_write_string(len, v.track_namespace);
        c0.followed_by(spec_write_string(len + c0.bytes.len(), v.track_name))
    }

    /// What decoding the body reads from the front of `s`.
    #[verifier::opaque]
    pub open spec fn spec_parse(s: Seq<u8>) -> Parsed<TrackStatusRequestView> {
        let track_namespace = spec_parse_string(s);
        let at1 = spec_taken(track_namespace);
        let track_name = spec_parse_string(s.skip(at1 as int));
        let at2 = at1 + spec_taken(track_name);
        if track_namespace is Err {
            Err(spec_failure(track_namespace))
        } else if track_name is Err {
            Err(spec_failure(track_name))
        } else {
            Ok(
                (
                    TrackStatusRequestView {
                        track_namespace: spec_read(track_namespace),
                        track_name: spec_read(track_name),
                    },
                    at2,
                ),
            )
        }
    }

    /// Reads the body from the front of `buf`.
    pub fn deserialize(buf: &[u8]) -> (r: Result<(Self, usize), Error>)
        ensures
            decoded(r) == TrackStatusRequest::spec_parse(buf@),
            r matches Ok((_, n)) ==> 1 <= n <= buf@.len(),
    {
        proof {
            reveal(TrackStatusRequest::spec_parse);
        }
        let (track_namespace, n0) = deserialize_string(buf)?;
        let at = n0;
        let (track_name, n1) = deserialize_string(slice_subrange(buf, at, buf.len()))?;
        let at = at + n1;
        Ok((TrackStatusRequest { track_namespace, track_name }, at))
    }

    /// Appends the body to `w`.
    pub fn serialize(&self, w: &mut Vec<u8>) -> (r: Result<usize, Error>)
        ensures
            TrackStatusRequest::spec_write(old(w)@.len(), self@).describes(old(w)@, final(w)@, r),
    {
        proof {
            reveal(TrackStatusRequest::spec_write);
        }
        let ghost v = self@;
        let ghost s0 = w@;
        let ghost c0 = spec_write_string(s0.len(), v.track_namespace);
        let l = serialize_string(&self.track_namespace, w)?;
        let ghost s1 = w@;
        let ghost o1 = spec_write_string(s1.len(), v.track_name);
        let r = serialize_string(&self.track_name, w);
        also(l, r, Ghost(c0), Ghost(o1), Ghost(s0), Ghost(s1), &*w)
    }

    /// Decoding an encoded body gives it back and takes exactly the encoded
    /// bytes, whatever follows them.
    pub proof fn lemma_parse_write(len: nat, v: TrackStatusRequestView, rest: Seq<u8>)
        requires
            TrackStatusRequest::spec_write(len, v).error is None,
        ensures
            TrackStatusRequest::spec_parse(
                TrackStatusRequest::spec_write(len, v).bytes + rest,
            ) == Ok::<
                _,
                ErrorKind,
            >((v, TrackStatusRequest::spec_write(len, v).bytes.len())),
    {
        reveal(TrackStatusRequest::spec_write);
        reveal(TrackStatusRequest::spec_parse);
        let o0 = spec_write_string(len, v.track_namespace);
        let c0 = o0;
        let o1 = spec_write_string(len + c0.bytes.len(), v.track_name);
        let c1 = c0.followed_by(o1);
        assert(TrackStatusRequest::spec_write(len, v) == c1);
        lemma_followed_by(c0, o1);
        let s = TrackStatusRequest::spec_write(len, v).bytes + rest;
        let t1 = rest;
        let t0 = o1.bytes + t1;
        lemma_split_input(c0.bytes, o1.bytes, t1);
        let n0 = o0.bytes.len();
        let n1 = o1.bytes.len();
        assert(s == o0.bytes + t0);
        assert(s.skip(n0 as int) == t0);
        assert(spec_parse_string(s) == Ok::<_, ErrorKind>((v.track_namespace, n0))) by {
            lemma_parse_write_string(len, v.track_namespace, t0);
        }
        assert(spec_parse_string(t0) == Ok::<_, ErrorKind>((v.track_name, n1))) by {
            lemma_parse_write_string(len + c0.bytes.len(), v.track_name, t1);
        }
    }

    /// Decoding the body looks at no byte beyond those it takes.
    pub proof fn lemma_parse_prefix(s: Seq<u8>, k: int)
        requires
            0 <= k <= s.len(),
        ensures
            spec_reads_only_its_bytes(
                TrackStatusRequest::spec_parse(s),
                TrackStatusRequest::spec_parse(s.take(k)),
                k,
            ),
    {
        reveal(TrackStatusRequest::spec_parse);
        let p = s.take(k);
        if TrackStatusRequest::spec_parse(s) is Ok {
            lemma_parse_string_prefix(s, k);
            let at1 = spec_taken(spec_parse_string(s));
            if at1 <= k {
                assert(p.skip(at1 as int) =~= s.skip(at1 as int).take(k - at1));
                lemma_parse_string_prefix(s.skip(at1 as int), k - at1);
            }
        }
    }
}

} // verus!
