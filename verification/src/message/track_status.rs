//! TRACK_STATUS: the state of a track.

use crate::codec::string::{
    deserialize_string, lemma_parse_string_prefix, lemma_parse_write_string,
    serialize_string, spec_parse_string, spec_write_string,
};
use crate::codec::varint::{
    deserialize_u64, lemma_parse_u64_prefix, lemma_parse_write_u64, serialize_u64,
    spec_parse_varint, spec_write_u64,
};
use crate::codec::{
    also, decoded, lemma_followed_by, lemma_split_input, spec_failure, spec_read,
    spec_reads_only_its_bytes, spec_taken, Output, Parsed,
};
use crate::error::{Error, ErrorKind};
use vstd::prelude::*;
use vstd::slice::slice_subrange;

verus! {

/// The body of a TRACK_STATUS message.
#[derive(Debug, Clone, Eq, PartialEq)]
pub struct TrackStatus {
    pub track_namespace: String,
    pub track_name: String,
    pub status_code: u64,
    pub last_group: u64,
    pub last_object: u64,
}

/// The mathematical content of a [`TrackStatus`].
pub struct TrackStatusView {
    pub track_namespace: Seq<char>,
    pub track_name: Seq<char>,
    pub status_code: u64,
    pub last_group: u64,
    pub last_object: u64,
}

impl View for TrackStatus {
    type V = TrackStatusView;

    open spec fn view(&self) -> TrackStatusView {
        TrackStatusView {
            track_namespace: self.track_namespace@,
            track_name: self.track_name@,
            status_code: self.status_code,
            last_group: self.last_group,
            last_object: self.last_object,
        }
    }
}

impl Default for TrackStatus {
    fn default() -> (r: Self)
        ensures
            r@.track_namespace.len() == 0,
            r@.track_name.len() == 0,
            r@.status_code == 0,
            r@.last_group == 0,
            r@.last_object == 0,
    {
        TrackStatus {
            track_namespace: String::new(),
            track_name: String::new(),
            status_code: 0,
            last_group: 0,
            last_object: 0,
        }
    }
}

impl TrackStatus {
    /// Encoding the body into a vector that holds `len` bytes: the namespace,
    /// the name, the status code, the last group, the last object.
    #[verifier::opaque]
    pub open spec fn spec_write(len: nat, v: TrackStatusView) -> Output {
        let c0 = spec_write_string(len, v.track_namespace);
        let c1 = c0.followed_by(spec_write_string(len + c0.bytes.len(), v.track_name));
        let c2 = c1.followed_by(spec_write_u64(len + c1.bytes.len(), v.status_code));
        let c3 = c2.followed_by(spec_write_u64(len + c2.bytes.len(), v.last_group));
        c3.followed_by(spec_write_u64(len + c3.bytes.len(), v.last_object))
    }

    /// What decoding the body reads from the front of `s`.
    #[verifier::opaque]
    pub open spec fn spec_parse(s: Seq<u8>) -> Parsed<TrackStatusView> {
        let track_namespace = spec_parse_string(s);
        let at1 = spec_taken(track_namespace);
        let track_name = spec_parse_string(s.skip(at1 as int));
        let at2 = at1 + spec_taken(track_name);
        let status_code = spec_parse_varint(s.skip(at2 as int));
        let at3 = at2 + spec_taken(status_code);
        let last_group = spec_parse_varint(s.skip(at3 as int));
        let at4 = at3 + spec_taken(last_group);
        let last_object = spec_parse_varint(s.skip(at4 as int));
        let at5 = at4 + spec_taken(last_object);
        if track_namespace is Err {
            Err(spec_failure(track_namespace))
        } else if track_name is Err {
            Err(spec_failure(track_name))
        } else if status_code is Err {
            Err(spec_failure(status_code))
        } else if last_group is Err {
            Err(spec_failure(last_group))
        } else if last_object is Err {
            Err(spec_failure(last_object))
        } else {
            Ok(
                (
                    TrackStatusView {
                        track_namespace: spec_read(track_namespace),
                        track_name: spec_read(track_name),
                        status_code: spec_read(status_code),
                        last_group: spec_read(last_group),
                        last_object: spec_read(last_object),
                    },
                    at5,
                ),
            )
        }
    }

    /// Reads the body from the front of `buf`.
    pub fn deserialize(buf: &[u8]) -> (r: Result<(Self, usize), Error>)
        ensures
            decoded(r) == TrackStatus::spec_parse(buf@),
            r matches Ok((_, n)) ==> 1 <= n <= buf@.len(),
    {
        proof {
            reveal(TrackStatus::spec_parse);
        }
        let (track_namespace, n0) = deserialize_string(buf)?;
        let at = n0;
        let (track_name, n1) = deserialize_string(slice_subrange(buf, at, buf.len()))?;
        let at = at + n1;
        let (status_code, n2) = deserialize_u64(slice_subrange(buf, at, buf.len()))?;
        let at = at + n2;
        let (last_group, n3) = deserialize_u64(slice_subrange(buf, at, buf.len()))?;
        let at = at + n3;
        let (last_object, n4) = deserialize_u64(slice_subrange(buf, at, buf.len()))?;
        let at = at + n4;
        Ok((TrackStatus { track_namespace, track_name, status_code, last_group, last_object }, at))
    }

    /// Appends the body to `w`.
    pub fn serialize(&self, w: &mut Vec<u8>) -> (r: Result<usize, Error>)
        ensures
            TrackStatus::spec_write(old(w)@.len(), self@).describes(old(w)@, final(w)@, r),
    {
        proof {
            reveal(TrackStatus::spec_write);
        }
        let ghost v = self@;
        let ghost s0 = w@;
        let ghost c0 = spec_write_string(s0.len(), v.track_namespace);
        let l = serialize_string(&self.track_namespace, w)?;
        let ghost s1 = w@;
        let ghost o1 = spec_write_string(s1.len(), v.track_name);
        let r = serialize_string(&self.track_name, w);
        let l = also(l, r, Ghost(c0), Ghost(o1), Ghost(s0), Ghost(s1), &*w)?;
        let ghost c1 = c0.followed_by(o1);
        let ghost s2 = w@;
        let ghost o2 = spec_write_u64(s2.len(), v.status_code);
        let r = serialize_u64(self.status_code, w);
        let l = also(l, r, Ghost(c1), Ghost(o2), Ghost(s0), Ghost(s2), &*w)?;
        let ghost c2 = c1.followed_by(o2);
        let ghost s3 = w@;
        let ghost o3 = spec_write_u64(s3.len(), v.last_group);
        let r = serialize_u64(self.last_group, w);
        let l = also(l, r, Ghost(c2), Ghost(o3), Ghost(s0), Ghost(s3), &*w)?;
        let ghost c3 = c2.followed_by(o3);
        let ghost s4 = w@;
        let ghost o4 = spec_write_u64(s4.len(), v.last_object);
        let r = serialize_u64(self.last_object, w);
        also(l, r, Ghost(c3), Ghost(o4), Ghost(s0), Ghost(s4), &*w)
    }

    /// Decoding an encoded body gives it back and takes exactly the encoded
    /// bytes, whatever follows them.
    pub proof fn lemma_parse_write(len: nat, v: TrackStatusView, rest: Seq<u8>)
        requires
            TrackStatus::spec_write(len, v).error is None,
        ensures
            TrackStatus::spec_parse(TrackStatus::spec_write(len, v).bytes + rest) == Ok::<
                _,
                ErrorKind,
            >((v, TrackStatus::spec_write(len, v).bytes.len())),
    {
        reveal(TrackStatus::spec_write);
        reveal(TrackStatus::spec_parse);
        let o0 = spec_write_string(len, v.track_namespace);
        let c0 = o0;
        let o1 = spec_write_string(len + c0.bytes.len(), v.track_name);
        let c1 = c0.followed_by(o1);
        let o2 = spec_write_u64(len + c1.bytes.len(), v.status_code);
        let c2 = c1.followed_by(o2);
        let o3 = spec_write_u64(len + c2.bytes.len(), v.last_group);
        let c3 = c2.followed_by(o3);
        let o4 = spec_write_u64(len + c3.bytes.len(), v.last_object);
        let c4 = c3.followed_by(o4);
        assert(TrackStatus::spec_write(len, v) == c4);
        lemma_followed_by(c3, o4);
        lemma_followed_by(c2, o3);
        lemma_followed_by(c1, o2);
        lemma_followed_by(c0, o1);
        let s = TrackStatus::spec_write(len, v).bytes + rest;
        let t4 = rest;
        let t3 = o4.bytes + t4;
        let t2 = o3.bytes + t3;
        let t1 = o2.bytes + t2;
        let t0 = o1.bytes + t1;
        lemma_split_input(c3.bytes, o4.bytes, t4);
        lemma_split_input(c2.bytes, o3.bytes, t3);
        lemma_split_input(c1.bytes, o2.bytes, t2);
        lemma_split_input(c0.bytes, o1.bytes, t1);
        let n0 = o0.bytes.len();
        let n1 = o1.bytes.len();
        let n2 = o2.bytes.len();
        let n3 = o3.bytes.len();
        let n4 = o4.bytes.len();
        assert(s == o0.bytes + t0);
        assert(s.skip(n0 as int) == t0);
        assert(s.skip((n0 + n1) as int) == t1);
        assert(s.skip((n0 + n1 + n2) as int) == t2);
        assert(s.skip((n0 + n1 + n2 + n3) as int) == t3);
        assert(spec_parse_string(s) == Ok::<_, ErrorKind>((v.track_namespace, n0))) by {
            lemma_parse_write_string(len, v.track_namespace, t0);
        }
        assert(spec_parse_string(t0) == Ok::<_, ErrorKind>((v.track_name, n1))) by {
            lemma_parse_write_string(len + c0.bytes.len(), v.track_name, t1);
        }
        assert(spec_parse_varint(t1) == Ok::<_, ErrorKind>((v.status_code, n2))) by {
            lemma_parse_write_u64(len + c1.bytes.len(), v.status_code, t2);
        }
        assert(spec_parse_varint(t2) == Ok::<_, ErrorKind>((v.last_group, n3))) by {
            lemma_parse_write_u64(len + c2.bytes.len(), v.last_group, t3);
        }
        assert(spec_parse_varint(t3) == Ok::<_, ErrorKind>((v.last_object, n4))) by {
            lemma_parse_write_u64(len + c3.bytes.len(), v.last_object, t4);
        }
    }

    /// Decoding the body looks at no byte beyond those it takes.
    pub proof fn lemma_parse_prefix(s: Seq<u8>, k: int)
        requires
            0 <= k <= s.len(),
        ensures
            spec_reads_only_its_bytes(
                TrackStatus::spec_parse(s),
                TrackStatus::spec_parse(s.take(k)),
                k,
            ),
    {
        reveal(TrackStatus::spec_parse);
        let p = s.take(k);
        if TrackStatus::spec_parse(s) is Ok {
            lemma_parse_string_prefix(s, k);
            let at1 = spec_taken(spec_parse_string(s));
            if at1 <= k {
                assert(p.skip(at1 as int) =~= s.skip(at1 as int).take(k - at1));
                lemma_parse_string_prefix(s.skip(at1 as int), k - at1);
            }
            let at2 = at1 + spec_taken(spec_parse_string(s.skip(at1 as int)));
            if at2 <= k {
                assert(p.skip(at2 as int) =~= s.skip(at2 as int).take(k - at2));
                lemma_parse_u64_prefix(s.skip(at2 as int), k - at2);
            }
            let at3 = at2 + spec_taken(spec_parse_varint(s.skip(at2 as int)));
            if at3 <= k {
                assert(p.skip(at3 as int) =~= s.skip(at3 as int).take(k - at3));
                lemma_parse_u64_prefix(s.skip(at3 as int), k - at3);
            }
            let at4 = at3 + spec_taken(spec_parse_varint(s.skip(at3 as int)));
            if at4 <= k {
                assert(p.skip(at4 as int) =~= s.skip(at4 as int).take(k - at4));
                lemma_parse_u64_prefix(s.skip(at4 as int), k - at4);
            }
        }
    }
}

} // verus!
