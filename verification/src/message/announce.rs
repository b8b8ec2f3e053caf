//! ANNOUNCE: the publisher offers the tracks of a namespace.

use crate::codec::string::{
    deserialize_string, lemma_parse_string_prefix, lemma_parse_write_string,
    serialize_string, spec_parse_string, spec_write_string,
};
use crate::codec::{
    also, decoded, lemma_followed_by, lemma_split_input, spec_failure, spec_read,
    spec_reads_only_its_bytes, spec_taken, spec_text, Output, Parsed,
};
use crate::error::{Error, ErrorKind};
use crate::message::authorization::{
    deserialize_authorization_block, lemma_parse_authorization_block_prefix,
    lemma_parse_write_authorization_block, serialize_authorization_block,
    spec_parse_authorization_block, spec_write_authorization_block,
};
use vstd::prelude::*;
use vstd::slice::slice_subrange;

verus! {

/// The body of an ANNOUNCE message.
#[derive(Debug, Clone, Eq, PartialEq)]
pub struct Announce {
    pub track_namespace: String,
    pub authorization_info: Option<String>,
}

/// The mathematical content of an [`Announce`].
pub struct AnnounceView {
    pub track_namespace: Seq<char>,
    pub authorization_info: Option<Seq<char>>,
}

impl View for Announce {
    type V = AnnounceView;

    open spec fn view(&self) -> AnnounceView {
        AnnounceView {
            track_namespace: self.track_namespace@,
            authorization_info: spec_text(self.authorization_info),
        }
    }
}

impl Default for Announce {
    fn default() -> (r: Self)
        ensures
            r@.track_namespace.len() == 0,
            r@.authorization_info is None,
    {
        Announce {
            track_namespace: String::new(),
            authorization_info: None,
        }
    }
}

/// The text that reports a second authorization parameter.
pub open spec fn spec_reason_duplicate_authorization() -> Seq<char> {
    "AUTHORIZATION_INFO parameter appears twice in ANNOUNCE"@
}

impl Announce {
    /// Encoding the body into a vector that holds `len` bytes: the namespace,
    /// the parameter block.
    #[verifier::opaque]
    pub open spec fn spec_write(len: nat, v: AnnounceView) -> Output {
        let c0 = spec_write_string(len, v.track_namespace);
        c0.followed_by(spec_write_authorization_block(len + c0.bytes.len(), v.authorization_info))
    }

    /// What decoding the body reads from the front of `s`.
    #[verifier::opaque]
    pub open spec fn spec_parse(s: Seq<u8>) -> Parsed<AnnounceView> {
        let track_namespace = spec_parse_string(s);
        let at1 = spec_taken(track_namespace);
        let authorization_info = spec_parse_authorization_block(
            s.skip(at1 as int),
            spec_reason_duplicate_authorization(),
        );
        let at2 = at1 + spec_taken(authorization_info);
        if track_namespace is Err {
            Err(spec_failure(track_namespace))
        } else if authorization_info is Err {
            Err(spec_failure(authorization_info))
        } else {
            Ok(
                (
                    AnnounceView {
                        track_namespace: spec_read(track_namespace),
                        authorization_info: spec_read(authorization_info),
                    },
                    at2,
                ),
            )
        }
    }

    /// Reads the body from the front of `buf`.
    pub fn deserialize(buf: &[u8]) -> (r: Result<(Self, usize), Error>)
        ensures
            decoded(r) == Announce::spec_parse(buf@),
            r matches Ok((_, n)) ==> 1 <= n <= buf@.len(),
    {
        proof {
            reveal(Announce::spec_parse);
        }
        let (track_namespace, n0) = deserialize_string(buf)?;
        let at = n0;
        let (authorization_info, n1) = deserialize_authorization_block(
            slice_subrange(buf, at, buf.len()),
            "AUTHORIZATION_INFO parameter appears twice in ANNOUNCE",
        )?;
        let at = at + n1;
        Ok((Announce { track_namespace, authorization_info }, at))
    }

    /// Appends the body to `w`.
    pub fn serialize(&self, w: &mut Vec<u8>) -> (r: Result<usize, Error>)
        ensures
            Announce::spec_write(old(w)@.len(), self@).describes(old(w)@, final(w)@, r),
    {
        proof {
            reveal(Announce::spec_write);
        }
        let ghost v = self@;
        let ghost s0 = w@;
        let ghost c0 = spec_write_string(s0.len(), v.track_namespace);
        let l = serialize_string(&self.track_namespace, w)?;
        let ghost s1 = w@;
        let ghost o1 = spec_write_authorization_block(s1.len(), v.authorization_info);
        let r = serialize_authorization_block(&self.authorization_info, w);
        also(l, r, Ghost(c0), Ghost(o1), Ghost(s0), Ghost(s1), &*w)
    }

    /// Decoding an encoded body gives it back and takes exactly the encoded
    /// bytes, whatever follows them.
    pub proof fn lemma_parse_write(len: nat, v: AnnounceView, rest: Seq<u8>)
        requires
            Announce::spec_write(len, v).error is None,
        ensures
            Announce::spec_parse(Announce::spec_write(len, v).bytes + rest) == Ok::<_, ErrorKind>(
                (v, Announce::spec_write(len, v).bytes.len()),
            ),
    {
        reveal(Announce::spec_write);
        reveal(Announce::spec_parse);
        let o0 = spec_write_string(len, v.track_namespace);
        let c0 = o0;
        let o1 = spec_write_authorization_block(len + c0.bytes.len(), v.authorization_info);
        let c1 = c0.followed_by(o1);
        assert(Announce::spec_write(len, v) == c1);
        lemma_followed_by(c0, o1);
        let s = Announce::spec_write(len, v).bytes + rest;
        let t1 = rest;
        let t0 = o1.bytes + t1;
        lemma_split_input(c0.bytes, o1.bytes, t1);
        let n0 = o0.bytes.len();
        let n1 = o1.bytes.len();
        assert(s == o0.bytes + t0);
        assert(s.skip(n0 as int) == t0);
        assert(spec_parse_string(s) == Ok::<_, ErrorKind>((v.track_namespace, n0))) by {
            lemma_parse_write_string(len, v.track_namespace, t0);
        }
        assert(spec_parse_authorization_block(t0, spec_reason_duplicate_authorization()) == Ok::<
            _,
            ErrorKind,
        >((v.authorization_info, n1))) by {
            lemma_parse_write_authorization_block(
                len + c0.bytes.len(),
                v.authorization_info,
                spec_reason_duplicate_authorization(),
                t1,
            );
        }
    }

    /// Decoding the body looks at no byte beyond those it takes.
    pub proof fn lemma_parse_prefix(s: Seq<u8>, k: int)
        requires
            0 <= k <= s.len(),
        ensures
            spec_reads_only_its_bytes(Announce::spec_parse(s), Announce::spec_parse(s.take(k)), k),
    {
        reveal(Announce::spec_parse);
        let p = s.take(k);
        if Announce::spec_parse(s) is Ok {
            lemma_parse_string_prefix(s, k);
            let at1 = spec_taken(spec_parse_string(s));
            if at1 <= k {
                assert(p.skip(at1 as int) =~= s.skip(at1 as int).take(k - at1));
                lemma_parse_authorization_block_prefix(
                    s.skip(at1 as int),
                    spec_reason_duplicate_authorization(),
                    k - at1,
                );
            }
        }
    }
}

} // verus!
