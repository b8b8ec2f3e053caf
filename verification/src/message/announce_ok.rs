//! ANNOUNCE_OK: the subscriber accepts an announcement.

use crate::codec::string::{
    deserialize_string, lemma_parse_string_prefix, lemma_parse_write_string,
    serialize_string, spec_parse_string, spec_write_string,
};
use crate::codec::{
    decoded, spec_failure, spec_read, spec_reads_only_its_bytes, spec_taken, Output, Parsed,
};
use crate::error::{Error, ErrorKind};
use vstd::prelude::*;

verus! {

/// The body of an ANNOUNCE_OK message.
#[derive(Debug, Clone, Eq, PartialEq)]
pub struct AnnounceOk {
    pub track_namespace: String,
}

/// The mathematical content of an [`AnnounceOk`].
pub struct AnnounceOkView {
    pub track_namespace: Seq<char>,
}

impl View for AnnounceOk {
    type V = AnnounceOkView;

    open spec fn view(&self) -> AnnounceOkView {
        AnnounceOkView {
            track_namespace: self.track_namespace@,
        }
    }
}

impl Default for AnnounceOk {
    fn default() -> (r: Self)
        ensures
            r@.track_namespace.len() == 0,
    {
        AnnounceOk {
            track_namespace: String::new(),
        }
    }
}

impl AnnounceOk {
    /// Encoding the body into a vector that holds `len` bytes: the namespace.
    #[verifier::opaque]
    pub open spec fn spec_write(len: nat, v: AnnounceOkView) -> Output {
        spec_write_string(len, v.track_namespace)
    }

    /// What decoding the body reads from the front of `s`.
    #[verifier::opaque]
    pub open spec fn spec_parse(s: Seq<u8>) -> Parsed<AnnounceOkView> {
        let track_namespace = spec_parse_string(s);
        let at1 = spec_taken(track_namespace);
        if track_namespace is Err {
            Err(spec_failure(track_namespace))
        } else {
            Ok(
                (
                    AnnounceOkView {
                        track_namespace: spec_read(track_namespace),
                    },
                    at1,
                ),
            )
        }
    }

    /// Reads the body from the front of `buf`.
    pub fn deserialize(buf: &[u8]) -> (r: Result<(Self, usize), Error>)
        ensures
            decoded(r) == AnnounceOk::spec_parse(buf@),
            r matches Ok((_, n)) ==> 1 <= n <= buf@.len(),
    {
        proof {
            reveal(AnnounceOk::spec_parse);
        }
        let (track_namespace, n0) = deserialize_string(buf)?;
        let at = n0;
        Ok((AnnounceOk { track_namespace }, at))
    }

    /// Appends the body to `w`.
    pub fn serialize(&self, w: &mut Vec<u8>) -> (r: Result<usize, Error>)
        ensures
            AnnounceOk::spec_write(old(w)@.len(), self@).describes(old(w)@, final(w)@, r),
    {
        proof {
            reveal(AnnounceOk::spec_write);
        }
        serialize_string(&self.track_namespace, w)
    }

    /// Decoding an encoded body gives it back and takes exactly the encoded
    /// bytes, whatever follows them.
    pub proof fn lemma_parse_write(len: nat, v: AnnounceOkView, rest: Seq<u8>)
        requires
            AnnounceOk::spec_write(len, v).error is None,
        ensures
            AnnounceOk::spec_parse(AnnounceOk::spec_write(len, v).bytes + rest) == Ok::<
                _,
                ErrorKind,
            >((v, AnnounceOk::spec_write(len, v).bytes.len())),
    {
        reveal(AnnounceOk::spec_write);
        reveal(AnnounceOk::spec_parse);
        lemma_parse_write_string(len, v.track_namespace, rest);
    }

    /// Decoding the body looks at no byte beyond those it takes.
    pub proof fn lemma_parse_prefix(s: Seq<u8>, k: int)
        requires
            0 <= k <= s.len(),
        ensures
            spec_reads_only_its_bytes(
                AnnounceOk::spec_parse(s),
                AnnounceOk::spec_parse(s.take(k)),
                k,
            ),
    {
        reveal(AnnounceOk::spec_parse);
        lemma_parse_string_prefix(s, k);
    }
}

} // verus!
