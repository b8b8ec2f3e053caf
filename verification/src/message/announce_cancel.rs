//! ANNOUNCE_CANCEL: the subscriber withdraws its interest in a namespace.

use crate::codec::string::{
    deserialize_string, lemma_parse_string_prefix, lemma_parse_write_string,
    serialize_string, spec_parse_string, spec_write_string,
};
use crate::codec::{
    decoded, spec_failure, spec_read, spec_reads_only_its_bytes, spec_taken, Output, Parsed,
};
use crate::error::{Error, ErrorKind};
use vstd::prelude::*;

verus! {

/// The body of an ANNOUNCE_CANCEL message.
#[derive(Debug, Clone, Eq, PartialEq)]
pub struct AnnounceCancel {
    pub track_namespace: String,
}

/// The mathematical content of an [`AnnounceCancel`].
pub struct AnnounceCancelView {
    pub track_namespace: Seq<char>,
}

impl View for AnnounceCancel {
    type V = AnnounceCancelView;

    open spec fn view(&self) -> AnnounceCancelView {
        AnnounceCancelView {
            track_namespace: self.track_namespace@,
        }
    }
}

impl Default for AnnounceCancel {
    fn default() -> (r: Self)
        ensures
            r@.track_namespace.len() == 0,
    {
        AnnounceCancel {
            track_namespace: String::new(),
        }
    }
}

impl AnnounceCancel {
    /// Encoding the body into a vector that holds `len` bytes: the namespace.
    #[verifier::opaque]
    pub open spec fn spec_write(len: nat, v: AnnounceCancelView) -> Output {
        spec_write_string(len, v.track_namespace)
    }

    /// What decoding the body reads from the front of `s`.
    #[verifier::opaque]
    pub open spec fn spec_parse(s: Seq<u8>) -> Parsed<AnnounceCancelView> {
        let track_namespace = spec_parse_string(s);
        let at1 = spec_taken(track_namespace);
        if track_namespace is Err {
            Err(spec_failure(track_namespace))
        } else {
            Ok(
                (
                    AnnounceCancelView {
                        track_namespace: spec_read(track_namespace),
                    },
                    at1,
                ),
            )
        }
    }

    /// Reads the body from the front of `buf`.
    pub fn deserialize(buf: &[u8]) -> (r: Result<(Self, usize), Error>)
        ensures
            decoded(r) == AnnounceCancel::spec_parse(buf@),
            r matches Ok((_, n)) ==> 1 <= n <= buf@.len(),
    {
        proof {
            reveal(AnnounceCancel::spec_parse);
        }
        let (track_namespace, n0) = deserialize_string(buf)?;
        let at = n0;
        Ok((AnnounceCancel { track_namespace }, at))
    }

    /// Appends the body to `w`.
    pub fn serialize(&self, w: &mut Vec<u8>) -> (r: Result<usize, Error>)
        ensures
            AnnounceCancel::spec_write(old(w)@.len(), self@).describes(old(w)@, final(w)@, r),
    {
        proof {
            reveal(AnnounceCancel::spec_write);
        }
        serialize_string(&self.track_namespace, w)
    }

    /// Decoding an encoded body gives it back and takes exactly the encoded
    /// bytes, whatever follows them.
    pub proof fn lemma_parse_write(len: nat, v: AnnounceCancelView, rest: Seq<u8>)
        requires
            AnnounceCancel::spec_write(len, v).error is None,
        ensures
            AnnounceCancel::spec_parse(AnnounceCancel::spec_write(len, v).bytes + rest) == Ok::<
                _,
                ErrorKind,
            >((v, AnnounceCancel::spec_write(len, v).bytes.len())),
    {
        reveal(AnnounceCancel::spec_write);
        reveal(AnnounceCancel::spec_parse);
        lemma_parse_write_string(len, v.track_namespace, rest);
    }

    /// Decoding the body looks at no byte beyond those it takes.
    pub proof fn lemma_parse_prefix(s: Seq<u8>, k: int)
        requires
            0 <= k <= s.len(),
        ensures
            spec_reads_only_its_bytes(
                AnnounceCancel::spec_parse(s),
                AnnounceCancel::spec_parse(s.take(k)),
                k,
            ),
    {
        reveal(AnnounceCancel::spec_parse);
        lemma_parse_string_prefix(s, k);
    }
}

} // verus!
