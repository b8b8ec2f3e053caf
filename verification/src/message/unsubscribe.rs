//! UNSUBSCRIBE: the subscriber ends a subscription.

use crate::codec::varint::{
    deserialize_u64, lemma_parse_u64_prefix, lemma_parse_write_u64, serialize_u64,
    spec_parse_varint, spec_write_u64,
};
use crate::codec::{
    decoded, spec_failure, spec_read, spec_reads_only_its_bytes, spec_taken, Output, Parsed,
};
use crate::error::{Error, ErrorKind};
use vstd::prelude::*;

verus! {

/// The body of an UNSUBSCRIBE message.
#[derive(Debug, Clone, Eq, PartialEq)]
pub struct UnSubscribe {
    pub subscribe_id: u64,
}

/// The mathematical content of an [`UnSubscribe`].
pub struct UnSubscribeView {
    pub subscribe_id: u64,
}

impl View for UnSubscribe {
    type V = UnSubscribeView;

    open spec fn view(&self) -> UnSubscribeView {
        UnSubscribeView {
            subscribe_id: self.subscribe_id,
        }
    }
}

impl Default for UnSubscribe {
    fn default() -> (r: Self)
        ensures
            r@.subscribe_id == 0,
    {
        UnSubscribe {
            subscribe_id: 0,
        }
    }
}

impl UnSubscribe {
    /// Encoding the body into a vector that holds `len` bytes: the
    /// subscription.
    #[verifier::opaque]
    pub open spec fn spec_write(len: nat, v: UnSubscribeView) -> Output {
        spec_write_u64(len, v.subscribe_id)
    }

    /// What decoding the body reads from the front of `s`.
    #[verifier::opaque]
    pub open spec fn spec_parse(s: Seq<u8>) -> Parsed<UnSubscribeView> {
        let subscribe_id = spec_parse_varint(s);
        let at1 = spec_taken(subscribe_id);
        if subscribe_id is Err {
            Err(spec_failure(subscribe_id))
        } else {
            Ok(
                (
                    UnSubscribeView {
                        subscribe_id: spec_read(subscribe_id),
                    },
                    at1,
                ),
            )
        }
    }

    /// Reads the body from the front of `buf`.
    pub fn deserialize(buf: &[u8]) -> (r: Result<(Self, usize), Error>)
        ensures
            decoded(r) == UnSubscribe::spec_parse(buf@),
            r matches Ok((_, n)) ==> 1 <= n <= buf@.len(),
    {
        proof {
            reveal(UnSubscribe::spec_parse);
        }
        let (subscribe_id, n0) = deserialize_u64(buf)?;
        let at = n0;
        Ok((UnSubscribe { subscribe_id }, at))
    }

    /// Appends the body to `w`.
    pub fn serialize(&self, w: &mut Vec<u8>) -> (r: Result<usize, Error>)
        ensures
            UnSubscribe::spec_write(old(w)@.len(), self@).describes(old(w)@, final(w)@, r),
    {
        proof {
            reveal(UnSubscribe::spec_write);
        }
        serialize_u64(self.subscribe_id, w)
    }

    /// Decoding an encoded body gives it back and takes exactly the encoded
    /// bytes, whatever follows them.
    pub proof fn lemma_parse_write(len: nat, v: UnSubscribeView, rest: Seq<u8>)
        requires
            UnSubscribe::spec_write(len, v).error is None,
        ensures
            UnSubscribe::spec_parse(UnSubscribe::spec_write(len, v).bytes + rest) == Ok::<
                _,
                ErrorKind,
            >((v, UnSubscribe::spec_write(len, v).bytes.len())),
    {
        reveal(UnSubscribe::spec_write);
        reveal(UnSubscribe::spec_parse);
        lemma_parse_write_u64(len, v.subscribe_id, rest);
    }

    /// Decoding the body looks at no byte beyond those it takes.
    pub proof fn lemma_parse_prefix(s: Seq<u8>, k: int)
        requires
            0 <= k <= s.len(),
        ensures
            spec_reads_only_its_bytes(
                UnSubscribe::spec_parse(s),
                UnSubscribe::spec_parse(s.take(k)),
                k,
            ),
    {
        reveal(UnSubscribe::spec_parse);
        lemma_parse_u64_prefix(s, k);
    }
}

} // verus!
