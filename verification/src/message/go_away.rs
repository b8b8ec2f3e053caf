//! GOAWAY: the server asks the client to move to another session.

use crate::codec::string::{
    deserialize_string, lemma_parse_string_prefix, lemma_parse_write_string,
    serialize_string, spec_parse_string, spec_write_string,
};
use crate::codec::{
    decoded, spec_failure, spec_read, spec_reads_only_its_bytes, spec_taken, Output, Parsed,
};
use crate::error::{Error, ErrorKind};
use vstd::prelude::*;

verus! {

/// The body of a GOAWAY message.
#[derive(Debug, Clone, Eq, PartialEq)]
pub struct GoAway {
    pub new_session_uri: String,
}

/// The mathematical content of a [`GoAway`].
pub struct GoAwayView {
    pub new_session_uri: Seq<char>,
}

impl View for GoAway {
    type V = GoAwayView;

    open spec fn view(&self) -> GoAwayView {
        GoAwayView {
            new_session_uri: self.new_session_uri@,
        }
    }
}

impl Default for GoAway {
    fn default() -> (r: Self)
        ensures
            r@.new_session_uri.len() == 0,
    {
        GoAway {
            new_session_uri: String::new(),
        }
    }
}

impl GoAway {
    /// Encoding the body into a vector that holds `len` bytes: the address of
    /// the new session.
    #[verifier::opaque]
    pub open spec fn spec_write(len: nat, v: GoAwayView) -> Output {
        spec_write_string(len, v.new_session_uri)
    }

    /// What decoding the body reads from the front of `s`.
    #[verifier::opaque]
    pub open spec fn spec_parse(s: Seq<u8>) -> Parsed<GoAwayView> {
        let new_session_uri = spec_parse_string(s);
        let at1 = spec_taken(new_session_uri);
        if new_session_uri is Err {
            Err(spec_failure(new_session_uri))
        } else {
            Ok(
                (
                    GoAwayView {
                        new_session_uri: spec_read(new_session_uri),
                    },
                    at1,
                ),
            )
        }
    }

    /// Reads the body from the front of `buf`.
    pub fn deserialize(buf: &[u8]) -> (r: Result<(Self, usize), Error>)
        ensures
            decoded(r) == GoAway::spec_parse(buf@),
            r matches Ok((_, n)) ==> 1 <= n <= buf@.len(),
    {
        proof {
            reveal(GoAway::spec_parse);
        }
        let (new_session_uri, n0) = deserialize_string(buf)?;
        let at = n0;
        Ok((GoAway { new_session_uri }, at))
    }

    /// Appends the body to `w`.
    pub fn serialize(&self, w: &mut Vec<u8>) -> (r: Result<usize, Error>)
        ensures
            GoAway::spec_write(old(w)@.len(), self@).describes(old(w)@, final(w)@, r),
    {
        proof {
            reveal(GoAway::spec_write);
        }
        serialize_string(&self.new_session_uri, w)
    }

    /// Decoding an encoded body gives it back and takes exactly the encoded
    /// bytes, whatever follows them.
    pub proof fn lemma_parse_write(len: nat, v: GoAwayView, rest: Seq<u8>)
        requires
            GoAway::spec_write(len, v).error is None,
        ensures
            GoAway::spec_parse(GoAway::spec_write(len, v).bytes + rest) == Ok::<_, ErrorKind>(
                (v, GoAway::spec_write(len, v).bytes.len()),
            ),
    {
        reveal(GoAway::spec_write);
        reveal(GoAway::spec_parse);
        lemma_parse_write_string(len, v.new_session_uri, rest);
    }

    /// Decoding the body looks at no byte beyond those it takes.
    pub proof fn lemma_parse_prefix(s: Seq<u8>, k: int)
        requires
            0 <= k <= s.len(),
        ensures
            spec_reads_only_its_bytes(GoAway::spec_parse(s), GoAway::spec_parse(s.take(k)), k),
    {
        reveal(GoAway::spec_parse);
        lemma_parse_string_prefix(s, k);
    }
}

} // verus!
