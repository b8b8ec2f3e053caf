//! CLIENT_SETUP: the client opens a session and offers the versions it speaks.

use crate::codec::{
    also, decoded, lemma_followed_by, lemma_split_input, spec_failure, spec_read,
    spec_reads_only_its_bytes, spec_taken, spec_text, Output, Parsed,
};
use crate::error::{Error, ErrorKind};
use crate::message::setup::{
    deserialize_setup_parameters, deserialize_versions, lemma_parse_setup_parameters_prefix,
    lemma_parse_versions_prefix, lemma_parse_write_setup_parameters,
    lemma_parse_write_versions, serialize_setup_parameters, serialize_versions,
    spec_parse_setup_parameters, spec_parse_versions, spec_write_setup_parameters,
    spec_write_versions,
};
use crate::message::{Role, Version};
use vstd::prelude::*;
use vstd::slice::slice_subrange;

verus! {

/// The body of a CLIENT_SETUP message.
#[derive(Debug, Clone, Eq, PartialEq)]
pub struct ClientSetup {
    pub supported_versions: Vec<Version>,
    /// The part that the client plays.
    pub role: Role,
    /// The path that the client asks for, where the transport has none of its
    /// own.
    pub path: Option<String>,
}

/// The mathematical content of a [`ClientSetup`].
pub struct ClientSetupView {
    pub supported_versions: Seq<Version>,
    pub role: Role,
    pub path: Option<Seq<char>>,
}

impl View for ClientSetup {
    type V = ClientSetupView;

    open spec fn view(&self) -> ClientSetupView {
        ClientSetupView {
            supported_versions: self.supported_versions@,
            role: self.role,
            path: spec_text(self.path),
        }
    }
}

impl Default for ClientSetup {
    fn default() -> (r: Self)
        ensures
            r@.supported_versions.len() == 0,
            r@.role == Role::Publisher,
            r@.path is None,
    {
        ClientSetup {
            supported_versions: Vec::new(),
            role: Role::Publisher,
            path: None,
        }
    }
}

impl ClientSetup {
    /// Encoding the body into a vector that holds `len` bytes: the versions
    /// that the client offers, the parameter block, which names the role of the
    /// client and may name a path.
    #[verifier::opaque]
    pub open spec fn spec_write(len: nat, v: ClientSetupView) -> Output {
        let c0 = spec_write_versions(len, v.supported_versions);
        c0.followed_by(spec_write_setup_parameters(len + c0.bytes.len(), (v.role, v.path)))
    }

    /// What decoding the body reads from the front of `s`.
    #[verifier::opaque]
    pub open spec fn spec_parse(s: Seq<u8>) -> Parsed<ClientSetupView> {
        let supported_versions = spec_parse_versions(s);
        let at1 = spec_taken(supported_versions);
        let setup = spec_parse_setup_parameters(s.skip(at1 as int));
        let at2 = at1 + spec_taken(setup);
        if supported_versions is Err {
            Err(spec_failure(supported_versions))
        } else if setup is Err {
            Err(spec_failure(setup))
        } else {
            Ok(
                (
                    ClientSetupView {
                        supported_versions: spec_read(supported_versions),
                        role: spec_read(setup).0,
                        path: spec_read(setup).1,
                    },
                    at2,
                ),
            )
        }
    }

    /// Reads the body from the front of `buf`.
    pub fn deserialize(buf: &[u8]) -> (r: Result<(Self, usize), Error>)
        ensures
            decoded(r) == ClientSetup::spec_parse(buf@),
            r matches Ok((_, n)) ==> 1 <= n <= buf@.len(),
    {
        proof {
            reveal(ClientSetup::spec_parse);
        }
        let (supported_versions, n0) = deserialize_versions(buf)?;
        let at = n0;
        let ((role, path), n1) = deserialize_setup_parameters(slice_subrange(buf, at, buf.len()))?;
        let at = at + n1;
        Ok((ClientSetup { supported_versions, role, path }, at))
    }

    /// Appends the body to `w`.
    pub fn serialize(&self, w: &mut Vec<u8>) -> (r: Result<usize, Error>)
        ensures
            ClientSetup::spec_write(old(w)@.len(), self@).describes(old(w)@, final(w)@, r),
    {
        proof {
            reveal(ClientSetup::spec_write);
        }
        let ghost v = self@;
        let ghost s0 = w@;
        let ghost c0 = spec_write_versions(s0.len(), v.supported_versions);
        let l = serialize_versions(&self.supported_versions, w)?;
        let ghost s1 = w@;
        let ghost o1 = spec_write_setup_parameters(s1.len(), (v.role, v.path));
        let r = serialize_setup_parameters(self.role, &self.path, w);
        also(l, r, Ghost(c0), Ghost(o1), Ghost(s0), Ghost(s1), &*w)
    }

    /// Decoding an encoded body gives it back and takes exactly the encoded
    /// bytes, whatever follows them.
    pub proof fn lemma_parse_write(len: nat, v: ClientSetupView, rest: Seq<u8>)
        requires
            ClientSetup::spec_write(len, v).error is None,
        ensures
            ClientSetup::spec_parse(ClientSetup::spec_write(len, v).bytes + rest) == Ok::<
                _,
                ErrorKind,
            >((v, ClientSetup::spec_write(len, v).bytes.len())),
    {
        reveal(ClientSetup::spec_write);
        reveal(ClientSetup::spec_parse);
        let o0 = spec_write_versions(len, v.supported_versions);
        let c0 = o0;
        let o1 = spec_write_setup_parameters(len + c0.bytes.len(), (v.role, v.path));
        let c1 = c0.followed_by(o1);
        assert(ClientSetup::spec_write(len, v) == c1);
        lemma_followed_by(c0, o1);
        let s = ClientSetup::spec_write(len, v).bytes + rest;
        let t1 = rest;
        let t0 = o1.bytes + t1;
        lemma_split_input(c0.bytes, o1.bytes, t1);
        let n0 = o0.bytes.len();
        let n1 = o1.bytes.len();
        assert(s == o0.bytes + t0);
        assert(s.skip(n0 as int) == t0);
        assert(spec_parse_versions(s) == Ok::<_, ErrorKind>((v.supported_versions, n0))) by {
            lemma_parse_write_versions(len, v.supported_versions, t0);
        }
        assert(spec_parse_setup_parameters(t0) == Ok::<_, ErrorKind>(((v.role, v.path), n1))) by {
            lemma_parse_write_setup_parameters(len + c0.bytes.len(), (v.role, v.path), t1);
        }
    }

    /// Decoding the body looks at no byte beyond those it takes.
    pub proof fn lemma_parse_prefix(s: Seq<u8>, k: int)
        requires
            0 <= k <= s.len(),
        ensures
            spec_reads_only_its_bytes(
                ClientSetup::spec_parse(s),
                ClientSetup::spec_parse(s.take(k)),
                k,
            ),
    {
        reveal(ClientSetup::spec_parse);
        let p = s.take(k);
        if ClientSetup::spec_parse(s) is Ok {
            lemma_parse_versions_prefix(s, k);
            let at1 = spec_taken(spec_parse_versions(s));
            if at1 <= k {
                assert(p.skip(at1 as int) =~= s.skip(at1 as int).take(k - at1));
                lemma_parse_setup_parameters_prefix(s.skip(at1 as int), k - at1);
            }
        }
    }
}

} // verus!
