//! SERVER_SETUP: the server settles the version of a session.

use crate::codec::{
    also, decoded, lemma_followed_by, lemma_split_input, spec_failure, spec_read,
    spec_reads_only_its_bytes, spec_taken, Output, Parsed,
};
use crate::error::{Error, ErrorKind};
use crate::message::setup::{
    deserialize_role_parameters, lemma_parse_role_parameters_prefix,
    lemma_parse_write_role_parameters, serialize_role_parameters,
    spec_parse_role_parameters, spec_write_role_parameters,
};
use crate::message::{Role, Version};
use vstd::prelude::*;
use vstd::slice::slice_subrange;

verus! {

/// The body of a SERVER_SETUP message.
#[derive(Debug, Clone, Eq, PartialEq)]
pub struct ServerSetup {
    pub selected_version: Version,
    pub role: Role,
}

/// The mathematical content of a [`ServerSetup`].
pub struct ServerSetupView {
    pub selected_version: Version,
    pub role: Role,
}

impl View for ServerSetup {
    type V = ServerSetupView;

    open spec fn view(&self) -> ServerSetupView {
        ServerSetupView {
            selected_version: self.selected_version,
            role: self.role,
        }
    }
}

impl Default for ServerSetup {
    fn default() -> (r: Self)
        ensures
            r@.selected_version == Version::Draft00,
            r@.role == Role::Publisher,
    {
        ServerSetup {
            selected_version: Version::Draft00,
            role: Role::Publisher,
        }
    }
}

impl ServerSetup {
    /// Encoding the body into a vector that holds `len` bytes: the version that
    /// the server has chosen, the parameter block, which names the role of the
    /// server.
    #[verifier::opaque]
    pub open spec fn spec_write(len: nat, v: ServerSetupView) -> Output {
        let c0 = Version::spec_write(len, v.selected_version);
        c0.followed_by(spec_write_role_parameters(len + c0.bytes.len(), v.role))
    }

    /// What decoding the body reads from the front of `s`.
    #[verifier::opaque]
    pub open spec fn spec_parse(s: Seq<u8>) -> Parsed<ServerSetupView> {
        let selected_version = Version::spec_parse(s);
        let at1 = spec_taken(selected_version);
        let role = spec_parse_role_parameters(s.skip(at1 as int));
        let at2 = at1 + spec_taken(role);
        if selected_version is Err {
            Err(spec_failure(selected_version))
        } else if role is Err {
            Err(spec_failure(role))
        } else {
            Ok(
                (
                    ServerSetupView {
                        selected_version: spec_read(selected_version),
                        role: spec_read(role),
                    },
                    at2,
                ),
            )
        }
    }

    /// Reads the body from the front of `buf`.
    pub fn deserialize(buf: &[u8]) -> (r: Result<(Self, usize), Error>)
        ensures
            decoded(r) == ServerSetup::spec_parse(buf@),
            r matches Ok((_, n)) ==> 1 <= n <= buf@.len(),
    {
        proof {
            reveal(ServerSetup::spec_parse);
        }
        let (selected_version, n0) = Version::decode(buf)?;
        let at = n0;
        let (role, n1) = deserialize_role_parameters(slice_subrange(buf, at, buf.len()))?;
        let at = at + n1;
        Ok((ServerSetup { selected_version, role }, at))
    }

    /// Appends the body to `w`.
    pub fn serialize(&self, w: &mut Vec<u8>) -> (r: Result<usize, Error>)
        ensures
            ServerSetup::spec_write(old(w)@.len(), self@).describes(old(w)@, final(w)@, r),
    {
        proof {
            reveal(ServerSetup::spec_write);
        }
        let ghost v = self@;
        let ghost s0 = w@;
        let ghost c0 = Version::spec_write(s0.len(), v.selected_version);
        let l = self.selected_version.encode(w)?;
        let ghost s1 = w@;
        let ghost o1 = spec_write_role_parameters(s1.len(), v.role);
        let r = serialize_role_parameters(self.role, w);
        also(l, r, Ghost(c0), Ghost(o1), Ghost(s0), Ghost(s1), &*w)
    }

    /// Decoding an encoded body gives it back and takes exactly the encoded
    /// bytes, whatever follows them.
    pub proof fn lemma_parse_write(len: nat, v: ServerSetupView, rest: Seq<u8>)
        requires
            ServerSetup::spec_write(len, v).error is None,
        ensures
            ServerSetup::spec_parse(ServerSetup::spec_write(len, v).bytes + rest) == Ok::<
                _,
                ErrorKind,
            >((v, ServerSetup::spec_write(len, v).bytes.len())),
    {
        reveal(ServerSetup::spec_write);
        reveal(ServerSetup::spec_parse);
        let o0 = Version::spec_write(len, v.selected_version);
        let c0 = o0;
        let o1 = spec_write_role_parameters(len + c0.bytes.len(), v.role);
        let c1 = c0.followed_by(o1);
        assert(ServerSetup::spec_write(len, v) == c1);
        lemma_followed_by(c0, o1);
        let s = ServerSetup::spec_write(len, v).bytes + rest;
        let t1 = rest;
        let t0 = o1.bytes + t1;
        lemma_split_input(c0.bytes, o1.bytes, t1);
        let n0 = o0.bytes.len();
        let n1 = o1.bytes.len();
        assert(s == o0.bytes + t0);
        assert(s.skip(n0 as int) == t0);
        assert(Version::spec_parse(s) == Ok::<_, ErrorKind>((v.selected_version, n0))) by {
            Version::lemma_parse_write(len, v.selected_version, t0);
        }
        assert(spec_parse_role_parameters(t0) == Ok::<_, ErrorKind>((v.role, n1))) by {
            lemma_parse_write_role_parameters(len + c0.bytes.len(), v.role, t1);
        }
    }

    /// Decoding the body looks at no byte beyond those it takes.
    pub proof fn lemma_parse_prefix(s: Seq<u8>, k: int)
        requires
            0 <= k <= s.len(),
        ensures
            spec_reads_only_its_bytes(
                ServerSetup::spec_parse(s),
                ServerSetup::spec_parse(s.take(k)),
                k,
            ),
    {
        reveal(ServerSetup::spec_parse);
        let p = s.take(k);
        if ServerSetup::spec_parse(s) is Ok {
            Version::lemma_parse_prefix(s, k);
            let at1 = spec_taken(Version::spec_parse(s));
            if at1 <= k {
                assert(p.skip(at1 as int) =~= s.skip(at1 as int).take(k - at1));
                lemma_parse_role_parameters_prefix(s.skip(at1 as int), k - at1);
            }
        }
    }
}

} // verus!
