//! SUBSCRIBE_UPDATE: the subscriber moves the window of a subscription.

use crate::codec::varint::{
    deserialize_u64, lemma_parse_u64_prefix, lemma_parse_write_u64, serialize_u64,
    spec_parse_varint, spec_write_u64,
};
use crate::codec::{
    also, decoded, lemma_followed_by, lemma_split_input, spec_failure, spec_read,
    spec_reads_only_its_bytes, spec_taken, spec_text, Output, Parsed,
};
use crate::error::{Error, ErrorKind};
use crate::message::authorization::{
    deserialize_authorization_block, lemma_parse_authorization_block_prefix,
    lemma_parse_write_authorization_block, serialize_authorization_block,
    spec_parse_authorization_block, spec_write_authorization_block,
};
use vstd::prelude::*;
use vstd::slice::slice_subrange;

verus! {

/// The body of a SUBSCRIBE_UPDATE message.
#[derive(Debug, Clone, Eq, PartialEq)]
pub struct SubscribeUpdate {
    pub subscribe_id: u64,
    pub start_group: u64,
    pub start_object: u64,
    /// The last group plus one, or zero where the subscription has no end.
    pub end_group: u64,
    /// The last object plus one, or zero where the whole last group is asked
    /// for.
    pub end_object: u64,
    pub authorization_info: Option<String>,
}

/// The mathematical content of a [`SubscribeUpdate`].
pub struct SubscribeUpdateView {
    pub subscribe_id: u64,
    pub start_group: u64,
    pub start_object: u64,
    pub end_group: u64,
    pub end_object: u64,
    pub authorization_info: Option<Seq<char>>,
}

impl View for SubscribeUpdate {
    type V = SubscribeUpdateView;

    open spec fn view(&self) -> SubscribeUpdateView {
        SubscribeUpdateView {
            subscribe_id: self.subscribe_id,
            start_group: self.start_group,
            start_object: self.start_object,
            end_group: self.end_group,
            end_object: self.end_object,
            authorization_info: spec_text(self.authorization_info),
        }
    }
}

impl Default for SubscribeUpdate {
    fn default() -> (r: Self)
        ensures
            r@.subscribe_id == 0,
            r@.start_group == 0,
            r@.start_object == 0,
            r@.end_group == 0,
            r@.end_object == 0,
            r@.authorization_info is None,
    {
        SubscribeUpdate {
            subscribe_id: 0,
            start_group: 0,
            start_object: 0,
            end_group: 0,
            end_object: 0,
            authorization_info: None,
        }
    }
}

/// The text that reports a second authorization parameter.
pub open spec fn spec_reason_duplicate_authorization() -> Seq<char> {
    "AUTHORIZATION_INFO parameter appears twice in SUBSCRIBE_UPDATE"@
}

impl SubscribeUpdate {
    /// Encoding the body into a vector that holds `len` bytes: the
    /// subscription, the first group and object, the last group and object, the
    /// parameter block.
    #[verifier::opaque]
    pub open spec fn spec_write(len: nat, v: SubscribeUpdateView) -> Output {
        let c0 = spec_write_u64(len, v.subscribe_id);
        let c1 = c0.followed_by(spec_write_u64(len + c0.bytes.len(), v.start_group));
        let c2 = c1.followed_by(spec_write_u64(len + c1.bytes.len(), v.start_object));
        let c3 = c2.followed_by(spec_write_u64(len + c2.bytes.len(), v.end_group));
        let c4 = c3.followed_by(spec_write_u64(len + c3.bytes.len(), v.end_object));
        c4.followed_by(spec_write_authorization_block(len + c4.bytes.len(), v.authorization_info))
    }

    /// What decoding the body reads from the front of `s`.
    #[verifier::opaque]
    pub open spec fn spec_parse(s: Seq<u8>) -> Parsed<SubscribeUpdateView> {
        let subscribe_id = spec_parse_varint(s);
        let at1 = spec_taken(subscribe_id);
        let start_group = spec_parse_varint(s.skip(at1 as int));
        let at2 = at1 + spec_taken(start_group);
        let start_object = spec_parse_varint(s.skip(at2 as int));
        let at3 = at2 + spec_taken(start_object);
        let end_group = spec_parse_varint(s.skip(at3 as int));
        let at4 = at3 + spec_taken(end_group);
        let end_object = spec_parse_varint(s.skip(at4 as int));
        let at5 = at4 + spec_taken(end_object);
        let authorization_info = spec_parse_authorization_block(
            s.skip(at5 as int),
            spec_reason_duplicate_authorization(),
        );
        let at6 = at5 + spec_taken(authorization_info);
        if subscribe_id is Err {
            Err(spec_failure(subscribe_id))
        } else if start_group is Err {
            Err(spec_failure(start_group))
        } else if start_object is Err {
            Err(spec_failure(start_object))
        } else if end_group is Err {
            Err(spec_failure(end_group))
        } else if end_object is Err {
            Err(spec_failure(end_object))
        } else if authorization_info is Err {
            Err(spec_failure(authorization_info))
        } else {
            Ok(
                (
                    SubscribeUpdateView {
                        subscribe_id: spec_read(subscribe_id),
                        start_group: spec_read(start_group),
                        start_object: spec_read(start_object),
                        end_group: spec_read(end_group),
                        end_object: spec_read(end_object),
                        authorization_info: spec_read(authorization_info),
                    },
                    at6,
                ),
            )
        }
    }

    /// Reads the body from the front of `buf`.
    pub fn deserialize(buf: &[u8]) -> (r: Result<(Self, usize), Error>)
        ensures
            decoded(r) == SubscribeUpdate::spec_parse(buf@),
            r matches Ok((_, n)) ==> 1 <= n <= buf@.len(),
    {
        proof {
            reveal(SubscribeUpdate::spec_parse);
        }
        let (subscribe_id, n0) = deserialize_u64(buf)?;
        let at = n0;
        let (start_group, n1) = deserialize_u64(slice_subrange(buf, at, buf.len()))?;
        let at = at + n1;
        let (start_object, n2) = deserialize_u64(slice_subrange(buf, at, buf.len()))?;
        let at = at + n2;
        let (end_group, n3) = deserialize_u64(slice_subrange(buf, at, buf.len()))?;
        let at = at + n3;
        let (end_object, n4) = deserialize_u64(slice_subrange(buf, at, buf.len()))?;
        let at = at + n4;
        let (authorization_info, n5) = deserialize_authorization_block(
            slice_subrange(buf, at, buf.len()),
            "AUTHORIZATION_INFO parameter appears twice in SUBSCRIBE_UPDATE",
        )?;
        let at = at + n5;
        Ok(
            (
                SubscribeUpdate {
                    subscribe_id,
                    start_group,
                    start_object,
                    end_group,
                    end_object,
                    authorization_info,
                },
                at,
            ),
        )
    }

    /// Appends the body to `w`.
    pub fn serialize(&self, w: &mut Vec<u8>) -> (r: Result<usize, Error>)
        ensures
            SubscribeUpdate::spec_write(old(w)@.len(), self@).describes(old(w)@, final(w)@, r),
    {
        proof {
            reveal(SubscribeUpdate::spec_write);
        }
        let ghost v = self@;
        let ghost s0 = w@;
        let ghost c0 = spec_write_u64(s0.len(), v.subscribe_id);
        let l = serialize_u64(self.subscribe_id, w)?;
        let ghost s1 = w@;
        let ghost o1 = spec_write_u64(s1.len(), v.start_group);
        let r = serialize_u64(self.start_group, w);
        let l = also(l, r, Ghost(c0), Ghost(o1), Ghost(s0), Ghost(s1), &*w)?;
        let ghost c1 = c0.followed_by(o1);
        let ghost s2 = w@;
        let ghost o2 = spec_write_u64(s2.len(), v.start_object);
        let r = serialize_u64(self.start_object, w);
        let l = also(l, r, Ghost(c1), Ghost(o2), Ghost(s0), Ghost(s2), &*w)?;
        let ghost c2 = c1.followed_by(o2);
        let ghost s3 = w@;
        let ghost o3 = spec_write_u64(s3.len(), v.end_group);
        let r = serialize_u64(self.end_group, w);
        let l = also(l, r, Ghost(c2), Ghost(o3), Ghost(s0), Ghost(s3), &*w)?;
        let ghost c3 = c2.followed_by(o3);
        let ghost s4 = w@;
        let ghost o4 = spec_write_u64(s4.len(), v.end_object);
        let r = serialize_u64(self.end_object, w);
        let l = also(l, r, Ghost(c3), Ghost(o4), Ghost(s0), Ghost(s4), &*w)?;
        let ghost c4 = c3.followed_by(o4);
        let ghost s5 = w@;
        let ghost o5 = spec_write_authorization_block(s5.len(), v.authorization_info);
        let r = serialize_authorization_block(&self.authorization_info, w);
        also(l, r, Ghost(c4), Ghost(o5), Ghost(s0), Ghost(s5), &*w)
    }

    /// Decoding an encoded body gives it back and takes exactly the encoded
    /// bytes, whatever follows them.
    pub proof fn lemma_parse_write(len: nat, v: SubscribeUpdateView, rest: Seq<u8>)
        requires
            SubscribeUpdate::spec_write(len, v).error is None,
        ensures
            SubscribeUpdate::spec_parse(SubscribeUpdate::spec_write(len, v).bytes + rest) == Ok::<
                _,
                ErrorKind,
            >((v, SubscribeUpdate::spec_write(len, v).bytes.len())),
    {
        reveal(SubscribeUpdate::spec_write);
        reveal(SubscribeUpdate::spec_parse);
        let o0 = spec_write_u64(len, v.subscribe_id);
        let c0 = o0;
        let o1 = spec_write_u64(len + c0.bytes.len(), v.start_group);
        let c1 = c0.followed_by(o1);
        let o2 = spec_write_u64(len + c1.bytes.len(), v.start_object);
        let c2 = c1.followed_by(o2);
        let o3 = spec_write_u64(len + c2.bytes.len(), v.end_group);
        let c3 = c2.followed_by(o3);
        let o4 = spec_write_u64(len + c3.bytes.len(), v.end_object);
        let c4 = c3.followed_by(o4);
        let o5 = spec_write_authorization_block(len + c4.bytes.len(), v.authorization_info);
        let c5 = c4.followed_by(o5);
        assert(SubscribeUpdate::spec_write(len, v) == c5);
        lemma_followed_by(c4, o5);
        lemma_followed_by(c3, o4);
        lemma_followed_by(c2, o3);
        lemma_followed_by(c1, o2);
        lemma_followed_by(c0, o1);
        let s = SubscribeUpdate::spec_write(len, v).bytes + rest;
        let t5 = rest;
        let t4 = o5.bytes + t5;
        let t3 = o4.bytes + t4;
        let t2 = o3.bytes + t3;
        let t1 = o2.bytes + t2;
        let t0 = o1.bytes + t1;
        lemma_split_input(c4.bytes, o5.bytes, t5);
        lemma_split_input(c3.bytes, o4.bytes, t4);
        lemma_split_input(c2.bytes, o3.bytes, t3);
        lemma_split_input(c1.bytes, o2.bytes, t2);
        lemma_split_input(c0.bytes, o1.bytes, t1);
        let n0 = o0.bytes.len();
        let n1 = o1.bytes.len();
        let n2 = o2.bytes.len();
        let n3 = o3.bytes.len();
        let n4 = o4.bytes.len();
        let n5 = o5.bytes.len();
        assert(s == o0.bytes + t0);
        assert(s.skip(n0 as int) == t0);
        assert(s.skip((n0 + n1) as int) == t1);
        assert(s.skip((n0 + n1 + n2) as int) == t2);
        assert(s.skip((n0 + n1 + n2 + n3) as int) == t3);
        assert(s.skip((n0 + n1 + n2 + n3 + n4) as int) == t4);
        assert(spec_parse_varint(s) == Ok::<_, ErrorKind>((v.subscribe_id, n0))) by {
            lemma_parse_write_u64(len, v.subscribe_id, t0);
        }
        assert(spec_parse_varint(t0) == Ok::<_, ErrorKind>((v.start_group, n1))) by {
            lemma_parse_write_u64(len + c0.bytes.len(), v.start_group, t1);
        }
        assert(spec_parse_varint(t1) == Ok::<_, ErrorKind>((v.start_object, n2))) by {
            lemma_parse_write_u64(len + c1.bytes.len(), v.start_object, t2);
        }
        assert(spec_parse_varint(t2) == Ok::<_, ErrorKind>((v.end_group, n3))) by {
            lemma_parse_write_u64(len + c2.bytes.len(), v.end_group, t3);
        }
        assert(spec_parse_varint(t3) == Ok::<_, ErrorKind>((v.end_object, n4))) by {
            lemma_parse_write_u64(len + c3.bytes.len(), v.end_object, t4);
        }
        assert(spec_parse_authorization_block(t4, spec_reason_duplicate_authorization()) == Ok::<
            _,
            ErrorKind,
        >((v.authorization_info, n5))) by {
            lemma_parse_write_authorization_block(
                len + c4.bytes.len(),
                v.authorization_info,
                spec_reason_duplicate_authorization(),
                t5,
            );
        }
    }

    /// Decoding the body looks at no byte beyond those it takes.
    pub proof fn lemma_parse_prefix(s: Seq<u8>, k: int)
        requires
            0 <= k <= s.len(),
        ensures
            spec_reads_only_its_bytes(
                SubscribeUpdate::spec_parse(s),
                SubscribeUpdate::spec_parse(s.take(k)),
                k,
            ),
    {
        reveal(SubscribeUpdate::spec_parse);
        let p = s.take(k);
        if SubscribeUpdate::spec_parse(s) is Ok {
            lemma_parse_u64_prefix(s, k);
            let at1 = spec_taken(spec_parse_varint(s));
            if at1 <= k {
                assert(p.skip(at1 as int) =~= s.skip(at1 as int).take(k - at1));
                lemma_parse_u64_prefix(s.skip(at1 as int), k - at1);
            }
            let at2 = at1 + spec_taken(spec_parse_varint(s.skip(at1 as int)));
            if at2 <= k {
                assert(p.skip(at2 as int) =~= s.skip(at2 as int).take(k - at2));
                lemma_parse_u64_prefix(s.skip(at2 as int), k - at2);
            }
            let at3 = at2 + spec_taken(spec_parse_varint(s.skip(at2 as int)));
            if at3 <= k {
                assert(p.skip(at3 as int) =~= s.skip(at3 as int).take(k - at3));
                lemma_parse_u64_prefix(s.skip(at3 as int), k - at3);
            }
            let at4 = at3 + spec_taken(spec_parse_varint(s.skip(at3 as int)));
            if at4 <= k {
                assert(p.skip(at4 as int) =~= s.skip(at4 as int).take(k - at4));
                lemma_parse_u64_prefix(s.skip(at4 as int), k - at4);
            }
            let at5 = at4 + spec_taken(spec_parse_varint(s.skip(at4 as int)));
            if at5 <= k {
                assert(p.skip(at5 as int) =~= s.skip(at5 as int).take(k - at5));
                lemma_parse_authorization_block_prefix(
                    s.skip(at5 as int),
                    spec_reason_duplicate_authorization(),
                    k - at5,
                );
            }
        }
    }
}

} // verus!
