//! SUBSCRIBE: a request for the objects of a track.

use crate::codec::string::{
    deserialize_string, lemma_parse_string_prefix, lemma_parse_write_string,
    serialize_string, spec_parse_string, spec_write_string,
};
use crate::codec::varint::{
    deserialize_u64, lemma_parse_u64_prefix, lemma_parse_write_u64, serialize_u64,
    spec_parse_varint, spec_write_u64,
};
use crate::codec::{
    also, decoded, lemma_followed_by, lemma_split_input, spec_failure, spec_read,
    spec_reads_only_its_bytes, spec_taken, spec_text, Output, Parsed,
};
use crate::error::{Error, ErrorKind};
use crate::message::authorization::{
    deserialize_authorization_block, lemma_parse_authorization_block_prefix,
    lemma_parse_write_authorization_block, serialize_authorization_block,
    spec_parse_authorization_block, spec_write_authorization_block,
};
use crate::message::FilterType;
use vstd::prelude::*;
use vstd::slice::slice_subrange;

verus! {

/// The body of a SUBSCRIBE message.
#[derive(Debug, Clone, Eq, PartialEq)]
pub struct Subscribe {
    pub subscribe_id: u64,
    pub track_alias: u64,
    pub track_namespace: String,
    pub track_name: String,
    pub filter_type: FilterType,
    pub authorization_info: Option<String>,
}

/// The mathematical content of a [`Subscribe`].
pub struct SubscribeView {
    pub subscribe_id: u64,
    pub track_alias: u64,
    pub track_namespace: Seq<char>,
    pub track_name: Seq<char>,
    pub filter_type: FilterType,
    pub authorization_info: Option<Seq<char>>,
}

impl View for Subscribe {
    type V = SubscribeView;

    open spec fn view(&self) -> SubscribeView {
        SubscribeView {
            subscribe_id: self.subscribe_id,
            track_alias: self.track_alias,
            track_namespace: self.track_namespace@,
            track_name: self.track_name@,
            filter_type: self.filter_type,
            authorization_info: spec_text(self.authorization_info),
        }
    }
}

impl Default for Subscribe {
    fn default() -> (r: Self)
        ensures
            r@.subscribe_id == 0,
            r@.track_alias == 0,
            r@.track_namespace.len() == 0,
            r@.track_name.len() == 0,
            r@.filter_type == FilterType::LatestGroup,
            r@.authorization_info is None,
    {
        Subscribe {
            subscribe_id: 0,
            track_alias: 0,
            track_namespace: String::new(),
            track_name: String::new(),
            filter_type: FilterType::LatestGroup,
            authorization_info: None,
        }
    }
}

/// The text that reports a second authorization parameter.
pub open spec fn spec_reason_duplicate_authorization() -> Seq<char> {
    "AUTHORIZATION_INFO parameter appears twice in SUBSCRIBE"@
}

impl Subscribe {
    /// Encoding the body into a vector that holds `len` bytes: the
    /// subscription, the track alias, the namespace, the name, the filter, the
    /// parameter block.
    #[verifier::opaque]
    pub open spec fn spec_write(len: nat, v: SubscribeView) -> Output {
        let c0 = spec_write_u64(len, v.subscribe_id);
        let c1 = c0.followed_by(spec_write_u64(len + c0.bytes.len(), v.track_alias));
        let c2 = c1.followed_by(spec_write_string(len + c1.bytes.len(), v.track_namespace));
        let c3 = c2.followed_by(spec_write_string(len + c2.bytes.len(), v.track_name));
        let c4 = c3.followed_by(FilterType::spec_write(len + c3.bytes.len(), v.filter_type));
        c4.followed_by(spec_write_authorization_block(len + c4.bytes.len(), v.authorization_info))
    }

    /// What decoding the body reads from the front of `s`.
    #[verifier::opaque]
    pub open spec fn spec_parse(s: Seq<u8>) -> Parsed<SubscribeView> {
        let subscribe_id = spec_parse_varint(s);
        let at1 = spec_taken(subscribe_id);
        let track_alias = spec_parse_varint(s.skip(at1 as int));
        let at2 = at1 + spec_taken(track_alias);
        let track_namespace = spec_parse_string(s.skip(at2 as int));
        let at3 = at2 + spec_taken(track_namespace);
        let track_name = spec_parse_string(s.skip(at3 as int));
        let at4 = at3 + spec_taken(track_name);
        let filter_type = FilterType::spec_parse(s.skip(at4 as int));
        let at5 = at4 + spec_taken(filter_type);
        let authorization_info = spec_parse_authorization_block(
            s.skip(at5 as int),
            spec_reason_duplicate_authorization(),
        );
        let at6 = at5 + spec_taken(authorization_info);
        if subscribe_id is Err {
            Err(spec_failure(subscribe_id))
        } else if track_alias is Err {
            Err(spec_failure(track_alias))
        } else if track_namespace is Err {
            Err(spec_failure(track_namespace))
        } else if track_name is Err {
            Err(spec_failure(track_name))
        } else if filter_type is Err {
            Err(spec_failure(filter_type))
        } else if authorization_info is Err {
            Err(spec_failure(authorization_info))
        } else {
            Ok(
                (
                    SubscribeView {
                        subscribe_id: spec_read(subscribe_id),
                        track_alias: spec_read(track_alias),
                        track_namespace: spec_read(track_namespace),
                        track_name: spec_read(track_name),
                        filter_type: spec_read(filter_type),
                        authorization_info: spec_read(authorization_info),
                    },
                    at6,
                ),
            )
        }
    }

    /// Reads the body from the front of `buf`.
    pub fn deserialize(buf: &[u8]) -> (r: Result<(Self, usize), Error>)
        ensures
            decoded(r) == Subscribe::spec_parse(buf@),
            r matches Ok((_, n)) ==> 1 <= n <= buf@.len(),
    {
        proof {
            reveal(Subscribe::spec_parse);
        }
        let (subscribe_id, n0) = deserialize_u64(buf)?;
        let at = n0;
        let (track_alias, n1) = deserialize_u64(slice_subrange(buf, at, buf.len()))?;
        let at = at + n1;
        let (track_namespace, n2) = deserialize_string(slice_subrange(buf, at, buf.len()))?;
        let at = at + n2;
        let (track_name, n3) = deserialize_string(slice_subrange(buf, at, buf.len()))?;
        let at = at + n3;
        let (filter_type, n4) = FilterType::decode(slice_subrange(buf, at, buf.len()))?;
        let at = at + n4;
        let (authorization_info, n5) = deserialize_authorization_block(
            slice_subrange(buf, at, buf.len()),
            "AUTHORIZATION_INFO parameter appears twice in SUBSCRIBE",
        )?;
        let at = at + n5;
        Ok(
            (
                Subscribe {
                    subscribe_id,
                    track_alias,
                    track_namespace,
                    track_name,
                    filter_type,
                    authorization_info,
                },
                at,
            ),
        )
    }

    /// Appends the body to `w`.
    pub fn serialize(&self, w: &mut Vec<u8>) -> (r: Result<usize, Error>)
        ensures
            Subscribe::spec_write(old(w)@.len(), self@).describes(old(w)@, final(w)@, r),
    {
        proof {
            reveal(Subscribe::spec_write);
        }
        let ghost v = self@;
        let ghost s0 = w@;
        let ghost c0 = spec_write_u64(s0.len(), v.subscribe_id);
        let l = serialize_u64(self.subscribe_id, w)?;
        let ghost s1 = w@;
        let ghost o1 = spec_write_u64(s1.len(), v.track_alias);
        let r = serialize_u64(self.track_alias, w);
        let l = also(l, r, Ghost(c0), Ghost(o1), Ghost(s0), Ghost(s1), &*w)?;
        let ghost c1 = c0.followed_by(o1);
        let ghost s2 = w@;
        let ghost o2 = spec_write_string(s2.len(), v.track_namespace);
        let r = serialize_string(&self.track_namespace, w);
        let l = also(l, r, Ghost(c1), Ghost(o2), Ghost(s0), Ghost(s2), &*w)?;
        let ghost c2 = c1.followed_by(o2);
        let ghost s3 = w@;
        let ghost o3 = spec_write_string(s3.len(), v.track_name);
        let r = serialize_string(&self.track_name, w);
        let l = also(l, r, Ghost(c2), Ghost(o3), Ghost(s0), Ghost(s3), &*w)?;
        let ghost c3 = c2.followed_by(o3);
        let ghost s4 = w@;
        let ghost o4 = FilterType::spec_write(s4.len(), v.filter_type);
        let r = self.filter_type.encode(w);
        let l = also(l, r, Ghost(c3), Ghost(o4), Ghost(s0), Ghost(s4), &*w)?;
        let ghost c4 = c3.followed_by(o4);
        let ghost s5 = w@;
        let ghost o5 = spec_write_authorization_block(s5.len(), v.authorization_info);
        let r = serialize_authorization_block(&self.authorization_info, w);
        also(l, r, Ghost(c4), Ghost(o5), Ghost(s0), Ghost(s5), &*w)
    }

    /// Decoding an encoded body gives it back and takes exactly the encoded
    /// bytes, whatever follows them.
    pub proof fn lemma_parse_write(len: nat, v: SubscribeView, rest: Seq<u8>)
        requires
            Subscribe::spec_write(len, v).error is None,
        ensures
            Subscribe::spec_parse(Subscribe::spec_write(len, v).bytes + rest) == Ok::<_, ErrorKind>(
                (v, Subscribe::spec_write(len, v).bytes.len()),
            ),
    {
        reveal(Subscribe::spec_write);
        reveal(Subscribe::spec_parse);
        let o0 = spec_write_u64(len, v.subscribe_id);
        let c0 = o0;
        let o1 = spec_write_u64(len + c0.bytes.len(), v.track_alias);
        let c1 = c0.followed_by(o1);
        let o2 = spec_write_string(len + c1.bytes.len(), v.track_namespace);
        let c2 = c1.followed_by(o2);
        let o3 = spec_write_string(len + c2.bytes.len(), v.track_name);
        let c3 = c2.followed_by(o3);
        let o4 = FilterType::spec_write(len + c3.bytes.len(), v.filter_type);
        let c4 = c3.followed_by(o4);
        let o5 = spec_write_authorization_block(len + c4.bytes.len(), v.authorization_info);
        let c5 = c4.followed_by(o5);
        assert(Subscribe::spec_write(len, v) == c5);
        lemma_followed_by(c4, o5);
        lemma_followed_by(c3, o4);
        lemma_followed_by(c2, o3);
        lemma_followed_by(c1, o2);
        lemma_followed_by(c0, o1);
        let s = Subscribe::spec_write(len, v).bytes + rest;
        let t5 = rest;
        let t4 = o5.bytes + t5;
        let t3 = o4.bytes + t4;
        let t2 = o3.bytes + t3;
        let t1 = o2.bytes + t2;
        let t0 = o1.bytes + t1;
        lemma_split_input(c4.bytes, o5.bytes, t5);
        lemma_split_input(c3.bytes, o4.bytes, t4);
        lemma_split_input(c2.bytes, o3.bytes, t3);
        lemma_split_input(c1.bytes, o2.bytes, t2);
        lemma_split_input(c0.bytes, o1.bytes, t1);
        let n0 = o0.bytes.len();
        let n1 = o1.bytes.len();
        let n2 = o2.bytes.len();
        let n3 = o3.bytes.len();
        let n4 = o4.bytes.len();
        let n5 = o5.bytes.len();
        assert(s == o0.bytes + t0);
        assert(s.skip(n0 as int) == t0);
        assert(s.skip((n0 + n1) as int) == t1);
        assert(s.skip((n0 + n1 + n2) as int) == t2);
        assert(s.skip((n0 + n1 + n2 + n3) as int) == t3);
        assert(s.skip((n0 + n1 + n2 + n3 + n4) as int) == t4);
        assert(spec_parse_varint(s) == Ok::<_, ErrorKind>((v.subscribe_id, n0))) by {
            lemma_parse_write_u64(len, v.subscribe_id, t0);
        }
        assert(spec_parse_varint(t0) == Ok::<_, ErrorKind>((v.track_alias, n1))) by {
            lemma_parse_write_u64(len + c0.bytes.len(), v.track_alias, t1);
        }
        assert(spec_parse_string(t1) == Ok::<_, ErrorKind>((v.track_namespace, n2))) by {
            lemma_parse_write_string(len + c1.bytes.len(), v.track_namespace, t2);
        }
        assert(spec_parse_string(t2) == Ok::<_, ErrorKind>((v.track_name, n3))) by {
            lemma_parse_write_string(len + c2.bytes.len(), v.track_name, t3);
        }
        assert(FilterType::spec_parse(t3) == Ok::<_, ErrorKind>((v.filter_type, n4))) by {
            FilterType::lemma_parse_write(len + c3.bytes.len(), v.filter_type, t4);
        }
        assert(spec_parse_authorization_block(t4, spec_reason_duplicate_authorization()) == Ok::<
            _,
            ErrorKind,
        >((v.authorization_info, n5))) by {
            lemma_parse_write_authorization_block(
                len + c4.bytes.len(),
                v.authorization_info,
                spec_reason_duplicate_authorization(),
                t5,
            );
        }
    }

    /// Decoding the body looks at no byte beyond those it takes.
    pub proof fn lemma_parse_prefix(s: Seq<u8>, k: int)
        requires
            0 <= k <= s.len(),
        ensures
            spec_reads_only_its_bytes(
                Subscribe::spec_parse(s),
                Subscribe::spec_parse(s.take(k)),
                k,
            ),
    {
        reveal(Subscribe::spec_parse);
        let p = s.take(k);
        if Subscribe::spec_parse(s) is Ok {
            lemma_parse_u64_prefix(s, k);
            let at1 = spec_taken(spec_parse_varint(s));
            if at1 <= k {
                assert(p.skip(at1 as int) =~= s.skip(at1 as int).take(k - at1));
                lemma_parse_u64_prefix(s.skip(at1 as int), k - at1);
            }
            let at2 = at1 + spec_taken(spec_parse_varint(s.skip(at1 as int)));
            if at2 <= k {
                assert(p.skip(at2 as int) =~= s.skip(at2 as int).take(k - at2));
                lemma_parse_string_prefix(s.skip(at2 as int), k - at2);
            }
            let at3 = at2 + spec_taken(spec_parse_string(s.skip(at2 as int)));
            if at3 <= k {
                assert(p.skip(at3 as int) =~= s.skip(at3 as int).take(k - at3));
                lemma_parse_string_prefix(s.skip(at3 as int), k - at3);
            }
            let at4 = at3 + spec_taken(spec_parse_string(s.skip(at3 as int)));
            if at4 <= k {
                assert(p.skip(at4 as int) =~= s.skip(at4 as int).take(k - at4));
                FilterType::lemma_parse_prefix(s.skip(at4 as int), k - at4);
            }
            let at5 = at4 + spec_taken(FilterType::spec_parse(s.skip(at4 as int)));
            if at5 <= k {
                assert(p.skip(at5 as int) =~= s.skip(at5 as int).take(k - at5));
                lemma_parse_authorization_block_prefix(
                    s.skip(at5 as int),
                    spec_reason_duplicate_authorization(),
                    k - at5,
                );
            }
        }
    }
}

} // verus!
