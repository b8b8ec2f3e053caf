//! The message and object data model and its byte layout.

use crate::codec::boolean::{
    deserialize_bool, lemma_parse_bool_prefix, lemma_parse_write_bool, serialize_bool,
    spec_parse_bool, spec_write_bool,
};
use crate::codec::string::{
    deserialize_string, lemma_parse_string_prefix, lemma_parse_write_string, serialize_string,
    spec_parse_string, spec_write_string,
};
use crate::codec::varint::{
    deserialize_u64, lemma_decode_bound, lemma_decode_encode, lemma_decode_prefix,
    lemma_tag_agrees_with_length, serialize_u64, spec_parse_varint, spec_write_u64, VARINT_LIMIT,
};
use crate::codec::{
    also, decoded, lemma_followed_by, lemma_split_input, spec_advance, spec_reads_only_its_bytes,
    Output, Parsed,
};
use crate::error::{Error, ErrorKind};
use vstd::prelude::*;
use vstd::slice::slice_subrange;

pub mod announce;
pub mod announce_cancel;
pub mod announce_error;
pub mod announce_ok;
pub mod authorization;
pub mod client_setup;
pub mod control;
pub mod go_away;
pub mod message_parser;
pub mod object;
pub mod server_setup;
pub mod setup;
pub mod subscribe;
pub mod subscribe_done;
pub mod subscribe_error;
pub mod subscribe_ok;
pub mod subscribe_update;
pub mod track_status;
pub mod track_status_request;
pub mod unannounce;
pub mod unsubscribe;

verus! {

/// The maximum length of a message, excluding any OBJECT payload.
/// This prevents DoS attack via forcing the parser to buffer a large
/// message (OBJECT payloads are not buffered by the parser).
pub const MAX_MESSSAGE_HEADER_SIZE: usize = 2048;

/// The kind of a message, as its leading integer names it.
#[derive(Debug, Copy, Clone, Eq, PartialEq, Structural)]
pub enum MessageType {
    ObjectStream,
    ObjectDatagram,
    SubscribeUpdate,
    Subscribe,
    SubscribeOk,
    SubscribeError,
    Announce,
    AnnounceOk,
    AnnounceError,
    UnAnnounce,
    UnSubscribe,
    SubscribeDone,
    AnnounceCancel,
    TrackStatusRequest,
    TrackStatus,
    GoAway,
    ClientSetup,
    ServerSetup,
    StreamHeaderTrack,
    StreamHeaderGroup,
}

impl View for MessageType {
    type V = MessageType;

    open spec fn view(&self) -> MessageType {
        *self
    }
}

impl Default for MessageType {
    fn default() -> (r: Self)
        ensures
            r == MessageType::ObjectStream,
    {
        MessageType::ObjectStream
    }
}

impl TryFrom<u64> for MessageType {
    type Error = Error;

    /// The message type that `value` stands for; any other integer is an
    /// `ErrInvalidMessageType`.
    fn try_from(value: u64) -> (r: Result<Self, Error>) {
        match value {
            0x0 => Ok(MessageType::ObjectStream),
            0x1 => Ok(MessageType::ObjectDatagram),
            0x2 => Ok(MessageType::SubscribeUpdate),
            0x3 => Ok(MessageType::Subscribe),
            0x4 => Ok(MessageType::SubscribeOk),
            0x5 => Ok(MessageType::SubscribeError),
            0x6 => Ok(MessageType::Announce),
            0x7 => Ok(MessageType::AnnounceOk),
            0x8 => Ok(MessageType::AnnounceError),
            0x9 => Ok(MessageType::UnAnnounce),
            0xa => Ok(MessageType::UnSubscribe),
            0xb => Ok(MessageType::SubscribeDone),
            0xc => Ok(MessageType::AnnounceCancel),
            0xd => Ok(MessageType::TrackStatusRequest),
            0xe => Ok(MessageType::TrackStatus),
            0x10 => Ok(MessageType::GoAway),
            0x40 => Ok(MessageType::ClientSetup),
            0x41 => Ok(MessageType::ServerSetup),
            0x50 => Ok(MessageType::StreamHeaderTrack),
            0x51 => Ok(MessageType::StreamHeaderGroup),
            _ => Err(Error::ErrInvalidMessageType(value)),
        }
    }
}

impl vstd::std_specs::convert::TryFromSpecImpl<u64> for MessageType {
    open spec fn obeys_try_from_spec() -> bool {
        true
    }

    open spec fn try_from_spec(value: u64) -> Result<Self, Error> {
        match MessageType::spec_from_value(value) {
            Some(v) => Ok(v),
            None => Err(Error::ErrInvalidMessageType(value)),
        }
    }
}

impl MessageType {
    /// The integer that stands for the message type on the wire.
    pub open spec fn spec_value(self) -> u64 {
        match self {
            MessageType::ObjectStream => 0x0,
            MessageType::ObjectDatagram => 0x1,
            MessageType::SubscribeUpdate => 0x2,
            MessageType::Subscribe => 0x3,
            MessageType::SubscribeOk => 0x4,
            MessageType::SubscribeError => 0x5,
            MessageType::Announce => 0x6,
            MessageType::AnnounceOk => 0x7,
            MessageType::AnnounceError => 0x8,
            MessageType::UnAnnounce => 0x9,
            MessageType::UnSubscribe => 0xa,
            MessageType::SubscribeDone => 0xb,
            MessageType::AnnounceCancel => 0xc,
            MessageType::TrackStatusRequest => 0xd,
            MessageType::TrackStatus => 0xe,
            MessageType::GoAway => 0x10,
            MessageType::ClientSetup => 0x40,
            MessageType::ServerSetup => 0x41,
            MessageType::StreamHeaderTrack => 0x50,
            MessageType::StreamHeaderGroup => 0x51,
        }
    }

    /// The message type that `value` stands for, if any.
    pub open spec fn spec_from_value(value: u64) -> Option<MessageType> {
        if value == 0x0 {
            Some(MessageType::ObjectStream)
        } else if value == 0x1 {
            Some(MessageType::ObjectDatagram)
        } else if value == 0x2 {
            Some(MessageType::SubscribeUpdate)
        } else if value == 0x3 {
            Some(MessageType::Subscribe)
        } else if value == 0x4 {
            Some(MessageType::SubscribeOk)
        } else if value == 0x5 {
            Some(MessageType::SubscribeError)
        } else if value == 0x6 {
            Some(MessageType::Announce)
        } else if value == 0x7 {
            Some(MessageType::AnnounceOk)
        } else if value == 0x8 {
            Some(MessageType::AnnounceError)
        } else if value == 0x9 {
            Some(MessageType::UnAnnounce)
        } else if value == 0xa {
            Some(MessageType::UnSubscribe)
        } else if value == 0xb {
            Some(MessageType::SubscribeDone)
        } else if value == 0xc {
            Some(MessageType::AnnounceCancel)
        } else if value == 0xd {
            Some(MessageType::TrackStatusRequest)
        } else if value == 0xe {
            Some(MessageType::TrackStatus)
        } else if value == 0x10 {
            Some(MessageType::GoAway)
        } else if value == 0x40 {
            Some(MessageType::ClientSetup)
        } else if value == 0x41 {
            Some(MessageType::ServerSetup)
        } else if value == 0x50 {
            Some(MessageType::StreamHeaderTrack)
        } else if value == 0x51 {
            Some(MessageType::StreamHeaderGroup)
        } else {
            None
        }
    }

    /// True for the four types that frame an object.
    pub open spec fn is_object(self) -> bool {
        self is ObjectStream || self is ObjectDatagram || self is StreamHeaderTrack
            || self is StreamHeaderGroup
    }

    /// Encoding the message type into a vector that holds `len` bytes.
    pub open spec fn spec_write(len: nat, t: MessageType) -> Output {
        spec_write_u64(len, t.spec_value())
    }

    /// What decoding a message type reads from the front of `s`.
    pub open spec fn spec_parse(s: Seq<u8>) -> Parsed<MessageType> {
        match spec_parse_varint(s) {
            Err(e) => Err(e),
            Ok((value, n)) => match MessageType::spec_from_value(value) {
                Some(t) => Ok((t, n)),
                None => Err(ErrorKind::InvalidMessageType(value)),
            },
        }
    }

    /// The integer that stands for the message type on the wire.
    pub fn value(self) -> (r: u64)
        ensures
            r == self.spec_value(),
    {
        match self {
            MessageType::ObjectStream => 0x0,
            MessageType::ObjectDatagram => 0x1,
            MessageType::SubscribeUpdate => 0x2,
            MessageType::Subscribe => 0x3,
            MessageType::SubscribeOk => 0x4,
            MessageType::SubscribeError => 0x5,
            MessageType::Announce => 0x6,
            MessageType::AnnounceOk => 0x7,
            MessageType::AnnounceError => 0x8,
            MessageType::UnAnnounce => 0x9,
            MessageType::UnSubscribe => 0xa,
            MessageType::SubscribeDone => 0xb,
            MessageType::AnnounceCancel => 0xc,
            MessageType::TrackStatusRequest => 0xd,
            MessageType::TrackStatus => 0xe,
            MessageType::GoAway => 0x10,
            MessageType::ClientSetup => 0x40,
            MessageType::ServerSetup => 0x41,
            MessageType::StreamHeaderTrack => 0x50,
            MessageType::StreamHeaderGroup => 0x51,
        }
    }

    /// Reads one message type from the front of `buf`.
    pub fn decode(buf: &[u8]) -> (r: Result<(Self, usize), Error>)
        ensures
            decoded(r) == MessageType::spec_parse(buf@),
            r matches Ok((_, n)) ==> 1 <= n <= buf@.len(),
    {
        let (v, n) = deserialize_u64(buf)?;
        let t = MessageType::try_from(v)?;
        Ok((t, n))
    }

    /// Appends the message type to `w`.
    pub fn encode(&self, w: &mut Vec<u8>) -> (r: Result<usize, Error>)
        ensures
            MessageType::spec_write(old(w)@.len(), *self).describes(old(w)@, final(w)@, r),
    {
        serialize_u64(self.value(), w)
    }

    /// The integers and the message types stand for each other one to one.
    pub proof fn lemma_value_from_value(t: MessageType, value: u64)
        ensures
            MessageType::spec_from_value(t.spec_value()) == Some(t),
            MessageType::spec_from_value(value) == Some(t) ==> t.spec_value() == value,
            t.spec_value() < VARINT_LIMIT,
    {
    }

    /// Decoding an encoded message type gives it back and takes exactly the
    /// encoded bytes, whatever follows them.
    pub proof fn lemma_parse_write(len: nat, t: MessageType, rest: Seq<u8>)
        requires
            MessageType::spec_write(len, t).error is None,
        ensures
            MessageType::spec_parse(MessageType::spec_write(len, t).bytes + rest) == Ok::<
                _,
                ErrorKind,
            >((t, MessageType::spec_write(len, t).bytes.len())),
    {
        lemma_tag_agrees_with_length(t.spec_value());
        lemma_decode_encode(t.spec_value(), rest);
    }

    /// Decoding a message type looks at no byte beyond those it takes.
    pub proof fn lemma_parse_prefix(s: Seq<u8>, k: int)
        requires
            0 <= k <= s.len(),
        ensures
            spec_reads_only_its_bytes(
                MessageType::spec_parse(s),
                MessageType::spec_parse(s.take(k)),
                k,
            ),
    {
        lemma_decode_prefix(s, k);
    }
}

/// A track's full name: the namespace it lives in and its name there.
#[derive(Debug, Clone, Eq, PartialEq, Hash)]
pub struct FullTrackName {
    pub track_namespace: String,
    pub track_name: String,
}

/// The mathematical content of a [`FullTrackName`].
pub struct FullTrackNameView {
    pub track_namespace: Seq<char>,
    pub track_name: Seq<char>,
}

impl View for FullTrackName {
    type V = FullTrackNameView;

    open spec fn view(&self) -> FullTrackNameView {
        FullTrackNameView {
            track_namespace: self.track_namespace@,
            track_name: self.track_name@,
        }
    }
}

impl Default for FullTrackName {
    fn default() -> (r: Self)
        ensures
            r@.track_namespace.len() == 0,
            r@.track_name.len() == 0,
    {
        FullTrackName { track_namespace: String::new(), track_name: String::new() }
    }
}

impl FullTrackName {
    /// Encoding the name into a vector that holds `len` bytes.
    pub open spec fn spec_write(len: nat, v: FullTrackNameView) -> Output {
        let a = spec_write_string(len, v.track_namespace);
        a.followed_by(spec_write_string(len + a.bytes.len(), v.track_name))
    }

    /// What decoding a full track name reads from the front of `s`.
    pub open spec fn spec_parse(s: Seq<u8>) -> Parsed<FullTrackNameView> {
        match spec_parse_string(s) {
            Err(e) => Err(e),
            Ok((track_namespace, n)) => match spec_parse_string(s.skip(n as int)) {
                Err(e) => Err(e),
                Ok((track_name, m)) => Ok(
                    (FullTrackNameView { track_namespace, track_name }, n + m),
                ),
            },
        }
    }

    /// Reads a namespace and a name from the front of `buf`.
    pub fn decode(buf: &[u8]) -> (r: Result<(Self, usize), Error>)
        ensures
            decoded(r) == FullTrackName::spec_parse(buf@),
            r matches Ok((_, n)) ==> 1 <= n <= buf@.len(),
    {
        let (track_namespace, n) = deserialize_string(buf)?;
        let (track_name, m) = deserialize_string(slice_subrange(buf, n, buf.len()))?;
        Ok((FullTrackName { track_namespace, track_name }, n + m))
    }

    /// Appends the namespace and the name to `w`.
    pub fn encode(&self, w: &mut Vec<u8>) -> (r: Result<usize, Error>)
        ensures
            FullTrackName::spec_write(old(w)@.len(), self@).describes(old(w)@, final(w)@, r),
    {
        let ghost s0 = w@;
        let ghost a = spec_write_string(s0.len(), self@.track_namespace);
        let l = serialize_string(&self.track_namespace, w)?;
        let ghost s1 = w@;
        let ghost b = spec_write_string(s1.len(), self@.track_name);
        let r = serialize_string(&self.track_name, w);
        also(l, r, Ghost(a), Ghost(b), Ghost(s0), Ghost(s1), &*w)
    }

    /// Decoding an encoded name gives it back and takes exactly the encoded
    /// bytes, whatever follows them.
    pub proof fn lemma_parse_write(len: nat, v: FullTrackNameView, rest: Seq<u8>)
        requires
            FullTrackName::spec_write(len, v).error is None,
        ensures
            FullTrackName::spec_parse(FullTrackName::spec_write(len, v).bytes + rest) == Ok::<
                _,
                ErrorKind,
            >((v, FullTrackName::spec_write(len, v).bytes.len())),
    {
        let a = spec_write_string(len, v.track_namespace);
        let b = spec_write_string(len + a.bytes.len(), v.track_name);
        let s = FullTrackName::spec_write(len, v).bytes + rest;
        assert(s =~= a.bytes + (b.bytes + rest));
        lemma_parse_write_string(len, v.track_namespace, b.bytes + rest);
        assert(s.skip(a.bytes.len() as int) =~= b.bytes + rest);
        lemma_parse_write_string(len + a.bytes.len(), v.track_name, rest);
    }

    /// Decoding a full track name looks at no byte beyond those it takes.
    pub proof fn lemma_parse_prefix(s: Seq<u8>, k: int)
        requires
            0 <= k <= s.len(),
        ensures
            spec_reads_only_its_bytes(
                FullTrackName::spec_parse(s),
                FullTrackName::spec_parse(s.take(k)),
                k,
            ),
    {
        lemma_parse_string_prefix(s, k);
        if let Ok((_, n)) = spec_parse_string(s) {
            if n <= k {
                assert(s.take(k).skip(n as int) =~= s.skip(n as int).take(k - n));
                lemma_parse_string_prefix(s.skip(n as int), k - n);
            }
        }
    }
}

/// A position in a track: a group and an object in it.
#[derive(Debug, Copy, Clone, Eq, PartialEq, Hash, Structural)]
pub struct FullSequence {
    pub group_id: u64,
    pub object_id: u64,
}

impl View for FullSequence {
    type V = FullSequence;

    open spec fn view(&self) -> FullSequence {
        *self
    }
}

impl Default for FullSequence {
    fn default() -> (r: Self)
        ensures
            r == (FullSequence { group_id: 0, object_id: 0 }),
    {
        FullSequence { group_id: 0, object_id: 0 }
    }
}

impl FullSequence {
    /// Encoding the position into a vector that holds `len` bytes.
    pub open spec fn spec_write(len: nat, v: FullSequence) -> Output {
        let a = spec_write_u64(len, v.group_id);
        a.followed_by(spec_write_u64(len + a.bytes.len(), v.object_id))
    }

    /// What decoding a position reads from the front of `s`.
    pub open spec fn spec_parse(s: Seq<u8>) -> Parsed<FullSequence> {
        match spec_parse_varint(s) {
            Err(e) => Err(e),
            Ok((group_id, n)) => match spec_parse_varint(s.skip(n as int)) {
                Err(e) => Err(e),
                Ok((object_id, m)) => Ok((FullSequence { group_id, object_id }, n + m)),
            },
        }
    }

    /// Reads a group and an object number from the front of `buf`.
    pub fn decode(buf: &[u8]) -> (r: Result<(Self, usize), Error>)
        ensures
            decoded(r) == FullSequence::spec_parse(buf@),
            r matches Ok((_, n)) ==> 1 <= n <= buf@.len(),
    {
        let (group_id, n) = deserialize_u64(buf)?;
        let (object_id, m) = deserialize_u64(slice_subrange(buf, n, buf.len()))?;
        Ok((FullSequence { group_id, object_id }, n + m))
    }

    /// Appends the group and the object number to `w`.
    pub fn encode(&self, w: &mut Vec<u8>) -> (r: Result<usize, Error>)
        ensures
            FullSequence::spec_write(old(w)@.len(), *self).describes(old(w)@, final(w)@, r),
    {
        let mut l = serialize_u64(self.group_id, w)?;
        l += serialize_u64(self.object_id, w)?;
        Ok(l)
    }

    /// Decoding an encoded position gives it back and takes exactly the
    /// encoded bytes, whatever follows them.
    pub proof fn lemma_parse_write(len: nat, v: FullSequence, rest: Seq<u8>)
        requires
            FullSequence::spec_write(len, v).error is None,
        ensures
            FullSequence::spec_parse(FullSequence::spec_write(len, v).bytes + rest) == Ok::<
                _,
                ErrorKind,
            >((v, FullSequence::spec_write(len, v).bytes.len())),
    {
        let a = spec_write_u64(len, v.group_id);
        let b = spec_write_u64(len + a.bytes.len(), v.object_id);
        let s = FullSequence::spec_write(len, v).bytes + rest;
        assert(s =~= a.bytes + (b.bytes + rest));
        lemma_tag_agrees_with_length(v.group_id);
        lemma_decode_encode(v.group_id, b.bytes + rest);
        assert(s.skip(a.bytes.len() as int) =~= b.bytes + rest);
        lemma_tag_agrees_with_length(v.object_id);
        lemma_decode_encode(v.object_id, rest);
    }

    /// Decoding a position looks at no byte beyond those it takes.
    pub proof fn lemma_parse_prefix(s: Seq<u8>, k: int)
        requires
            0 <= k <= s.len(),
        ensures
            spec_reads_only_its_bytes(
                FullSequence::spec_parse(s),
                FullSequence::spec_parse(s.take(k)),
                k,
            ),
    {
        lemma_decode_prefix(s, k);
        lemma_decode_bound(s);
        if let Ok((_, n)) = spec_parse_varint(s) {
            if n <= k {
                assert(s.take(k).skip(n as int) =~= s.skip(n as int).take(k - n));
                lemma_decode_prefix(s.skip(n as int), k - n);
            }
        }
    }
}

/// A position that was read, as a position that is there.
pub open spec fn spec_some_position(r: Parsed<FullSequence>) -> Parsed<Option<FullSequence>> {
    match r {
        Ok((position, n)) => Ok((Some(position), n)),
        Err(e) => Err(e),
    }
}

impl FullSequence {
    /// Encoding a position that may be absent into a vector that holds `len`
    /// bytes: a boolean that tells whether it is there, then the position.
    #[verifier::opaque]
    pub open spec fn spec_write_optional(len: nat, v: Option<FullSequence>) -> Output {
        match v {
            None => spec_write_bool(len, false),
            Some(position) => {
                let a = spec_write_bool(len, true);
                a.followed_by(FullSequence::spec_write(len + a.bytes.len(), position))
            },
        }
    }

    /// What decoding a position that may be absent reads from the front of
    /// `s`.
    #[verifier::opaque]
    pub open spec fn spec_parse_optional(s: Seq<u8>) -> Parsed<Option<FullSequence>> {
        match spec_parse_bool(s) {
            Err(e) => Err(e),
            Ok((exists, n)) => {
                if exists {
                    spec_advance(
                        spec_some_position(FullSequence::spec_parse(s.skip(n as int))),
                        n,
                    )
                } else {
                    Ok((None, n))
                }
            },
        }
    }

    /// Reads a position that may be absent from the front of `buf`.
    pub fn decode_optional(buf: &[u8]) -> (r: Result<(Option<FullSequence>, usize), Error>)
        ensures
            decoded(r) == FullSequence::spec_parse_optional(buf@),
            r matches Ok((_, n)) ==> 1 <= n <= buf@.len(),
    {
        proof {
            reveal(FullSequence::spec_parse_optional);
        }
        let (exists, n) = deserialize_bool(buf)?;
        if exists {
            let (position, m) = FullSequence::decode(slice_subrange(buf, n, buf.len()))?;
            Ok((Some(position), n + m))
        } else {
            Ok((None, n))
        }
    }

    /// Appends a position that may be absent to `w`.
    pub fn encode_optional(v: &Option<FullSequence>, w: &mut Vec<u8>) -> (r: Result<usize, Error>)
        ensures
            FullSequence::spec_write_optional(old(w)@.len(), *v).describes(
                old(w)@,
                final(w)@,
                r,
            ),
    {
        proof {
            reveal(FullSequence::spec_write_optional);
        }
        match v {
            None => serialize_bool(false, w),
            Some(position) => {
                let ghost s0 = w@;
                let ghost a = spec_write_bool(s0.len(), true);
                let l = serialize_bool(true, w)?;
                let ghost s1 = w@;
                let ghost b = FullSequence::spec_write(s1.len(), *position);
                let r = position.encode(w);
                also(l, r, Ghost(a), Ghost(b), Ghost(s0), Ghost(s1), &*w)
            },
        }
    }

    /// Decoding an encoded position that may be absent gives it back and
    /// takes exactly the encoded bytes, whatever follows them.
    pub proof fn lemma_parse_write_optional(len: nat, v: Option<FullSequence>, rest: Seq<u8>)
        requires
            FullSequence::spec_write_optional(len, v).error is None,
        ensures
            FullSequence::spec_parse_optional(
                FullSequence::spec_write_optional(len, v).bytes + rest,
            ) == Ok::<_, ErrorKind>((v, FullSequence::spec_write_optional(len, v).bytes.len())),
    {
        reveal(FullSequence::spec_write_optional);
        reveal(FullSequence::spec_parse_optional);
        match v {
            None => {
                lemma_parse_write_bool(len, false, rest);
            },
            Some(position) => {
                let a = spec_write_bool(len, true);
                let b = FullSequence::spec_write(len + a.bytes.len(), position);
                lemma_followed_by(a, b);
                lemma_split_input(a.bytes, b.bytes, rest);
                lemma_parse_write_bool(len, true, b.bytes + rest);
                FullSequence::lemma_parse_write(len + a.bytes.len(), position, rest);
            },
        }
    }

    /// Decoding a position that may be absent looks at no byte beyond those
    /// it takes.
    pub proof fn lemma_parse_optional_prefix(s: Seq<u8>, k: int)
        requires
            0 <= k <= s.len(),
        ensures
            spec_reads_only_its_bytes(
                FullSequence::spec_parse_optional(s),
                FullSequence::spec_parse_optional(s.take(k)),
                k,
            ),
    {
        reveal(FullSequence::spec_parse_optional);
        lemma_parse_bool_prefix(s, k);
        if let Ok((exists, n)) = spec_parse_bool(s) {
            if n <= k && exists {
                assert(s.take(k).skip(n as int) =~= s.skip(n as int).take(k - n));
                FullSequence::lemma_parse_prefix(s.skip(n as int), k - n);
            }
        }
    }
}

/// Where a subscription starts and ends.
#[derive(Debug, Copy, Clone, Eq, PartialEq, Structural)]
pub enum FilterType {
    LatestGroup,
    LatestObject,
    AbsoluteStart(FullSequence),
    AbsoluteRange(FullSequence, FullSequence),
}

impl View for FilterType {
    type V = FilterType;

    open spec fn view(&self) -> FilterType {
        *self
    }
}

impl Default for FilterType {
    fn default() -> (r: Self)
        ensures
            r == FilterType::LatestGroup,
    {
        FilterType::LatestGroup
    }
}

impl FilterType {
    /// Encoding the filter into a vector that holds `len` bytes: its
    /// discriminant, 1 to 4, then the positions it carries.
    #[verifier::opaque]
    pub open spec fn spec_write(len: nat, v: FilterType) -> Output {
        match v {
            FilterType::LatestGroup => spec_write_u64(len, 0x1),
            FilterType::LatestObject => spec_write_u64(len, 0x2),
            FilterType::AbsoluteStart(start) => {
                let a = spec_write_u64(len, 0x3);
                a.followed_by(FullSequence::spec_write(len + a.bytes.len(), start))
            },
            FilterType::AbsoluteRange(start, end) => {
                let a = spec_write_u64(len, 0x4);
                let b = a.followed_by(FullSequence::spec_write(len + a.bytes.len(), start));
                b.followed_by(FullSequence::spec_write(len + b.bytes.len(), end))
            },
        }
    }

    /// What decoding a filter reads from the front of `s`.
    #[verifier::opaque]
    pub open spec fn spec_parse(s: Seq<u8>) -> Parsed<FilterType> {
        match spec_parse_varint(s) {
            Err(e) => Err(e),
            Ok((v, n)) => {
                if v == 0x1 {
                    Ok((FilterType::LatestGroup, n))
                } else if v == 0x2 {
                    Ok((FilterType::LatestObject, n))
                } else if v == 0x3 {
                    match FullSequence::spec_parse(s.skip(n as int)) {
                        Err(e) => Err(e),
                        Ok((start, m)) => Ok((FilterType::AbsoluteStart(start), n + m)),
                    }
                } else if v == 0x4 {
                    match FullSequence::spec_parse(s.skip(n as int)) {
                        Err(e) => Err(e),
                        Ok((start, m)) => match FullSequence::spec_parse(s.skip((n + m) as int)) {
                            Err(e) => Err(e),
                            Ok((end, p)) => Ok((FilterType::AbsoluteRange(start, end), n + m + p)),
                        },
                    }
                } else {
                    Err(ErrorKind::InvalidFilterType(v))
                }
            },
        }
    }

    /// Reads one filter from the front of `buf`.
    pub fn decode(buf: &[u8]) -> (r: Result<(Self, usize), Error>)
        ensures
            decoded(r) == FilterType::spec_parse(buf@),
            r matches Ok((_, n)) ==> 1 <= n <= buf@.len(),
    {
        proof {
            reveal(FilterType::spec_parse);
        }
        let (v, n) = deserialize_u64(buf)?;
        match v {
            0x1 => Ok((FilterType::LatestGroup, n)),
            0x2 => Ok((FilterType::LatestObject, n)),
            0x3 => {
                let (start, m) = FullSequence::decode(slice_subrange(buf, n, buf.len()))?;
                Ok((FilterType::AbsoluteStart(start), n + m))
            },
            0x4 => {
                let (start, m) = FullSequence::decode(slice_subrange(buf, n, buf.len()))?;
                let (end, p) = FullSequence::decode(slice_subrange(buf, n + m, buf.len()))?;
                Ok((FilterType::AbsoluteRange(start, end), n + m + p))
            },
            _ => Err(Error::ErrInvalidFilterType(v)),
        }
    }

    /// Appends the filter to `w`.
    pub fn encode(&self, w: &mut Vec<u8>) -> (r: Result<usize, Error>)
        ensures
            FilterType::spec_write(old(w)@.len(), *self).describes(old(w)@, final(w)@, r),
    {
        proof {
            reveal(FilterType::spec_write);
        }
        match self {
            FilterType::LatestGroup => serialize_u64(0x1, w),
            FilterType::LatestObject => serialize_u64(0x2, w),
            FilterType::AbsoluteStart(start) => {
                let mut l = serialize_u64(0x3, w)?;
                l += start.encode(w)?;
                Ok(l)
            },
            FilterType::AbsoluteRange(start, end) => {
                let mut l = serialize_u64(0x4, w)?;
                l += start.encode(w)?;
                l += end.encode(w)?;
                Ok(l)
            },
        }
    }

    /// Decoding an encoded filter gives it back and takes exactly the encoded
    /// bytes, whatever follows them.
    pub proof fn lemma_parse_write(len: nat, v: FilterType, rest: Seq<u8>)
        requires
            FilterType::spec_write(len, v).error is None,
        ensures
            FilterType::spec_parse(FilterType::spec_write(len, v).bytes + rest) == Ok::<
                _,
                ErrorKind,
            >((v, FilterType::spec_write(len, v).bytes.len())),
    {
        reveal(FilterType::spec_write);
        reveal(FilterType::spec_parse);
        let s = FilterType::spec_write(len, v).bytes + rest;
        match v {
            FilterType::LatestGroup => {
                lemma_tag_agrees_with_length(0x1);
                lemma_decode_encode(0x1, rest);
            },
            FilterType::LatestObject => {
                lemma_tag_agrees_with_length(0x2);
                lemma_decode_encode(0x2, rest);
            },
            FilterType::AbsoluteStart(start) => {
                let a = spec_write_u64(len, 0x3);
                let b = FullSequence::spec_write(len + a.bytes.len(), start);
                lemma_tag_agrees_with_length(0x3);
                assert(s =~= a.bytes + (b.bytes + rest));
                lemma_decode_encode(0x3, b.bytes + rest);
                assert(s.skip(1) =~= b.bytes + rest);
                FullSequence::lemma_parse_write(len + a.bytes.len(), start, rest);
            },
            FilterType::AbsoluteRange(start, end) => {
                let a = spec_write_u64(len, 0x4);
                let b = FullSequence::spec_write(len + a.bytes.len(), start);
                let c = FullSequence::spec_write(len + a.bytes.len() + b.bytes.len(), end);
                lemma_tag_agrees_with_length(0x4);
                assert(s =~= a.bytes + (b.bytes + (c.bytes + rest)));
                lemma_decode_encode(0x4, b.bytes + (c.bytes + rest));
                assert(s.skip(1) =~= b.bytes + (c.bytes + rest));
                FullSequence::lemma_parse_write(len + a.bytes.len(), start, c.bytes + rest);
                assert(s.skip(1 + b.bytes.len() as int) =~= c.bytes + rest);
                FullSequence::lemma_parse_write(
                    len + a.bytes.len() + b.bytes.len(),
                    end,
                    rest,
                );
            },
        }
    }

    /// Decoding a filter looks at no byte beyond those it takes.
    pub proof fn lemma_parse_prefix(s: Seq<u8>, k: int)
        requires
            0 <= k <= s.len(),
        ensures
            spec_reads_only_its_bytes(
                FilterType::spec_parse(s),
                FilterType::spec_parse(s.take(k)),
                k,
            ),
    {
        reveal(FilterType::spec_parse);
        lemma_decode_prefix(s, k);
        lemma_decode_bound(s);
        if let Ok((v, n)) = spec_parse_varint(s) {
            if n <= k && (v == 0x3 || v == 0x4) {
                assert(s.take(k).skip(n as int) =~= s.skip(n as int).take(k - n));
                FullSequence::lemma_parse_prefix(s.skip(n as int), k - n);
                if let Ok((_, m)) = FullSequence::spec_parse(s.skip(n as int)) {
                    if n + m <= k && v == 0x4 {
                        let at = (n + m) as int;
                        assert(s.take(k).skip(at) =~= s.skip(at).take(k - at));
                        FullSequence::lemma_parse_prefix(s.skip(at), k - at);
                    }
                }
            }
        }
    }
}

/// The protocol versions that can be negotiated.
#[derive(Debug, Copy, Clone, Eq, PartialEq, Structural)]
pub enum Version {
    Draft00,
    Draft01,
    Draft02,
    Draft03,
    Draft04,
}

impl View for Version {
    type V = Version;

    open spec fn view(&self) -> Version {
        *self
    }
}

impl Default for Version {
    fn default() -> (r: Self)
        ensures
            r == Version::Draft00,
    {
        Version::Draft00
    }
}

impl TryFrom<u64> for Version {
    type Error = Error;

    /// The version that `value` stands for; any other integer is an
    /// `ErrUnsupportedVersion`.
    fn try_from(value: u64) -> (r: Result<Self, Error>) {
        match value {
            0xff000000 => Ok(Version::Draft00),
            0xff000001 => Ok(Version::Draft01),
            0xff000002 => Ok(Version::Draft02),
            0xff000003 => Ok(Version::Draft03),
            0xff000004 => Ok(Version::Draft04),
            _ => Err(Error::ErrUnsupportedVersion(value)),
        }
    }
}

impl vstd::std_specs::convert::TryFromSpecImpl<u64> for Version {
    open spec fn obeys_try_from_spec() -> bool {
        true
    }

    open spec fn try_from_spec(value: u64) -> Result<Self, Error> {
        match Version::spec_from_value(value) {
            Some(v) => Ok(v),
            None => Err(Error::ErrUnsupportedVersion(value)),
        }
    }
}

impl Version {
    /// The integer that stands for the version on the wire.
    pub open spec fn spec_value(self) -> u64 {
        match self {
            Version::Draft00 => 0xff000000,
            Version::Draft01 => 0xff000001,
            Version::Draft02 => 0xff000002,
            Version::Draft03 => 0xff000003,
            Version::Draft04 => 0xff000004,
        }
    }

    /// The version that `value` stands for, if any.
    pub open spec fn spec_from_value(value: u64) -> Option<Version> {
        if value == 0xff000000 {
            Some(Version::Draft00)
        } else if value == 0xff000001 {
            Some(Version::Draft01)
        } else if value == 0xff000002 {
            Some(Version::Draft02)
        } else if value == 0xff000003 {
            Some(Version::Draft03)
        } else if value == 0xff000004 {
            Some(Version::Draft04)
        } else {
            None
        }
    }

    /// Encoding the version into a vector that holds `len` bytes.
    pub open spec fn spec_write(len: nat, v: Version) -> Output {
        spec_write_u64(len, v.spec_value())
    }

    /// What decoding a version reads from the front of `s`.
    pub open spec fn spec_parse(s: Seq<u8>) -> Parsed<Version> {
        match spec_parse_varint(s) {
            Err(e) => Err(e),
            Ok((value, n)) => match Version::spec_from_value(value) {
                Some(v) => Ok((v, n)),
                None => Err(ErrorKind::UnsupportedVersion(value)),
            },
        }
    }

    /// The integer that stands for the version on the wire.
    pub fn value(self) -> (r: u64)
        ensures
            r == self.spec_value(),
    {
        match self {
            Version::Draft00 => 0xff000000,
            Version::Draft01 => 0xff000001,
            Version::Draft02 => 0xff000002,
            Version::Draft03 => 0xff000003,
            Version::Draft04 => 0xff000004,
        }
    }

    /// Reads one version from the front of `buf`.
    pub fn decode(buf: &[u8]) -> (r: Result<(Self, usize), Error>)
        ensures
            decoded(r) == Version::spec_parse(buf@),
            r matches Ok((_, n)) ==> 1 <= n <= buf@.len(),
    {
        let (v, n) = deserialize_u64(buf)?;
        let version = Version::try_from(v)?;
        Ok((version, n))
    }

    /// Appends the version to `w`.
    pub fn encode(&self, w: &mut Vec<u8>) -> (r: Result<usize, Error>)
        ensures
            Version::spec_write(old(w)@.len(), *self).describes(old(w)@, final(w)@, r),
    {
        serialize_u64(self.value(), w)
    }

    /// Decoding an encoded version gives it back and takes exactly the encoded
    /// bytes, whatever follows them.
    pub proof fn lemma_parse_write(len: nat, v: Version, rest: Seq<u8>)
        requires
            Version::spec_write(len, v).error is None,
        ensures
            Version::spec_parse(Version::spec_write(len, v).bytes + rest) == Ok::<_, ErrorKind>(
                (v, Version::spec_write(len, v).bytes.len()),
            ),
    {
        lemma_tag_agrees_with_length(v.spec_value());
        lemma_decode_encode(v.spec_value(), rest);
    }

    /// Decoding a version looks at no byte beyond those it takes.
    pub proof fn lemma_parse_prefix(s: Seq<u8>, k: int)
        requires
            0 <= k <= s.len(),
        ensures
            spec_reads_only_its_bytes(Version::spec_parse(s), Version::spec_parse(s.take(k)), k),
    {
        lemma_decode_prefix(s, k);
    }
}

/// The part that an endpoint plays in a session.
#[derive(Debug, Copy, Clone, Eq, PartialEq, Structural)]
pub enum Role {
    Publisher,
    Subscriber,
    PubSub,
}

impl View for Role {
    type V = Role;

    open spec fn view(&self) -> Role {
        *self
    }
}

impl Default for Role {
    fn default() -> (r: Self)
        ensures
            r == Role::Publisher,
    {
        Role::Publisher
    }
}

impl TryFrom<u64> for Role {
    type Error = Error;

    /// The role that `value` stands for; any other integer is an
    /// `ErrInvalidRole`.
    fn try_from(value: u64) -> (r: Result<Self, Error>) {
        match value {
            0x1 => Ok(Role::Publisher),
            0x2 => Ok(Role::Subscriber),
            0x3 => Ok(Role::PubSub),
            _ => Err(Error::ErrInvalidRole(value)),
        }
    }
}

impl vstd::std_specs::convert::TryFromSpecImpl<u64> for Role {
    open spec fn obeys_try_from_spec() -> bool {
        true
    }

    open spec fn try_from_spec(value: u64) -> Result<Self, Error> {
        match Role::spec_from_value(value) {
            Some(v) => Ok(v),
            None => Err(Error::ErrInvalidRole(value)),
        }
    }
}

impl Role {
    /// The integer that stands for the role on the wire.
    pub open spec fn spec_value(self) -> u64 {
        match self {
            Role::Publisher => 0x1,
            Role::Subscriber => 0x2,
            Role::PubSub => 0x3,
        }
    }

    /// The role that `value` stands for, if any.
    pub open spec fn spec_from_value(value: u64) -> Option<Role> {
        if value == 0x1 {
            Some(Role::Publisher)
        } else if value == 0x2 {
            Some(Role::Subscriber)
        } else if value == 0x3 {
            Some(Role::PubSub)
        } else {
            None
        }
    }

    /// Encoding the role into a vector that holds `len` bytes.
    pub open spec fn spec_write(len: nat, v: Role) -> Output {
        spec_write_u64(len, v.spec_value())
    }

    /// What decoding a role reads from the front of `s`.
    pub open spec fn spec_parse(s: Seq<u8>) -> Parsed<Role> {
        match spec_parse_varint(s) {
            Err(e) => Err(e),
            Ok((value, n)) => match Role::spec_from_value(value) {
                Some(v) => Ok((v, n)),
                None => Err(ErrorKind::InvalidRole(value)),
            },
        }
    }

    /// The integer that stands for the role on the wire.
    pub fn value(self) -> (r: u64)
        ensures
            r == self.spec_value(),
    {
        match self {
            Role::Publisher => 0x1,
            Role::Subscriber => 0x2,
            Role::PubSub => 0x3,
        }
    }

    /// Reads one role from the front of `buf`.
    pub fn decode(buf: &[u8]) -> (r: Result<(Self, usize), Error>)
        ensures
            decoded(r) == Role::spec_parse(buf@),
            r matches Ok((_, n)) ==> 1 <= n <= buf@.len(),
    {
        let (v, n) = deserialize_u64(buf)?;
        let role = Role::try_from(v)?;
        Ok((role, n))
    }

    /// Appends the role to `w`.
    pub fn encode(&self, w: &mut Vec<u8>) -> (r: Result<usize, Error>)
        ensures
            Role::spec_write(old(w)@.len(), *self).describes(old(w)@, final(w)@, r),
    {
        serialize_u64(self.value(), w)
    }

    /// Decoding an encoded role gives it back and takes exactly the encoded
    /// bytes, whatever follows them.
    pub proof fn lemma_parse_write(len: nat, v: Role, rest: Seq<u8>)
        requires
            Role::spec_write(len, v).error is None,
        ensures
            Role::spec_parse(Role::spec_write(len, v).bytes + rest) == Ok::<_, ErrorKind>(
                (v, Role::spec_write(len, v).bytes.len()),
            ),
    {
        lemma_tag_agrees_with_length(v.spec_value());
        lemma_decode_encode(v.spec_value(), rest);
    }

    /// Decoding a role looks at no byte beyond those it takes.
    pub proof fn lemma_parse_prefix(s: Seq<u8>, k: int)
        requires
            0 <= k <= s.len(),
        ensures
            spec_reads_only_its_bytes(Role::spec_parse(s), Role::spec_parse(s.take(k)), k),
    {
        lemma_decode_prefix(s, k);
    }
}

} // verus!
