//! Objects: the unit of payload in a track, and the metadata that frames one.

use crate::codec::varint::{
    deserialize_u64, deserialize_varints, lemma_decode_bound, lemma_parse_varints_bound,
    spec_parse_varint, spec_parse_varints,
};
use crate::codec::{decoded, Parsed};
use crate::error::{Error, ErrorKind};
use crate::message::MessageType;
use vstd::prelude::*;
use vstd::slice::slice_subrange;

verus! {

/// What became of an object.
#[derive(Debug, Copy, Clone, Eq, PartialEq, Structural)]
pub enum ObjectStatus {
    Normal,
    ObjectDoesNotExist,
    GroupDoesNotExist,
    EndOfGroup,
    EndOfTrack,
    Invalid,
}

impl Default for ObjectStatus {
    fn default() -> (r: Self)
        ensures
            r == ObjectStatus::Normal,
    {
        ObjectStatus::Normal
    }
}

impl ObjectStatus {
    /// The status that `value` stands for: 0 to 4 name the five proper
    /// statuses, and every other integer is `Invalid`.
    pub open spec fn spec_from_value(value: u64) -> ObjectStatus {
        if value == 0x0 {
            ObjectStatus::Normal
        } else if value == 0x1 {
            ObjectStatus::ObjectDoesNotExist
        } else if value == 0x2 {
            ObjectStatus::GroupDoesNotExist
        } else if value == 0x3 {
            ObjectStatus::EndOfGroup
        } else if value == 0x4 {
            ObjectStatus::EndOfTrack
        } else {
            ObjectStatus::Invalid
        }
    }
}

impl From<u64> for ObjectStatus {
    /// The status that `value` stands for.
    fn from(value: u64) -> (r: Self) {
        match value {
            0x0 => ObjectStatus::Normal,
            0x1 => ObjectStatus::ObjectDoesNotExist,
            0x2 => ObjectStatus::GroupDoesNotExist,
            0x3 => ObjectStatus::EndOfGroup,
            0x4 => ObjectStatus::EndOfTrack,
            _ => ObjectStatus::Invalid,
        }
    }
}

impl vstd::std_specs::convert::FromSpecImpl<u64> for ObjectStatus {
    open spec fn obeys_from_spec() -> bool {
        true
    }

    open spec fn from_spec(value: u64) -> ObjectStatus {
        ObjectStatus::spec_from_value(value)
    }
}

/// How an object's boundaries are conveyed.
#[derive(Debug, Copy, Clone, Eq, PartialEq, Structural)]
pub enum ObjectForwardingPreference {
    Object,
    Datagram,
    Track,
    Group,
}

impl Default for ObjectForwardingPreference {
    fn default() -> (r: Self)
        ensures
            r == ObjectForwardingPreference::Object,
    {
        ObjectForwardingPreference::Object
    }
}

impl ObjectForwardingPreference {
    /// The message type that introduces objects forwarded in this way.
    pub open spec fn spec_message_type(self) -> MessageType {
        match self {
            ObjectForwardingPreference::Object => MessageType::ObjectStream,
            ObjectForwardingPreference::Datagram => MessageType::ObjectDatagram,
            ObjectForwardingPreference::Track => MessageType::StreamHeaderTrack,
            ObjectForwardingPreference::Group => MessageType::StreamHeaderGroup,
        }
    }

    /// The message type that introduces objects forwarded in this way.
    pub fn get_message_type(self) -> (r: MessageType)
        ensures
            r == self.spec_message_type(),
    {
        match self {
            ObjectForwardingPreference::Object => MessageType::ObjectStream,
            ObjectForwardingPreference::Datagram => MessageType::ObjectDatagram,
            ObjectForwardingPreference::Track => MessageType::StreamHeaderTrack,
            ObjectForwardingPreference::Group => MessageType::StreamHeaderGroup,
        }
    }
}

impl MessageType {
    /// The forwarding preference that the message type gives its objects;
    /// none for a message type that frames no object.
    pub open spec fn spec_forwarding_preference(self) -> Option<ObjectForwardingPreference> {
        match self {
            MessageType::ObjectStream => Some(ObjectForwardingPreference::Object),
            MessageType::ObjectDatagram => Some(ObjectForwardingPreference::Datagram),
            MessageType::StreamHeaderTrack => Some(ObjectForwardingPreference::Track),
            MessageType::StreamHeaderGroup => Some(ObjectForwardingPreference::Group),
            _ => None,
        }
    }

    /// The forwarding preference that the message type gives its objects. A
    /// message type that frames no object is an `ErrInvalidMessageType`.
    pub fn get_object_forwarding_preference(&self) -> (r: Result<
        ObjectForwardingPreference,
        Error,
    >)
        ensures
            match r {
                Ok(p) => self.spec_forwarding_preference() == Some(p),
                Err(e) => self.spec_forwarding_preference() is None && e@
                    == ErrorKind::InvalidMessageType(self.spec_value()),
            },
    {
        match self {
            MessageType::ObjectStream => Ok(ObjectForwardingPreference::Object),
            MessageType::ObjectDatagram => Ok(ObjectForwardingPreference::Datagram),
            MessageType::StreamHeaderTrack => Ok(ObjectForwardingPreference::Track),
            MessageType::StreamHeaderGroup => Ok(ObjectForwardingPreference::Group),
            _ => Err(Error::ErrInvalidMessageType(self.value())),
        }
    }
}

/// The metadata of one object.
#[derive(Debug, Copy, Clone, Eq, PartialEq, Structural)]
pub struct ObjectHeader {
    pub subscribe_id: u64,
    pub track_alias: u64,
    pub group_id: u64,
    pub object_id: u64,
    pub object_send_order: u64,
    pub object_status: ObjectStatus,
    pub object_forwarding_preference: ObjectForwardingPreference,
    pub object_payload_length: Option<u64>,
}

impl View for ObjectHeader {
    type V = ObjectHeader;

    open spec fn view(&self) -> ObjectHeader {
        *self
    }
}

impl ObjectHeader {
    /// The header of which nothing is known yet.
    pub open spec fn spec_default() -> ObjectHeader {
        ObjectHeader {
            subscribe_id: 0,
            track_alias: 0,
            group_id: 0,
            object_id: 0,
            object_send_order: 0,
            object_status: ObjectStatus::Normal,
            object_forwarding_preference: ObjectForwardingPreference::Object,
            object_payload_length: None,
        }
    }
}

impl Default for ObjectHeader {
    fn default() -> (r: Self)
        ensures
            r == ObjectHeader::spec_default(),
    {
        ObjectHeader {
            subscribe_id: 0,
            track_alias: 0,
            group_id: 0,
            object_id: 0,
            object_send_order: 0,
            object_status: ObjectStatus::Normal,
            object_forwarding_preference: ObjectForwardingPreference::Object,
            object_payload_length: None,
        }
    }
}

/// True where the header that `t` introduces carries a group number.
pub open spec fn spec_header_has_group(t: MessageType) -> bool {
    !(t is StreamHeaderTrack)
}

/// True where the header that `t` introduces carries an object number.
pub open spec fn spec_header_has_object(t: MessageType) -> bool {
    !(t is StreamHeaderTrack) && !(t is StreamHeaderGroup)
}

/// True where the header that `t` introduces carries a status.
pub open spec fn spec_header_has_status(t: MessageType) -> bool {
    t is ObjectStream || t is ObjectDatagram
}

/// The number of integers in the header that `t` introduces: the
/// subscription, the track alias and the send order always, and the group,
/// the object and the status where the message type carries them.
pub open spec fn spec_header_fields(t: MessageType) -> nat {
    (3 + if spec_header_has_group(t) {
        1nat
    } else {
        0
    } + if spec_header_has_object(t) {
        1nat
    } else {
        0
    } + if spec_header_has_status(t) {
        1nat
    } else {
        0
    }) as nat
}

/// What reading the header that follows the message type `t` yields from the
/// front of `s`. Fields that the message type omits are zero, the status
/// `Normal`, and the payload length is not known yet.
pub open spec fn spec_parse_object_header(s: Seq<u8>, t: MessageType) -> Parsed<ObjectHeader> {
    match spec_parse_varints(s, spec_header_fields(t)) {
        Err(e) => Err(e),
        Ok((f, n)) => match t.spec_forwarding_preference() {
            None => Err(ErrorKind::InvalidMessageType(t.spec_value())),
            Some(preference) => {
                let g: int = if spec_header_has_group(t) {
                    1
                } else {
                    0
                };
                let o: int = if spec_header_has_object(t) {
                    1
                } else {
                    0
                };
                Ok(
                    (
                        ObjectHeader {
                            subscribe_id: f[0],
                            track_alias: f[1],
                            group_id: if spec_header_has_group(t) {
                                f[2]
                            } else {
                                0
                            },
                            object_id: if spec_header_has_object(t) {
                                f[3]
                            } else {
                                0
                            },
                            object_send_order: f[2 + g + o],
                            object_status: if spec_header_has_status(t) {
                                ObjectStatus::spec_from_value(f[3 + g + o])
                            } else {
                                ObjectStatus::Normal
                            },
                            object_forwarding_preference: preference,
                            object_payload_length: None,
                        },
                        n,
                    ),
                )
            },
        },
    }
}

/// Reads the header that follows the message type `message_type` from the
/// front of `buf`.
pub fn parse_object_header(buf: &[u8], message_type: MessageType) -> (r: Result<
    (ObjectHeader, usize),
    Error,
>)
    ensures
        decoded(r) == spec_parse_object_header(buf@, message_type),
        r matches Ok((_, n)) ==> 3 <= n <= buf@.len(),
{
    let has_group = !matches!(message_type, MessageType::StreamHeaderTrack);
    let has_object = has_group && !matches!(message_type, MessageType::StreamHeaderGroup);
    let has_status = matches!(
        message_type,
        MessageType::ObjectStream | MessageType::ObjectDatagram
    );
    let g: usize = if has_group {
        1
    } else {
        0
    };
    let o: usize = if has_object {
        1
    } else {
        0
    };
    let st: usize = if has_status {
        1
    } else {
        0
    };
    let (f, n) = deserialize_varints(buf, 3 + g + o + st)?;
    let object_forwarding_preference = message_type.get_object_forwarding_preference()?;
    let object_status = if has_status {
        ObjectStatus::from(f[3 + g + o])
    } else {
        ObjectStatus::Normal
    };
    Ok(
        (
            ObjectHeader {
                subscribe_id: f[0],
                track_alias: f[1],
                group_id: if has_group {
                    f[2]
                } else {
                    0
                },
                object_id: if has_object {
                    f[3]
                } else {
                    0
                },
                object_send_order: f[2 + g + o],
                object_status,
                object_forwarding_preference,
                object_payload_length: None,
            },
            n,
        ),
    )
}

/// What the per-object fields that precede each object on a stream opened by
/// `t` yield from the front of `s`, filled into the stream's header `h`: a
/// track stream gives each object its group; a group stream gives it its
/// group, its object number, its payload length and, where that length is
/// zero, its status; any other stream has no such fields.
pub open spec fn spec_parse_continuation(h: ObjectHeader, s: Seq<u8>, t: MessageType) -> Parsed<
    ObjectHeader,
> {
    if t is StreamHeaderTrack {
        match spec_parse_varint(s) {
            Err(e) => Err(e),
            Ok((group_id, n)) => Ok((ObjectHeader { group_id, ..h }, n)),
        }
    } else if t is StreamHeaderGroup {
        match spec_parse_varints(s, 3) {
            Err(e) => Err(e),
            Ok((f, n)) => {
                let filled = ObjectHeader {
                    group_id: f[0],
                    object_id: f[1],
                    object_payload_length: Some(f[2]),
                    object_status: ObjectStatus::Normal,
                    ..h
                };
                if f[2] == 0 {
                    match spec_parse_varint(s.skip(n as int)) {
                        Err(e) => Err(e),
                        Ok((status, m)) => Ok(
                            (
                                ObjectHeader {
                                    object_status: ObjectStatus::spec_from_value(status),
                                    ..filled
                                },
                                n + m,
                            ),
                        ),
                    }
                } else {
                    Ok((filled, n))
                }
            },
        }
    } else {
        Ok((h, 0))
    }
}

/// Reads the per-object fields of a stream opened by `message_type` from the
/// front of `buf` and fills them into `header`.
pub fn parse_continuation(header: ObjectHeader, buf: &[u8], message_type: MessageType) -> (r:
    Result<(ObjectHeader, usize), Error>)
    ensures
        decoded(r) == spec_parse_continuation(header, buf@, message_type),
        r matches Ok((_, n)) ==> n <= buf@.len(),
{
    match message_type {
        MessageType::StreamHeaderTrack => {
            let (group_id, n) = deserialize_u64(buf)?;
            let mut filled = header;
            filled.group_id = group_id;
            Ok((filled, n))
        },
        MessageType::StreamHeaderGroup => {
            let (f, n) = deserialize_varints(buf, 3)?;
            let mut filled = header;
            filled.group_id = f[0];
            filled.object_id = f[1];
            filled.object_payload_length = Some(f[2]);
            filled.object_status = ObjectStatus::Normal;
            if f[2] == 0 {
                let (status, m) = deserialize_u64(slice_subrange(buf, n, buf.len()))?;
                filled.object_status = ObjectStatus::from(status);
                Ok((filled, n + m))
            } else {
                Ok((filled, n))
            }
        },
        _ => Ok((header, 0)),
    }
}

/// The text that reports an object whose status is not one of the known ones.
pub open spec fn spec_reason_invalid_status() -> Seq<char> {
    "Invalid object status"@
}

/// The text that reports payload bytes behind a status that allows none.
pub open spec fn spec_reason_status_with_payload() -> Seq<char> {
    "Object with non-normal status has payload"@
}

/// The text that reports a stream that ended short of a declared length.
pub open spec fn spec_reason_fin_mid_payload() -> Seq<char> {
    "FIN mid-payload"@
}

/// One step in the delivery of an object: what was learned of the object and
/// how much of the input belongs to it.
#[derive(Debug, Copy, Clone, Eq, PartialEq, Structural)]
pub struct ObjectStep {
    /// The object's metadata, with its per-object fields filled in.
    pub header: ObjectHeader,
    /// The number of bytes taken: the per-object fields, then the payload.
    pub consumed: usize,
    /// How many of the bytes taken, at their end, are payload.
    pub payload_len: usize,
    /// True where nothing more of the object will come.
    pub complete: bool,
    /// The number of payload bytes of a declared length that are still owed.
    pub remaining: u64,
}

/// The mathematical content of an [`ObjectStep`].
pub struct ObjectStepView {
    pub header: ObjectHeader,
    pub consumed: nat,
    pub payload_len: nat,
    pub complete: bool,
    pub remaining: nat,
}

impl View for ObjectStep {
    type V = ObjectStepView;

    open spec fn view(&self) -> ObjectStepView {
        ObjectStepView {
            header: self.header,
            consumed: self.consumed as nat,
            payload_len: self.payload_len as nat,
            complete: self.complete,
            remaining: self.remaining as nat,
        }
    }
}

/// What the bytes `s` that follow an object's header `h` on a stream opened
/// by `t` amount to, `fin` telling whether the stream ends with them.
///
/// The per-object fields come first. An object of invalid status is a
/// violation, and so is one of another status than `Normal` on an object
/// stream or datagram that bytes follow; otherwise such an object is complete
/// and has no payload. A `Normal` object without a declared length takes all
/// the bytes and is complete when the stream ends. One with a declared length
/// takes that many bytes, or all there are if they are fewer; that the stream
/// ends before the length is reached is a violation.
pub open spec fn spec_object_payload(h: ObjectHeader, s: Seq<u8>, t: MessageType, fin: bool)
    -> Result<ObjectStepView, ErrorKind> {
    match spec_parse_continuation(h, s, t) {
        Err(e) => Err(e),
        Ok((header, n)) => {
            let available = (s.len() - n) as nat;
            if header.object_status is Invalid {
                Err(ErrorKind::ProtocolViolation(spec_reason_invalid_status()))
            } else if !(header.object_status is Normal) {
                if (t is ObjectStream || t is ObjectDatagram) && available > 0 {
                    Err(ErrorKind::ProtocolViolation(spec_reason_status_with_payload()))
                } else {
                    Ok(
                        ObjectStepView {
                            header,
                            consumed: n,
                            payload_len: 0,
                            complete: true,
                            remaining: 0,
                        },
                    )
                }
            } else {
                match header.object_payload_length {
                    None => Ok(
                        ObjectStepView {
                            header,
                            consumed: s.len(),
                            payload_len: available,
                            complete: fin,
                            remaining: 0,
                        },
                    ),
                    Some(length) => {
                        if fin && length > available {
                            Err(ErrorKind::ProtocolViolation(spec_reason_fin_mid_payload()))
                        } else if length <= available {
                            Ok(
                                ObjectStepView {
                                    header,
                                    consumed: n + length as nat,
                                    payload_len: length as nat,
                                    complete: true,
                                    remaining: 0,
                                },
                            )
                        } else {
                            Ok(
                                ObjectStepView {
                                    header,
                                    consumed: s.len(),
                                    payload_len: available,
                                    complete: false,
                                    remaining: (length - available) as nat,
                                },
                            )
                        }
                    },
                }
            }
        },
    }
}

/// The mathematical content of the result of a step.
pub open spec fn stepped(r: Result<ObjectStep, Error>) -> Result<ObjectStepView, ErrorKind> {
    match r {
        Ok(step) => Ok(step@),
        Err(e) => Err(e@),
    }
}

/// Works out what the bytes `buf` that follow an object's header amount to.
pub fn process_object_payload(
    header: ObjectHeader,
    buf: &[u8],
    message_type: MessageType,
    fin: bool,
) -> (r: Result<ObjectStep, Error>)
    ensures
        stepped(r) == spec_object_payload(header, buf@, message_type, fin),
        r matches Ok(step) ==> step.payload_len <= step.consumed <= buf@.len(),
{
    let (header, n) = parse_continuation(header, buf, message_type)?;
    let available: usize = buf.len() - n;
    match header.object_status {
        ObjectStatus::Invalid => {
            return Err(Error::ErrProtocolViolation("Invalid object status".to_owned()));
        },
        ObjectStatus::Normal => {},
        _ => {
            // It is impossible to express an explicit length with this status.
            if matches!(message_type, MessageType::ObjectStream | MessageType::ObjectDatagram)
                && available > 0 {
                return Err(
                    Error::ErrProtocolViolation(
                        "Object with non-normal status has payload".to_owned(),
                    ),
                );
            }
            return Ok(
                ObjectStep { header, consumed: n, payload_len: 0, complete: true, remaining: 0 },
            );
        },
    }
    match header.object_payload_length {
        None => Ok(
            ObjectStep {
                header,
                consumed: buf.len(),
                payload_len: available,
                complete: fin,
                remaining: 0,
            },
        ),
        Some(length) => {
            if fin && length > available as u64 {
                return Err(Error::ErrProtocolViolation("FIN mid-payload".to_owned()));
            }
            if length <= available as u64 {
                Ok(
                    ObjectStep {
                        header,
                        consumed: n + length as usize,
                        payload_len: length as usize,
                        complete: true,
                        remaining: 0,
                    },
                )
            } else {
                Ok(
                    ObjectStep {
                        header,
                        consumed: buf.len(),
                        payload_len: available,
                        complete: false,
                        remaining: length - available as u64,
                    },
                )
            }
        },
    }
}

/// An object that follows another on its stream takes at least one byte:
/// on a track or group stream its per-object fields, and on any other stream
/// nothing may follow an object whose status is not `Normal`.
pub proof fn lemma_next_object_takes_bytes(h: ObjectHeader, s: Seq<u8>, fin: bool)
    requires
        s.len() > 0,
        !(h.object_status is Normal) || h.object_forwarding_preference is Track
            || h.object_forwarding_preference is Group,
    ensures
        spec_object_payload(
            h,
            s,
            h.object_forwarding_preference.spec_message_type(),
            fin,
        ) matches Ok(step) ==> 1 <= step.consumed,
{
    lemma_decode_bound(s);
    lemma_parse_varints_bound(s, 3);
}

/// A header and a step take their bytes from the input they are given.
pub proof fn lemma_object_within(h: ObjectHeader, s: Seq<u8>, t: MessageType, fin: bool)
    ensures
        spec_parse_object_header(s, t) matches Ok((_, n)) ==> n <= s.len(),
        spec_object_payload(h, s, t, fin) matches Ok(step) ==> step.payload_len <= step.consumed
            <= s.len(),
{
    lemma_parse_varints_bound(s, spec_header_fields(t));
    lemma_decode_bound(s);
    lemma_parse_varints_bound(s, 3);
    if let Ok((_, n)) = spec_parse_varints(s, 3) {
        lemma_decode_bound(s.skip(n as int));
    }
}

} // verus!
