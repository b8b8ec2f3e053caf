//! The stream parser: it takes the bytes of a stream as they arrive, in
//! pieces of any size, and turns them into a queue of events.

use crate::buf::{
    buffer_advance, buffer_as_ref, buffer_copy_to_bytes, buffer_new, buffer_put,
    buffer_remaining, buffered_in, bytes_copy, payload_of,
};
use crate::codec::encoded;
use crate::error::{Error, ErrorKind};
use crate::message::announce::Announce;
use crate::message::announce_cancel::AnnounceCancel;
use crate::message::announce_error::AnnounceError;
use crate::message::announce_ok::AnnounceOk;
use crate::message::client_setup::ClientSetup;
use crate::message::control::{ControlMessage, ControlMessageView};
use crate::message::go_away::GoAway;
use crate::message::server_setup::ServerSetup;
use crate::message::subscribe::Subscribe;
use crate::message::subscribe_done::SubscribeDone;
use crate::message::subscribe_error::SubscribeError;
use crate::message::subscribe_ok::SubscribeOk;
use crate::message::subscribe_update::SubscribeUpdate;
use crate::message::track_status::TrackStatus;
use crate::message::track_status_request::TrackStatusRequest;
use crate::message::unannounce::UnAnnounce;
use crate::message::unsubscribe::UnSubscribe;
use crate::message::object::{
    lemma_next_object_takes_bytes, lemma_object_within, parse_object_header, process_object_payload,
    spec_object_payload, spec_parse_object_header,
    ObjectForwardingPreference, ObjectHeader, ObjectStatus,
};
use crate::message::{MessageType, MAX_MESSSAGE_HEADER_SIZE};
use bytes::{Bytes, BytesMut};
use std::collections::VecDeque;
use vstd::prelude::*;
use vstd::slice::slice_subrange;

verus! {

/// The class of a failure that ends a session.
#[derive(Debug, Copy, Clone, Eq, PartialEq, Structural)]
pub enum ParserErrorCode {
    NoError,
    InternalError,
    Unauthorized,
    ProtocolViolation,
    DuplicateTrackAlias,
    ParameterLengthMismatch,
    GoawayTimeout,
}

impl ParserErrorCode {
    /// The integer that stands for the code on the wire.
    pub open spec fn spec_value(self) -> u64 {
        match self {
            ParserErrorCode::NoError => 0x0,
            ParserErrorCode::InternalError => 0x1,
            ParserErrorCode::Unauthorized => 0x2,
            ParserErrorCode::ProtocolViolation => 0x3,
            ParserErrorCode::DuplicateTrackAlias => 0x4,
            ParserErrorCode::ParameterLengthMismatch => 0x5,
            ParserErrorCode::GoawayTimeout => 0x10,
        }
    }

    /// The integer that stands for the code on the wire.
    pub fn value(self) -> (r: u64)
        ensures
            r == self.spec_value(),
    {
        match self {
            ParserErrorCode::NoError => 0x0,
            ParserErrorCode::InternalError => 0x1,
            ParserErrorCode::Unauthorized => 0x2,
            ParserErrorCode::ProtocolViolation => 0x3,
            ParserErrorCode::DuplicateTrackAlias => 0x4,
            ParserErrorCode::ParameterLengthMismatch => 0x5,
            ParserErrorCode::GoawayTimeout => 0x10,
        }
    }
}

/// What the parser tells its caller.
#[derive(Debug, PartialEq)]
pub enum MessageParserEvent {
    /// The stream is broken: the class of the failure and what happened.
    ParsingError(ParserErrorCode, String),
    /// Payload of an object: its metadata, the bytes, and whether they are
    /// the last of the object.
    ObjectMessage(ObjectHeader, Bytes, bool),
    ClientSetupMessage(ClientSetup),
    ServerSetupMessage(ServerSetup),
    SubscribeMessage(Subscribe),
    SubscribeOkMessage(SubscribeOk),
    SubscribeErrorMessage(SubscribeError),
    UnSubscribeMessage(UnSubscribe),
    SubscribeDoneMessage(SubscribeDone),
    SubscribeUpdateMessage(SubscribeUpdate),
    AnnounceMessage(Announce),
    AnnounceOkMessage(AnnounceOk),
    AnnounceErrorMessage(AnnounceError),
    AnnounceCancelMessage(AnnounceCancel),
    TrackStatusRequestMessage(TrackStatusRequest),
    UnAnnounceMessage(UnAnnounce),
    TrackStatusMessage(TrackStatus),
    GoAwayMessage(GoAway),
}

/// The mathematical content of a [`MessageParserEvent`].
pub enum EventView {
    ParsingError(ParserErrorCode, Seq<char>),
    ObjectMessage(ObjectHeader, Seq<u8>, bool),
    Message(ControlMessageView),
}

impl View for MessageParserEvent {
    type V = EventView;

    open spec fn view(&self) -> EventView {
        match self {
            MessageParserEvent::ParsingError(code, reason) => EventView::ParsingError(
                *code,
                reason@,
            ),
            MessageParserEvent::ObjectMessage(header, payload, last) => EventView::ObjectMessage(
                *header,
                payload_of(*payload),
                *last,
            ),
            MessageParserEvent::ClientSetupMessage(m) => EventView::Message(
                ControlMessageView::ClientSetup(m@),
            ),
            MessageParserEvent::ServerSetupMessage(m) => EventView::Message(
                ControlMessageView::ServerSetup(m@),
            ),
            MessageParserEvent::SubscribeMessage(m) => EventView::Message(
                ControlMessageView::Subscribe(m@),
            ),
            MessageParserEvent::SubscribeOkMessage(m) => EventView::Message(
                ControlMessageView::SubscribeOk(m@),
            ),
            MessageParserEvent::SubscribeErrorMessage(m) => EventView::Message(
                ControlMessageView::SubscribeError(m@),
            ),
            MessageParserEvent::UnSubscribeMessage(m) => EventView::Message(
                ControlMessageView::UnSubscribe(m@),
            ),
            MessageParserEvent::SubscribeDoneMessage(m) => EventView::Message(
                ControlMessageView::SubscribeDone(m@),
            ),
            MessageParserEvent::SubscribeUpdateMessage(m) => EventView::Message(
                ControlMessageView::SubscribeUpdate(m@),
            ),
            MessageParserEvent::AnnounceMessage(m) => EventView::Message(
                ControlMessageView::Announce(m@),
            ),
            MessageParserEvent::AnnounceOkMessage(m) => EventView::Message(
                ControlMessageView::AnnounceOk(m@),
            ),
            MessageParserEvent::AnnounceErrorMessage(m) => EventView::Message(
                ControlMessageView::AnnounceError(m@),
            ),
            MessageParserEvent::AnnounceCancelMessage(m) => EventView::Message(
                ControlMessageView::AnnounceCancel(m@),
            ),
            MessageParserEvent::TrackStatusRequestMessage(m) => EventView::Message(
                ControlMessageView::TrackStatusRequest(m@),
            ),
            MessageParserEvent::UnAnnounceMessage(m) => EventView::Message(
                ControlMessageView::UnAnnounce(m@),
            ),
            MessageParserEvent::TrackStatusMessage(m) => EventView::Message(
                ControlMessageView::TrackStatus(m@),
            ),
            MessageParserEvent::GoAwayMessage(m) => EventView::Message(
                ControlMessageView::GoAway(m@),
            ),
        }
    }
}

impl MessageParserEvent {
    /// The event that hands a control message to the caller.
    pub fn from_message(message: ControlMessage) -> (r: Self)
        ensures
            r@ == EventView::Message(message@),
    {
        match message {
            ControlMessage::ClientSetup(m) => MessageParserEvent::ClientSetupMessage(m),
            ControlMessage::ServerSetup(m) => MessageParserEvent::ServerSetupMessage(m),
            ControlMessage::Subscribe(m) => MessageParserEvent::SubscribeMessage(m),
            ControlMessage::SubscribeOk(m) => MessageParserEvent::SubscribeOkMessage(m),
            ControlMessage::SubscribeError(m) => MessageParserEvent::SubscribeErrorMessage(m),
            ControlMessage::UnSubscribe(m) => MessageParserEvent::UnSubscribeMessage(m),
            ControlMessage::SubscribeDone(m) => MessageParserEvent::SubscribeDoneMessage(m),
            ControlMessage::SubscribeUpdate(m) => MessageParserEvent::SubscribeUpdateMessage(m),
            ControlMessage::Announce(m) => MessageParserEvent::AnnounceMessage(m),
            ControlMessage::AnnounceOk(m) => MessageParserEvent::AnnounceOkMessage(m),
            ControlMessage::AnnounceError(m) => MessageParserEvent::AnnounceErrorMessage(m),
            ControlMessage::AnnounceCancel(m) => MessageParserEvent::AnnounceCancelMessage(m),
            ControlMessage::TrackStatusRequest(m) => MessageParserEvent::TrackStatusRequestMessage(
                m,
            ),
            ControlMessage::UnAnnounce(m) => MessageParserEvent::UnAnnounceMessage(m),
            ControlMessage::TrackStatus(m) => MessageParserEvent::TrackStatusMessage(m),
            ControlMessage::GoAway(m) => MessageParserEvent::GoAwayMessage(m),
        }
    }
}

/// The text that reports input behind the end of the stream.
pub open spec fn spec_reason_data_after_end() -> Seq<char> {
    "Data after end of stream"@
}

/// The text that reports a stream that ended inside an object's payload.
pub open spec fn spec_reason_ended_mid_payload() -> Seq<char> {
    "stream ended mid OBJECT payload"@
}

/// The text that reports a stream that ended inside a message.
pub open spec fn spec_reason_ended_mid_message() -> Seq<char> {
    "stream ended mid message"@
}

/// The text that reports a datagram object on a stream.
pub open spec fn spec_reason_datagram_on_stream() -> Seq<char> {
    "Received OBJECT_DATAGRAM on stream"@
}

/// The text that reports a message that outgrew the parser's buffer.
pub open spec fn spec_reason_too_large() -> Seq<char> {
    "message too large to buffer"@
}

/// The text that reports a stream that ended on an incomplete message.
pub open spec fn spec_reason_incomplete_at_end() -> Seq<char> {
    "incomplete message at end of stream"@
}

/// The state of a parser, as a mathematical value.
#[verifier::ext_equal]
pub struct ParserState {
    /// Whether the parser serves a datagram-capable transport.
    pub use_web_transport: bool,
    /// True once the end of the stream or a fatal error has been seen.
    pub terminated: bool,
    /// True once an error has been reported.
    pub error_reported: bool,
    /// The bytes that have arrived and are not resolved into a message yet.
    pub buffered: Seq<u8>,
    /// The object in delivery on this stream, if any.
    pub object: Option<ObjectHeader>,
    /// The number of payload bytes of a declared length that are still owed.
    pub payload_remaining: nat,
    /// The events that the caller has not taken yet, oldest first.
    pub events: Seq<EventView>,
}

impl ParserState {
    /// The state of a parser that has seen nothing.
    pub open spec fn new(use_web_transport: bool) -> ParserState {
        ParserState {
            use_web_transport,
            terminated: false,
            error_reported: false,
            buffered: Seq::empty(),
            object: None,
            payload_remaining: 0,
            events: Seq::empty(),
        }
    }

    /// The state with `event` added to the queue.
    pub open spec fn emit(self, event: EventView) -> ParserState {
        ParserState { events: self.events.push(event), ..self }
    }

    /// A fatal error: the parser is terminated and, unless an error was
    /// reported before, the error is queued.
    pub open spec fn report(self, code: ParserErrorCode, reason: Seq<char>) -> ParserState {
        if self.error_reported {
            self
        } else {
            ParserState {
                terminated: true,
                error_reported: true,
                events: self.events.push(EventView::ParsingError(code, reason)),
                ..self
            }
        }
    }

    /// The state after a codec failed with `e`: an error that ends a session
    /// is reported, any other failure changes nothing.
    pub open spec fn report_violation(self, e: ErrorKind) -> ParserState {
        match e.violation() {
            Some((code, reason)) => self.report(code, reason),
            None => self,
        }
    }

    /// True where the metadata of an object was delivered but not all of its
    /// payload: the object is `Normal` and either runs to the end of the
    /// stream or is still owed bytes of its declared length.
    pub open spec fn payload_in_progress(self) -> bool {
        match self.object {
            Some(h) => h.object_status is Normal && (h.object_forwarding_preference is Object
                || h.object_forwarding_preference is Datagram || self.payload_remaining > 0),
            None => false,
        }
    }

    /// One object at the front of the buffer, behind the `at` bytes of its
    /// message type: its header, unless the stream's header is known, then
    /// what [`spec_object_payload`] makes of the bytes that follow. The
    /// object's payload is queued and the bytes that were taken are counted.
    /// A failure leaves the object state as it was; a violation is reported.
    pub open spec fn process_object(self, t: MessageType, at: nat, fin: bool) -> (
        ParserState,
        Result<nat, ErrorKind>,
    ) {
        let head = match self.object {
            Some(h) => Ok((h, 0nat)),
            None => spec_parse_object_header(self.buffered.skip(at as int), t),
        };
        match head {
            Err(e) => (self, Err(e)),
            Ok((h, n)) => {
                let input = self.buffered.skip((at + n) as int);
                match spec_object_payload(h, input, t, fin) {
                    Err(e) => (self.report_violation(e), Err(e)),
                    Ok(step) => (
                        ParserState {
                            object: Some(step.header),
                            payload_remaining: step.remaining,
                            ..self
                        }.emit(
                            EventView::ObjectMessage(
                                step.header,
                                input.subrange(
                                    step.consumed - step.payload_len,
                                    step.consumed as int,
                                ),
                                step.complete,
                            ),
                        ),
                        Ok(at + n + step.consumed),
                    ),
                }
            },
        }
    }

    /// One message at the front of the buffer. Where an object was delivered
    /// in full, the next object of the stream follows without a message type.
    /// Otherwise the message type decides: a datagram object is a violation
    /// on a stream, the other object types open an object, and any other
    /// type is a control message, which is queued whole.
    pub open spec fn process_message(self, fin: bool) -> (ParserState, Result<nat, ErrorKind>) {
        if self.object is Some && !self.payload_in_progress() {
            self.process_object(
                self.object->0.object_forwarding_preference.spec_message_type(),
                0,
                fin,
            )
        } else {
            match MessageType::spec_parse(self.buffered) {
                Err(e) => (self, Err(e)),
                Ok((t, at)) => {
                    if t is ObjectDatagram {
                        (
                            self.report(
                                ParserErrorCode::ProtocolViolation,
                                spec_reason_datagram_on_stream(),
                            ),
                            Err(ErrorKind::InvalidMessageType(t.spec_value())),
                        )
                    } else if t is ObjectStream || t is StreamHeaderTrack
                        || t is StreamHeaderGroup {
                        self.process_object(t, at, fin)
                    } else {
                        match ControlMessage::spec_parse(self.buffered) {
                            Err(e) => (self.report_violation(e), Err(e)),
                            Ok((m, n)) => (self.emit(EventView::Message(m)), Ok(n)),
                        }
                    }
                },
            }
        }
    }

    /// The state after a message could not be read: fatal where more than
    /// the header ceiling is buffered or the stream has ended, and otherwise
    /// a wait for more input.
    pub open spec fn give_up(self, fin: bool) -> ParserState {
        if self.buffered.len() > MAX_MESSSAGE_HEADER_SIZE {
            self.report(ParserErrorCode::InternalError, spec_reason_too_large())
        } else if fin {
            self.report(ParserErrorCode::ProtocolViolation, spec_reason_incomplete_at_end())
        } else {
            self
        }
    }

    /// Message after message is read from the front of the buffer, until the
    /// buffer is empty or a message cannot be read. (A message that is read
    /// takes at least one byte.)
    pub open spec fn parse_messages(self, fin: bool) -> ParserState
        decreases self.buffered.len(),
    {
        if self.buffered.len() == 0 {
            self
        } else {
            let (next, r) = self.process_message(fin);
            match r {
                Err(_) => next.give_up(fin),
                Ok(n) => {
                    if 0 < n <= self.buffered.len() {
                        ParserState {
                            buffered: self.buffered.skip(n as int),
                            ..next
                        }.parse_messages(fin)
                    } else {
                        next
                    }
                },
            }
        }
    }

    /// What is done with the buffer once new bytes have been added to it.
    /// Payload of an object in delivery is handed on at once: all the bytes
    /// where the object runs to the end of the stream, and otherwise the
    /// bytes up to its declared length, behind which messages are read.
    pub open spec fn deliver(self, fin: bool) -> ParserState {
        if self.payload_in_progress() {
            let h = self.object->0;
            if h.object_payload_length is None {
                ParserState {
                    buffered: Seq::empty(),
                    object: if fin {
                        None
                    } else {
                        self.object
                    },
                    ..self
                }.emit(EventView::ObjectMessage(h, self.buffered, fin))
            } else if self.buffered.len() < self.payload_remaining {
                ParserState {
                    buffered: Seq::empty(),
                    payload_remaining: (self.payload_remaining - self.buffered.len()) as nat,
                    ..self
                }.emit(EventView::ObjectMessage(h, self.buffered, false))
            } else {
                ParserState {
                    buffered: self.buffered.skip(self.payload_remaining as int),
                    payload_remaining: 0,
                    ..self
                }.emit(
                    EventView::ObjectMessage(
                        h,
                        self.buffered.take(self.payload_remaining as int),
                        true,
                    ),
                ).parse_messages(fin)
            }
        } else {
            self.parse_messages(fin)
        }
    }

    /// The state after `chunk` has arrived, `fin` telling whether the stream
    /// ends with it. Input behind the end of the stream is a violation. A
    /// stream that ends short of an object's declared length, or on an empty
    /// chunk while a message is partly buffered, is a violation too.
    /// Otherwise the chunk is added to the buffer and the buffer is worked
    /// off.
    pub open spec fn process_data(self, chunk: Seq<u8>, fin: bool) -> ParserState {
        if self.terminated {
            self.report(ParserErrorCode::ProtocolViolation, spec_reason_data_after_end())
        } else {
            let s = ParserState { terminated: fin, ..self };
            if fin && s.payload_in_progress() && s.payload_remaining > s.buffered.len()
                + chunk.len() {
                s.report(ParserErrorCode::ProtocolViolation, spec_reason_ended_mid_payload())
            } else if fin && s.buffered.len() > 0 && chunk.len() == 0 {
                s.report(ParserErrorCode::ProtocolViolation, spec_reason_ended_mid_message())
            } else {
                ParserState { buffered: s.buffered + chunk, ..s }.deliver(fin)
            }
        }
    }

    /// The invariant of a parser between two calls: while it is not
    /// terminated it buffers no more than the header ceiling.
    pub open spec fn wf(self) -> bool {
        &&& self.error_reported ==> self.terminated
        &&& !self.terminated ==> self.buffered.len() <= MAX_MESSSAGE_HEADER_SIZE
    }

    /// The state with the oldest event taken off the queue.
    pub open spec fn without_first_event(self) -> ParserState {
        ParserState { events: self.events.skip(1), ..self }
    }
}

/// What a datagram amounts to: the object's header and its payload. The
/// datagram holds the message type of a datagram object, the object's header
/// and then nothing but payload.
pub open spec fn spec_process_datagram(s: Seq<u8>) -> Result<(ObjectHeader, Seq<u8>), ErrorKind> {
    match MessageType::spec_parse(s) {
        Err(e) => Err(e),
        Ok((t, at)) => {
            if !(t is ObjectDatagram) {
                Err(ErrorKind::InvalidMessageType(t.spec_value()))
            } else {
                match spec_parse_object_header(s.skip(at as int), t) {
                    Err(e) => Err(e),
                    Ok((h, n)) => {
                        let input = s.skip((at + n) as int);
                        match spec_object_payload(h, input, t, true) {
                            Err(e) => Err(e),
                            Ok(step) => Ok(
                                (
                                    step.header,
                                    input.subrange(
                                        step.consumed - step.payload_len,
                                        step.consumed as int,
                                    ),
                                ),
                            ),
                        }
                    },
                }
            }
        },
    }
}

/// The parser of one stream.
pub struct MessageParser {
    use_web_transport: bool,
    /// Fatal error or fin. No more parsing.
    no_more_data: bool,
    parsing_error: bool,
    buffered_message: BytesMut,
    /// Metadata for an object which is delivered in parts.
    object_metadata: Option<ObjectHeader>,
    payload_length_remaining: u64,
    parser_events: VecDeque<MessageParserEvent>,
}

impl View for MessageParser {
    type V = ParserState;

    closed spec fn view(&self) -> ParserState {
        ParserState {
            use_web_transport: self.use_web_transport,
            terminated: self.no_more_data,
            error_reported: self.parsing_error,
            buffered: buffered_in(self.buffered_message),
            object: self.object_metadata,
            payload_remaining: self.payload_length_remaining as nat,
            events: self.parser_events@.map_values(|e: MessageParserEvent| e@),
        }
    }
}

impl MessageParser {
    /// A parser for a stream of which nothing has arrived yet.
    pub fn new(use_web_transport: bool) -> (r: Self)
        ensures
            r@ == ParserState::new(use_web_transport),
            r@.wf(),
    {
        let r = MessageParser {
            use_web_transport,
            no_more_data: false,
            parsing_error: false,
            buffered_message: buffer_new(),
            object_metadata: None,
            payload_length_remaining: 0,
            parser_events: VecDeque::new(),
        };
        assert(r@ =~= ParserState::new(use_web_transport));
        r
    }

    /// Whether the parser serves a transport that can carry datagrams.
    pub fn use_web_transport(&self) -> (r: bool)
        ensures
            r == self@.use_web_transport,
    {
        self.use_web_transport
    }

    /// Tells whether the parser has seen the end of its stream or a fatal
    /// error, so that it takes no more input.
    pub fn is_terminated(&self) -> (r: bool)
        ensures
            r == self@.terminated,
    {
        self.no_more_data
    }

    /// Adds `event` to the queue.
    fn emit(&mut self, event: MessageParserEvent)
        ensures
            final(self)@ == old(self)@.emit(event@),
    {
        let ghost before = self.parser_events@;
        self.parser_events.push_back(event);
        assert(self.parser_events@.map_values(|e: MessageParserEvent| e@) =~= before.map_values(
            |e: MessageParserEvent| e@,
        ).push(event@));
        assert(self@ =~= old(self)@.emit(event@));
    }

    /// Reports a fatal error, unless one was reported before.
    fn parse_error(&mut self, error_code: ParserErrorCode, error_reason: String)
        ensures
            final(self)@ == old(self)@.report(error_code, error_reason@),
    {
        if self.parsing_error {
            return ;  // Don't send multiple parse errors.
        }
        self.no_more_data = true;
        self.parsing_error = true;
        self.emit(MessageParserEvent::ParsingError(error_code, error_reason));
        assert(self@ =~= old(self)@.report(error_code, error_reason@));
    }

    /// Reports `e` where it is a violation of the protocol.
    fn report_violation(&mut self, e: &Error)
        ensures
            final(self)@ == old(self)@.report_violation(e@),
    {
        if let Some((code, reason)) = e.violation() {
            self.parse_error(code, reason);
        }
    }

    /// Returns true if the stream has delivered all object metadata common to
    /// all objects on that stream.
    fn object_stream_initialized(&self) -> (r: bool)
        ensures
            r == (self@.object is Some),
    {
        self.object_metadata.is_some()
    }

    /// Returns true if the stream has delivered all metadata but not all
    /// payload for the most recent object.
    fn object_payload_in_progress(&self) -> (r: bool)
        ensures
            r == self@.payload_in_progress(),
    {
        match self.object_metadata {
            Some(object_metadata) => {
                matches!(object_metadata.object_status, ObjectStatus::Normal) && (matches!(
                    object_metadata.object_forwarding_preference,
                    ObjectForwardingPreference::Object | ObjectForwardingPreference::Datagram
                ) || self.payload_length_remaining > 0)
            },
            None => false,
        }
    }

    /// Reads one object from the front of the buffer, behind the `at` bytes
    /// of its message type.
    fn process_object(&mut self, message_type: MessageType, at: usize, fin: bool) -> (r: Result<
        usize,
        Error,
    >)
        requires
            at <= old(self)@.buffered.len(),
        ensures
            (final(self)@, encoded(r)) == old(self)@.process_object(message_type, at as nat, fin),
            r matches Ok(n) ==> at <= n <= old(self)@.buffered.len(),
            final(self)@.buffered == old(self)@.buffered,
            old(self)@.error_reported ==> final(self)@.error_reported,
            old(self)@.terminated ==> final(self)@.terminated,
            final(self)@.error_reported ==> old(self)@.error_reported || final(self)@.terminated,
    {
        let data = buffer_as_ref(&self.buffered_message);
        let head = match self.object_metadata {
            Some(header) => Ok((header, 0usize)),
            None => parse_object_header(slice_subrange(data, at, data.len()), message_type),
        };
        let (header, n) = match head {
            Ok(read) => read,
            Err(e) => {
                return Err(e);
            },
        };
        let input = slice_subrange(data, at + n, data.len());
        assert(input@ =~= self@.buffered.skip((at + n) as int));
        match process_object_payload(header, input, message_type, fin) {
            Ok(step) => {
                let payload = bytes_copy(
                    slice_subrange(input, step.consumed - step.payload_len, step.consumed),
                );
                self.object_metadata = Some(step.header);
                self.payload_length_remaining = step.remaining;
                self.emit(MessageParserEvent::ObjectMessage(step.header, payload, step.complete));
                assert(self@ =~= old(self)@.process_object(message_type, at as nat, fin).0);
                Ok(at + n + step.consumed)
            },
            Err(e) => {
                self.report_violation(&e);
                Err(e)
            },
        }
    }

    /// Reads one message from the front of the buffer.
    fn process_message(&mut self, fin: bool) -> (r: Result<usize, Error>)
        requires
            old(self)@.buffered.len() > 0,
        ensures
            (final(self)@, encoded(r)) == old(self)@.process_message(fin),
            r matches Ok(n) ==> 1 <= n <= old(self)@.buffered.len(),
            final(self)@.buffered == old(self)@.buffered,
            old(self)@.error_reported ==> final(self)@.error_reported,
            old(self)@.terminated ==> final(self)@.terminated,
            final(self)@.error_reported ==> old(self)@.error_reported || final(self)@.terminated,
    {
        if self.object_stream_initialized() && !self.object_payload_in_progress() {
            // This is a follow-on object in a stream.
            if let Some(object_metadata) = self.object_metadata {
                proof {
                    assert(self@.buffered.skip(0) =~= self@.buffered);
                    lemma_next_object_takes_bytes(object_metadata, self@.buffered, fin);
                }
                return self.process_object(
                    object_metadata.object_forwarding_preference.get_message_type(),
                    0,
                    fin,
                );
            }
        }
        let decoded_type = MessageType::decode(buffer_as_ref(&self.buffered_message));
        let (message_type, at) = match decoded_type {
            Ok(read) => read,
            Err(e) => {
                return Err(e);
            },
        };
        match message_type {
            MessageType::ObjectDatagram => {
                self.parse_error(
                    ParserErrorCode::ProtocolViolation,
                    "Received OBJECT_DATAGRAM on stream".to_owned(),
                );
                Err(Error::ErrInvalidMessageType(message_type.value()))
            },
            MessageType::ObjectStream
            | MessageType::StreamHeaderTrack
            | MessageType::StreamHeaderGroup => self.process_object(message_type, at, fin),
            _ => {
                let read = ControlMessage::deserialize(buffer_as_ref(&self.buffered_message));
                match read {
                    Ok((message, message_len)) => {
                        self.emit(MessageParserEvent::from_message(message));
                        Ok(message_len)
                    },
                    Err(e) => {
                        self.report_violation(&e);
                        Err(e)
                    },
                }
            },
        }
    }

    /// Takes the bytes `chunk` that arrived on the stream, `fin` telling
    /// whether the stream ends with them. Each complete message in the
    /// buffer is queued as an event, and so is the payload of objects as it
    /// arrives. A failure is queued as a `ParsingError`, once, and ends the
    /// parsing: every later call is refused.
    pub fn process_data(&mut self, chunk: &[u8], fin: bool)
        requires
            old(self)@.wf(),
            chunk@.len() + MAX_MESSSAGE_HEADER_SIZE <= isize::MAX,
        ensures
            final(self)@ == old(self)@.process_data(chunk@, fin),
            final(self)@.wf(),
            fin || old(self)@.terminated ==> final(self)@.terminated,
    {
        if self.no_more_data {
            self.parse_error(
                ParserErrorCode::ProtocolViolation,
                "Data after end of stream".to_owned(),
            );
            return ;
        }
        let buffered = buffer_remaining(&self.buffered_message);
        // Check for early fin
        if fin {
            self.no_more_data = true;
            if self.object_payload_in_progress() && self.payload_length_remaining > (buffered
                + chunk.len()) as u64 {
                self.parse_error(
                    ParserErrorCode::ProtocolViolation,
                    "stream ended mid OBJECT payload".to_owned(),
                );
                return ;
            }
            if buffered > 0 && chunk.len() == 0 {
                self.parse_error(
                    ParserErrorCode::ProtocolViolation,
                    "stream ended mid message".to_owned(),
                );
                return ;
            }
        }
        buffer_put(&mut self.buffered_message, chunk);
        let ghost appended = self@;
        assert(appended =~= ParserState {
            buffered: old(self)@.buffered + chunk@,
            terminated: fin,
            ..old(self)@
        });

        // There are three cases: the parser has already delivered an OBJECT
        // header and is now delivering payload; part of a message is in the
        // buffer; or no message is in progress.
        if self.object_payload_in_progress() {
            if let Some(object_metadata) = self.object_metadata {
                // This is additional payload for an OBJECT.
                let available = buffer_remaining(&self.buffered_message);
                if object_metadata.object_payload_length.is_none() {
                    // Deliver the data and exit.
                    proof {
                        assert(appended.buffered.take(available as int) =~= appended.buffered);
                        assert(appended.buffered.skip(available as int) =~= Seq::<u8>::empty());
                    }
                    let payload = buffer_copy_to_bytes(&mut self.buffered_message, available);
                    self.emit(MessageParserEvent::ObjectMessage(object_metadata, payload, fin));
                    if fin {
                        self.object_metadata = None;
                    }
                    assert(self@ =~= appended.deliver(fin));
                    return ;
                }
                if (available as u64) < self.payload_length_remaining {
                    // Does not finish the payload; deliver and exit.
                    proof {
                        assert(appended.buffered.take(available as int) =~= appended.buffered);
                        assert(appended.buffered.skip(available as int) =~= Seq::<u8>::empty());
                    }
                    self.payload_length_remaining = self.payload_length_remaining
                        - available as u64;
                    let payload = buffer_copy_to_bytes(&mut self.buffered_message, available);
                    self.emit(MessageParserEvent::ObjectMessage(object_metadata, payload, false));
                    assert(self@ =~= appended.deliver(fin));
                    return ;
                }
                // Finishes the payload. Deliver and continue.
                let payload = buffer_copy_to_bytes(
                    &mut self.buffered_message,
                    self.payload_length_remaining as usize,
                );
                self.emit(MessageParserEvent::ObjectMessage(object_metadata, payload, true));
                self.payload_length_remaining = 0;  // Expect a new object.
            }
        }
        let ghost entry = self@;
        assert(appended.deliver(fin) == entry.parse_messages(fin)) by {
            if appended.payload_in_progress() {
                assert(entry =~= ParserState {
                    buffered: appended.buffered.skip(appended.payload_remaining as int),
                    payload_remaining: 0,
                    ..appended
                }.emit(
                    EventView::ObjectMessage(
                        appended.object->0,
                        appended.buffered.take(appended.payload_remaining as int),
                        true,
                    ),
                ));
            } else {
                assert(entry =~= appended);
            }
        }
        while buffer_remaining(&self.buffered_message) > 0
            invariant
                self@.parse_messages(fin) == entry.parse_messages(fin),
                entry.parse_messages(fin) == old(self)@.process_data(chunk@, fin),
                self@.error_reported ==> self@.terminated,
                fin ==> self@.terminated,
            decreases self@.buffered.len(),
        {
            let ghost current = self@;
            match self.process_message(fin) {
                Ok(message_len) => {
                    buffer_advance(&mut self.buffered_message, message_len);
                    assert(self@ =~= ParserState {
                        buffered: current.buffered.skip(message_len as int),
                        ..current.process_message(fin).0
                    });
                },
                Err(_) => {
                    if buffer_remaining(&self.buffered_message) > MAX_MESSSAGE_HEADER_SIZE {
                        self.parse_error(
                            ParserErrorCode::InternalError,
                            "message too large to buffer".to_owned(),
                        );
                        return ;
                    }
                    if fin {
                        self.parse_error(
                            ParserErrorCode::ProtocolViolation,
                            "incomplete message at end of stream".to_owned(),
                        );
                        return ;
                    }
                    return ;
                },
            }
        }
    }

    /// Works out a datagram, which holds one object whole: the message type
    /// of a datagram object, the object's header and its payload. Nothing is
    /// kept from one datagram to the next.
    pub fn process_datagram(data: &[u8]) -> (r: Result<(ObjectHeader, Bytes), Error>)
        ensures
            match r {
                Ok((header, payload)) => spec_process_datagram(data@) == Ok::<_, ErrorKind>(
                    (header, payload_of(payload)),
                ),
                Err(e) => spec_process_datagram(data@) == Err::<(ObjectHeader, Seq<u8>), _>(e@),
            },
    {
        let (message_type, at) = MessageType::decode(data)?;
        if !matches!(message_type, MessageType::ObjectDatagram) {
            return Err(Error::ErrInvalidMessageType(message_type.value()));
        }
        let (header, n) = parse_object_header(
            slice_subrange(data, at, data.len()),
            message_type,
        )?;
        let input = slice_subrange(data, at + n, data.len());
        assert(input@ =~= data@.skip((at + n) as int));
        let step = process_object_payload(header, input, message_type, true)?;
        let payload = bytes_copy(
            slice_subrange(input, step.consumed - step.payload_len, step.consumed),
        );
        Ok((step.header, payload))
    }

    /// Takes the oldest event off the queue, if there is one.
    pub fn poll_event(&mut self) -> (r: Option<MessageParserEvent>)
        ensures
            match r {
                Some(event) => old(self)@.events.len() > 0 && event@ == old(self)@.events[0]
                    && final(self)@ == old(self)@.without_first_event(),
                None => old(self)@.events.len() == 0 && final(self)@ == old(self)@,
            },
            final(self)@.wf() == old(self)@.wf(),
    {
        let r = self.parser_events.pop_front();
        proof {
            if r is Some {
                assert(self@.events =~= old(self)@.events.skip(1));
                assert(self@ =~= old(self)@.without_first_event());
            } else {
                assert(self@ =~= old(self)@);
            }
        }
        r
    }
}

/// The bytes of `chunks`, one chunk after the other.
pub open spec fn spec_concat(chunks: Seq<Seq<u8>>) -> Seq<u8>
    decreases chunks.len(),
{
    if chunks.len() == 0 {
        Seq::empty()
    } else {
        chunks[0] + spec_concat(chunks.skip(1))
    }
}

impl ParserState {
    /// The state after `chunks` have arrived one by one, `fin` telling whether
    /// the stream ends with the last of them.
    pub open spec fn feed(self, chunks: Seq<Seq<u8>>, fin: bool) -> ParserState
        decreases chunks.len(),
    {
        if chunks.len() == 0 {
            self
        } else if chunks.len() == 1 {
            self.process_data(chunks[0], fin)
        } else {
            self.process_data(chunks[0], false).feed(chunks.skip(1), fin)
        }
    }

    /// True where nothing is in flight: the stream has not ended, nothing is
    /// buffered and no object is in delivery.
    pub open spec fn idle(self) -> bool {
        !self.terminated && self.buffered.len() == 0 && self.object is None
    }

    /// The state of a parser that was idle in state `self` once the first
    /// `fed` bytes of `message` have arrived, `message` being one complete
    /// control message `m`: the bytes are buffered until they are all there,
    /// and then the message is queued.
    pub open spec fn part_way(self, message: Seq<u8>, m: ControlMessageView, fed: nat)
        -> ParserState {
        if fed < message.len() {
            ParserState { buffered: message.take(fed as int), ..self }
        } else {
            self.emit(EventView::Message(m))
        }
    }
}

/// A message type that a control message was read under is not that of an
/// object.
proof fn lemma_control_type(s: Seq<u8>)
    ensures
        ControlMessage::spec_parse(s) matches Ok((_, n)) ==> {
            &&& MessageType::spec_parse(s) matches Ok((t, at))
            &&& !t.is_object()
            &&& 1 <= at <= n
        },
{
    crate::codec::varint::lemma_decode_bound(s);
}

/// While only a part of a message has arrived, the parser waits.
proof fn lemma_part_waits(s: ParserState, message: Seq<u8>, k: int)
    requires
        s.object is None,
        0 <= k < message.len(),
        s.buffered == message.take(k),
        message.len() <= MAX_MESSSAGE_HEADER_SIZE,
        ControlMessage::spec_parse(message) matches Ok((_, n)) && n == message.len(),
    ensures
        s.parse_messages(false) == s,
{
    if k > 0 {
        lemma_control_type(message);
        MessageType::lemma_parse_prefix(message, k);
        ControlMessage::lemma_parse_prefix(message, k);
        lemma_control_type(s.buffered);
    }
}

/// Once a message has arrived whole, it is queued and the buffer is empty.
proof fn lemma_whole_is_queued(
    s: ParserState,
    message: Seq<u8>,
    m: ControlMessageView,
    fin: bool,
)
    requires
        s.object is None,
        s.buffered == message,
        ControlMessage::spec_parse(message) == Ok::<_, ErrorKind>((m, message.len())),
    ensures
        s.parse_messages(fin) == (ParserState { buffered: Seq::empty(), ..s }).emit(
            EventView::Message(m),
        ),
{
    reveal_with_fuel(ParserState::parse_messages, 2);
    lemma_control_type(message);
    let (next, r) = s.process_message(fin);
    assert(r == Ok::<nat, ErrorKind>(message.len()));
    assert(message.skip(message.len() as int) =~= Seq::<u8>::empty());
    let rest = ParserState { buffered: s.buffered.skip(message.len() as int), ..next };
    assert(rest =~= (ParserState { buffered: Seq::empty(), ..s }).emit(EventView::Message(m)));
}

/// One chunk of a message that arrives in pieces: the parser goes from one
/// state part way to the next.
proof fn lemma_chunk(
    s: ParserState,
    message: Seq<u8>,
    m: ControlMessageView,
    fed: nat,
    chunk: Seq<u8>,
    fin: bool,
)
    requires
        s.idle(),
        message.len() <= MAX_MESSSAGE_HEADER_SIZE,
        ControlMessage::spec_parse(message) == Ok::<_, ErrorKind>((m, message.len())),
        fed + chunk.len() <= message.len(),
        message.subrange(fed as int, (fed + chunk.len()) as int) == chunk,
        fin ==> fed + chunk.len() == message.len(),
    ensures
        s.part_way(message, m, fed).process_data(chunk, fin) == (ParserState {
            terminated: fin,
            ..s.part_way(message, m, fed + chunk.len())
        }),
{
    let before = s.part_way(message, m, fed);
    let after = ParserState { terminated: fin, ..s.part_way(message, m, fed + chunk.len()) };
    lemma_control_type(message);
    assert(s.buffered =~= Seq::<u8>::empty());
    if fed < message.len() {
        let t = ParserState { terminated: fin, ..before };
        let appended = ParserState { buffered: t.buffered + chunk, ..t };
        assert(appended.buffered =~= message.take((fed + chunk.len()) as int));
        if fed + chunk.len() < message.len() {
            lemma_part_waits(appended, message, (fed + chunk.len()) as int);
            assert(appended =~= after);
        } else {
            assert(message.take(message.len() as int) =~= message);
            lemma_whole_is_queued(appended, message, m, fin);
            assert(before.process_data(chunk, fin) =~= after);
        }
    } else {
        assert(chunk =~= Seq::<u8>::empty());
        let t = ParserState { terminated: fin, ..before };
        let appended = ParserState { buffered: t.buffered + chunk, ..t };
        assert(appended =~= after);
    }
}

/// A message that arrives in pieces, the first `fed` bytes of it having
/// arrived before `chunks`.
proof fn lemma_chunks(
    s: ParserState,
    message: Seq<u8>,
    m: ControlMessageView,
    fed: nat,
    chunks: Seq<Seq<u8>>,
    fin: bool,
)
    requires
        s.idle(),
        message.len() <= MAX_MESSSAGE_HEADER_SIZE,
        ControlMessage::spec_parse(message) == Ok::<_, ErrorKind>((m, message.len())),
        chunks.len() >= 1,
        fed <= message.len(),
        message.skip(fed as int) == spec_concat(chunks),
    ensures
        s.part_way(message, m, fed).feed(chunks, fin) == (ParserState {
            terminated: fin,
            ..s.emit(EventView::Message(m))
        }),
    decreases chunks.len(),
{
    let chunk = chunks[0];
    let rest = spec_concat(chunks.skip(1));
    assert(message.skip(fed as int) == chunk + rest);
    assert(message.skip(fed as int).len() == chunk.len() + rest.len());
    assert(message.subrange(fed as int, (fed + chunk.len()) as int) =~= chunk) by {
        assert((chunk + rest).take(chunk.len() as int) =~= chunk);
    }
    if chunks.len() == 1 {
        assert(rest =~= Seq::<u8>::empty()) by {
            reveal_with_fuel(spec_concat, 2);
        }
        lemma_chunk(s, message, m, fed, chunk, fin);
    } else {
        lemma_chunk(s, message, m, fed, chunk, false);
        assert(message.skip((fed + chunk.len()) as int) =~= rest) by {
            assert((chunk + rest).skip(chunk.len() as int) =~= rest);
        }
        let next = s.part_way(message, m, fed + chunk.len());
        assert((ParserState { terminated: false, ..next }) =~= next);
        lemma_chunks(s, message, m, fed + chunk.len(), chunks.skip(1), fin);
    }
}

/// Chunked reassembly: a parser in which nothing is in flight, fed one
/// complete control message of no more than the header ceiling in pieces of
/// any sizes, the end of the stream being announced with the last piece or
/// not at all, ends in the state in which it ends when it is fed the message
/// whole, and so queues the same event.
pub proof fn lemma_chunked_reassembly(
    s: ParserState,
    message: Seq<u8>,
    chunks: Seq<Seq<u8>>,
    fin: bool,
)
    requires
        s.idle(),
        message.len() <= MAX_MESSSAGE_HEADER_SIZE,
        ControlMessage::spec_parse(message) matches Ok((_, n)) && n == message.len(),
        chunks.len() >= 1,
        spec_concat(chunks) == message,
    ensures
        s.feed(chunks, fin) == s.process_data(message, fin),
        ControlMessage::spec_parse(message) matches Ok((m, _)) && s.process_data(
            message,
            fin,
        ).events == s.events.push(EventView::Message(m)),
{
    let m = ControlMessage::spec_parse(message)->Ok_0.0;
    assert(s.buffered =~= Seq::<u8>::empty());
    assert(message.skip(0) =~= message);
    assert(message.take(0) =~= Seq::<u8>::empty());
    lemma_control_type(message);
    assert(s.part_way(message, m, 0) =~= s);
    lemma_chunks(s, message, m, 0, chunks, fin);
    assert(message.subrange(0, message.len() as int) =~= message);
    lemma_chunk(s, message, m, 0, message, fin);
    assert(s.part_way(message, m, message.len()) == s.emit(EventView::Message(m)));
}

impl ParserState {
    /// True where a parser in state `self` may come to state `later`: events
    /// are only added, behind those that are queued; a stream that has ended
    /// stays ended; and if an error is among the events added, it is the last
    /// of them, the first error of the parser, and the parser is terminated.
    pub open spec fn leads_to(self, later: ParserState) -> bool {
        &&& self.events.len() <= later.events.len()
        &&& later.events.take(self.events.len() as int) == self.events
        &&& self.terminated ==> later.terminated
        &&& self.error_reported ==> later.error_reported
        &&& later.error_reported ==> self.error_reported || later.terminated
        &&& forall|i: int|
            self.events.len() <= i < later.events.len() && later.events[i] is ParsingError ==> i
                == later.events.len() - 1 && !self.error_reported && later.error_reported
    }
}

/// A state leads to itself.
proof fn lemma_leads_to_itself(a: ParserState)
    ensures
        a.leads_to(a),
{
    assert(a.events.take(a.events.len() as int) =~= a.events);
}

/// What a state leads to by way of a state without an error, it leads to.
proof fn lemma_leads_on(a: ParserState, b: ParserState, c: ParserState)
    requires
        a.leads_to(b),
        b.leads_to(c),
        !b.error_reported,
    ensures
        a.leads_to(c),
{
    assert(c.events.take(a.events.len() as int) =~= a.events) by {
        assert(c.events.take(b.events.len() as int).take(a.events.len() as int)
            =~= c.events.take(a.events.len() as int));
    }
    assert forall|i: int|
        a.events.len() <= i < c.events.len() && c.events[i] is ParsingError implies i
        == c.events.len() - 1 && !a.error_reported && c.error_reported by {
        if i < b.events.len() {
            assert(c.events.take(b.events.len() as int)[i] == c.events[i]);
        }
    }
}

/// Queueing an event that is no error and changing nothing else but the
/// buffer and the object leads on.
proof fn lemma_emit_leads(a: ParserState, b: ParserState, event: EventView)
    requires
        !(event is ParsingError),
        b.events == a.events.push(event),
        b.terminated == a.terminated,
        b.error_reported == a.error_reported,
        a.error_reported ==> a.terminated,
    ensures
        a.leads_to(b),
{
    assert(b.events.take(a.events.len() as int) =~= a.events);
}

/// Reporting an error leads on.
proof fn lemma_report_leads(a: ParserState, code: ParserErrorCode, reason: Seq<char>)
    requires
        a.error_reported ==> a.terminated,
    ensures
        a.leads_to(a.report(code, reason)),
        a.report(code, reason).error_reported,
        a.report(code, reason).terminated,
{
    let b = a.report(code, reason);
    assert(b.events.take(a.events.len() as int) =~= a.events);
}

/// One message leads on, and a message that was read reports no error.
proof fn lemma_process_message_leads(c: ParserState, fin: bool)
    requires
        !c.error_reported,
    ensures
        c.leads_to(c.process_message(fin).0),
        c.process_message(fin).0.buffered == c.buffered,
        c.process_message(fin).1 is Ok ==> !c.process_message(fin).0.error_reported,
{
    let (next, r) = c.process_message(fin);
    lemma_leads_to_itself(c);
    lemma_report_leads(c, ParserErrorCode::ProtocolViolation, spec_reason_datagram_on_stream());
    if r is Ok {
        assert(next.events.len() == c.events.len() + 1);
        lemma_emit_leads(c, next, next.events.last());
    } else {
        if next != c {
            let e = r->Err_0;
            if let Some((code, reason)) = e.violation() {
                lemma_report_leads(c, code, reason);
            }
        }
    }
}

/// A message that is read from a buffer that holds bytes takes at least one
/// of them, and none that the buffer does not hold.
pub proof fn lemma_process_message_takes_bytes(c: ParserState, fin: bool)
    requires
        c.buffered.len() > 0,
    ensures
        c.process_message(fin).1 matches Ok(n) ==> 1 <= n <= c.buffered.len(),
{
    let s = c.buffered;
    if c.object is Some && !c.payload_in_progress() {
        let h = c.object->0;
        assert(s.skip(0) =~= s);
        lemma_next_object_takes_bytes(h, s, fin);
        lemma_object_within(h, s, h.object_forwarding_preference.spec_message_type(), fin);
    } else {
        lemma_control_type(s);
        ControlMessage::lemma_parse_prefix(s, s.len() as int);
        assert(s.take(s.len() as int) =~= s);
        crate::codec::varint::lemma_decode_bound(s);
        if let Ok((t, at)) = MessageType::spec_parse(s) {
            let head = match c.object {
                Some(h) => Ok((h, 0nat)),
                None => spec_parse_object_header(s.skip(at as int), t),
            };
            lemma_object_within(ObjectHeader::spec_default(), s.skip(at as int), t, fin);
            if let Ok((h, n)) = head {
                lemma_object_within(h, s.skip((at + n) as int), t, fin);
            }
        }
    }
}

/// Reading message after message leads on, and leaves no more than the
/// header ceiling in the buffer unless it ends the parsing.
proof fn lemma_parse_messages_leads(c: ParserState, fin: bool)
    requires
        !c.error_reported,
    ensures
        c.leads_to(c.parse_messages(fin)),
        c.parse_messages(fin).terminated || c.parse_messages(fin).buffered.len()
            <= MAX_MESSSAGE_HEADER_SIZE,
    decreases c.buffered.len(),
{
    if c.buffered.len() == 0 {
        lemma_leads_to_itself(c);
    } else {
        let (next, r) = c.process_message(fin);
        lemma_process_message_leads(c, fin);
        lemma_process_message_takes_bytes(c, fin);
        match r {
            Err(_) => {
                if next.error_reported {
                    assert(next.give_up(fin) == next);
                } else {
                    lemma_report_leads(
                        next,
                        ParserErrorCode::InternalError,
                        spec_reason_too_large(),
                    );
                    lemma_report_leads(
                        next,
                        ParserErrorCode::ProtocolViolation,
                        spec_reason_incomplete_at_end(),
                    );
                    lemma_leads_to_itself(next);
                    lemma_leads_on(c, next, next.give_up(fin));
                }
            },
            Ok(n) => {
                if 0 < n <= c.buffered.len() {
                    let rest = ParserState { buffered: c.buffered.skip(n as int), ..next };
                    assert(c.leads_to(rest));
                    lemma_parse_messages_leads(rest, fin);
                    lemma_leads_on(c, rest, rest.parse_messages(fin));
                }
            },
        }
    }
}

/// Order and finality of what a parser tells: whatever arrives, events are
/// only added behind those that are queued, so that they are never
/// reordered; an error is the last event of the call that reports it and
/// leaves the parser terminated, as the end of the stream does; and a parser
/// reports one error at most, for it changes no more once it has reported
/// one.
pub proof fn lemma_events_in_order(s: ParserState, chunk: Seq<u8>, fin: bool)
    requires
        s.wf(),
    ensures
        s.leads_to(s.process_data(chunk, fin)),
        s.process_data(chunk, fin).wf(),
        fin ==> s.process_data(chunk, fin).terminated,
        s.error_reported ==> s.process_data(chunk, fin) == s,
{
    lemma_leads_to_itself(s);
    lemma_report_leads(s, ParserErrorCode::ProtocolViolation, spec_reason_data_after_end());
    if !s.terminated {
        let t = ParserState { terminated: fin, ..s };
        assert(s.leads_to(t)) by {
            assert(t.events.take(s.events.len() as int) =~= s.events);
        }
        lemma_report_leads(t, ParserErrorCode::ProtocolViolation, spec_reason_ended_mid_payload());
        lemma_report_leads(t, ParserErrorCode::ProtocolViolation, spec_reason_ended_mid_message());
        lemma_leads_on(
            s,
            t,
            t.report(ParserErrorCode::ProtocolViolation, spec_reason_ended_mid_payload()),
        );
        lemma_leads_on(
            s,
            t,
            t.report(ParserErrorCode::ProtocolViolation, spec_reason_ended_mid_message()),
        );
        let a = ParserState { buffered: t.buffered + chunk, ..t };
        assert(s.leads_to(a)) by {
            assert(a.events.take(s.events.len() as int) =~= s.events);
        }
        if a.payload_in_progress() {
            let h = a.object->0;
            if h.object_payload_length is None || a.buffered.len() < a.payload_remaining {
                let last = h.object_payload_length is None && fin;
                lemma_emit_leads(a, a.deliver(fin), EventView::ObjectMessage(h, a.buffered, last));
                lemma_leads_on(s, a, a.deliver(fin));
            } else {
                let b = ParserState {
                    buffered: a.buffered.skip(a.payload_remaining as int),
                    payload_remaining: 0,
                    ..a
                }.emit(
                    EventView::ObjectMessage(
                        h,
                        a.buffered.take(a.payload_remaining as int),
                        true,
                    ),
                );
                lemma_emit_leads(a, b, b.events.last());
                lemma_leads_on(s, a, b);
                lemma_parse_messages_leads(b, fin);
                lemma_leads_on(s, b, b.parse_messages(fin));
            }
        } else {
            lemma_parse_messages_leads(a, fin);
            lemma_leads_on(s, a, a.parse_messages(fin));
        }
    }
}

} // verus!
