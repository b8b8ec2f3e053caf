//! Control messages: a message type, then the body that the type announces.

use crate::codec::{
    also, decoded, lemma_followed_by, lemma_split_input, spec_advance, spec_reads_only_its_bytes,
    Output, Parsed,
};
use crate::error::{Error, ErrorKind};
use crate::message::announce::{Announce, AnnounceView};
use crate::message::announce_cancel::{AnnounceCancel, AnnounceCancelView};
use crate::message::announce_error::{AnnounceError, AnnounceErrorView};
use crate::message::announce_ok::{AnnounceOk, AnnounceOkView};
use crate::message::client_setup::{ClientSetup, ClientSetupView};
use crate::message::go_away::{GoAway, GoAwayView};
use crate::message::server_setup::{ServerSetup, ServerSetupView};
use crate::message::subscribe::{Subscribe, SubscribeView};
use crate::message::subscribe_done::{SubscribeDone, SubscribeDoneView};
use crate::message::subscribe_error::{SubscribeError, SubscribeErrorView};
use crate::message::subscribe_ok::{SubscribeOk, SubscribeOkView};
use crate::message::subscribe_update::{SubscribeUpdate, SubscribeUpdateView};
use crate::message::track_status::{TrackStatus, TrackStatusView};
use crate::message::track_status_request::{TrackStatusRequest, TrackStatusRequestView};
use crate::message::unannounce::{UnAnnounce, UnAnnounceView};
use crate::message::unsubscribe::{UnSubscribe, UnSubscribeView};
use crate::message::MessageType;
use vstd::prelude::*;
use vstd::slice::slice_subrange;

verus! {

/// A control message.
#[derive(Debug, Clone, Eq, PartialEq)]
pub enum ControlMessage {
    ClientSetup(ClientSetup),
    ServerSetup(ServerSetup),
    Subscribe(Subscribe),
    SubscribeOk(SubscribeOk),
    SubscribeError(SubscribeError),
    UnSubscribe(UnSubscribe),
    SubscribeDone(SubscribeDone),
    SubscribeUpdate(SubscribeUpdate),
    Announce(Announce),
    AnnounceOk(AnnounceOk),
    AnnounceError(AnnounceError),
    AnnounceCancel(AnnounceCancel),
    TrackStatusRequest(TrackStatusRequest),
    UnAnnounce(UnAnnounce),
    TrackStatus(TrackStatus),
    GoAway(GoAway),
}

/// The mathematical content of a [`ControlMessage`].
pub enum ControlMessageView {
    ClientSetup(ClientSetupView),
    ServerSetup(ServerSetupView),
    Subscribe(SubscribeView),
    SubscribeOk(SubscribeOkView),
    SubscribeError(SubscribeErrorView),
    UnSubscribe(UnSubscribeView),
    SubscribeDone(SubscribeDoneView),
    SubscribeUpdate(SubscribeUpdateView),
    Announce(AnnounceView),
    AnnounceOk(AnnounceOkView),
    AnnounceError(AnnounceErrorView),
    AnnounceCancel(AnnounceCancelView),
    TrackStatusRequest(TrackStatusRequestView),
    UnAnnounce(UnAnnounceView),
    TrackStatus(TrackStatusView),
    GoAway(GoAwayView),
}

impl View for ControlMessage {
    type V = ControlMessageView;

    open spec fn view(&self) -> ControlMessageView {
        match self {
            ControlMessage::ClientSetup(m) => ControlMessageView::ClientSetup(m@),
            ControlMessage::ServerSetup(m) => ControlMessageView::ServerSetup(m@),
            ControlMessage::Subscribe(m) => ControlMessageView::Subscribe(m@),
            ControlMessage::SubscribeOk(m) => ControlMessageView::SubscribeOk(m@),
            ControlMessage::SubscribeError(m) => ControlMessageView::SubscribeError(m@),
            ControlMessage::UnSubscribe(m) => ControlMessageView::UnSubscribe(m@),
            ControlMessage::SubscribeDone(m) => ControlMessageView::SubscribeDone(m@),
            ControlMessage::SubscribeUpdate(m) => ControlMessageView::SubscribeUpdate(m@),
            ControlMessage::Announce(m) => ControlMessageView::Announce(m@),
            ControlMessage::AnnounceOk(m) => ControlMessageView::AnnounceOk(m@),
            ControlMessage::AnnounceError(m) => ControlMessageView::AnnounceError(m@),
            ControlMessage::AnnounceCancel(m) => ControlMessageView::AnnounceCancel(m@),
            ControlMessage::TrackStatusRequest(m) => ControlMessageView::TrackStatusRequest(m@),
            ControlMessage::UnAnnounce(m) => ControlMessageView::UnAnnounce(m@),
            ControlMessage::TrackStatus(m) => ControlMessageView::TrackStatus(m@),
            ControlMessage::GoAway(m) => ControlMessageView::GoAway(m@),
        }
    }
}

impl ControlMessageView {
    /// The message type that announces the message.
    pub open spec fn message_type(self) -> MessageType {
        match self {
            ControlMessageView::ClientSetup(_) => MessageType::ClientSetup,
            ControlMessageView::ServerSetup(_) => MessageType::ServerSetup,
            ControlMessageView::Subscribe(_) => MessageType::Subscribe,
            ControlMessageView::SubscribeOk(_) => MessageType::SubscribeOk,
            ControlMessageView::SubscribeError(_) => MessageType::SubscribeError,
            ControlMessageView::UnSubscribe(_) => MessageType::UnSubscribe,
            ControlMessageView::SubscribeDone(_) => MessageType::SubscribeDone,
            ControlMessageView::SubscribeUpdate(_) => MessageType::SubscribeUpdate,
            ControlMessageView::Announce(_) => MessageType::Announce,
            ControlMessageView::AnnounceOk(_) => MessageType::AnnounceOk,
            ControlMessageView::AnnounceError(_) => MessageType::AnnounceError,
            ControlMessageView::AnnounceCancel(_) => MessageType::AnnounceCancel,
            ControlMessageView::TrackStatusRequest(_) => MessageType::TrackStatusRequest,
            ControlMessageView::UnAnnounce(_) => MessageType::UnAnnounce,
            ControlMessageView::TrackStatus(_) => MessageType::TrackStatus,
            ControlMessageView::GoAway(_) => MessageType::GoAway,
        }
    }

    /// Encoding the body of the message into a vector that holds `len` bytes.
    pub open spec fn spec_write_body(self, len: nat) -> Output {
        match self {
            ControlMessageView::ClientSetup(m) => ClientSetup::spec_write(len, m),
            ControlMessageView::ServerSetup(m) => ServerSetup::spec_write(len, m),
            ControlMessageView::Subscribe(m) => Subscribe::spec_write(len, m),
            ControlMessageView::SubscribeOk(m) => SubscribeOk::spec_write(len, m),
            ControlMessageView::SubscribeError(m) => SubscribeError::spec_write(len, m),
            ControlMessageView::UnSubscribe(m) => UnSubscribe::spec_write(len, m),
            ControlMessageView::SubscribeDone(m) => SubscribeDone::spec_write(len, m),
            ControlMessageView::SubscribeUpdate(m) => SubscribeUpdate::spec_write(len, m),
            ControlMessageView::Announce(m) => Announce::spec_write(len, m),
            ControlMessageView::AnnounceOk(m) => AnnounceOk::spec_write(len, m),
            ControlMessageView::AnnounceError(m) => AnnounceError::spec_write(len, m),
            ControlMessageView::AnnounceCancel(m) => AnnounceCancel::spec_write(len, m),
            ControlMessageView::TrackStatusRequest(m) => TrackStatusRequest::spec_write(len, m),
            ControlMessageView::UnAnnounce(m) => UnAnnounce::spec_write(len, m),
            ControlMessageView::TrackStatus(m) => TrackStatus::spec_write(len, m),
            ControlMessageView::GoAway(m) => GoAway::spec_write(len, m),
        }
    }
}

/// A body that was read, as the message that `wrap` makes of it.
pub open spec fn spec_body<T>(r: Parsed<T>, wrap: spec_fn(T) -> ControlMessageView) -> Parsed<
    ControlMessageView,
> {
    match r {
        Ok((m, n)) => Ok((wrap(m), n)),
        Err(e) => Err(e),
    }
}

impl ControlMessage {
    /// What reading the body of a message of type `t` reads from the front of
    /// `s`. A type that announces no control message is an
    /// `InvalidMessageType`.
    pub open spec fn spec_parse_body(t: MessageType, s: Seq<u8>) -> Parsed<ControlMessageView> {
        match t {
            MessageType::ClientSetup => spec_body(
                ClientSetup::spec_parse(s),
                |m: ClientSetupView| ControlMessageView::ClientSetup(m),
            ),
            MessageType::ServerSetup => spec_body(
                ServerSetup::spec_parse(s),
                |m: ServerSetupView| ControlMessageView::ServerSetup(m),
            ),
            MessageType::Subscribe => spec_body(
                Subscribe::spec_parse(s),
                |m: SubscribeView| ControlMessageView::Subscribe(m),
            ),
            MessageType::SubscribeOk => spec_body(
                SubscribeOk::spec_parse(s),
                |m: SubscribeOkView| ControlMessageView::SubscribeOk(m),
            ),
            MessageType::SubscribeError => spec_body(
                SubscribeError::spec_parse(s),
                |m: SubscribeErrorView| ControlMessageView::SubscribeError(m),
            ),
            MessageType::UnSubscribe => spec_body(
                UnSubscribe::spec_parse(s),
                |m: UnSubscribeView| ControlMessageView::UnSubscribe(m),
            ),
            MessageType::SubscribeDone => spec_body(
                SubscribeDone::spec_parse(s),
                |m: SubscribeDoneView| ControlMessageView::SubscribeDone(m),
            ),
            MessageType::SubscribeUpdate => spec_body(
                SubscribeUpdate::spec_parse(s),
                |m: SubscribeUpdateView| ControlMessageView::SubscribeUpdate(m),
            ),
            MessageType::Announce => spec_body(
                Announce::spec_parse(s),
                |m: AnnounceView| ControlMessageView::Announce(m),
            ),
            MessageType::AnnounceOk => spec_body(
                AnnounceOk::spec_parse(s),
                |m: AnnounceOkView| ControlMessageView::AnnounceOk(m),
            ),
            MessageType::AnnounceError => spec_body(
                AnnounceError::spec_parse(s),
                |m: AnnounceErrorView| ControlMessageView::AnnounceError(m),
            ),
            MessageType::AnnounceCancel => spec_body(
                AnnounceCancel::spec_parse(s),
                |m: AnnounceCancelView| ControlMessageView::AnnounceCancel(m),
            ),
            MessageType::TrackStatusRequest => spec_body(
                TrackStatusRequest::spec_parse(s),
                |m: TrackStatusRequestView| ControlMessageView::TrackStatusRequest(m),
            ),
            MessageType::UnAnnounce => spec_body(
                UnAnnounce::spec_parse(s),
                |m: UnAnnounceView| ControlMessageView::UnAnnounce(m),
            ),
            MessageType::TrackStatus => spec_body(
                TrackStatus::spec_parse(s),
                |m: TrackStatusView| ControlMessageView::TrackStatus(m),
            ),
            MessageType::GoAway => spec_body(
                GoAway::spec_parse(s),
                |m: GoAwayView| ControlMessageView::GoAway(m),
            ),
            _ => Err(ErrorKind::InvalidMessageType(t.spec_value())),
        }
    }

    /// Encoding the message into a vector that holds `len` bytes: its
    /// message type, then its body.
    pub open spec fn spec_write(len: nat, v: ControlMessageView) -> Output {
        let a = MessageType::spec_write(len, v.message_type());
        a.followed_by(v.spec_write_body(len + a.bytes.len()))
    }

    /// What decoding a control message reads from the front of `s`.
    pub open spec fn spec_parse(s: Seq<u8>) -> Parsed<ControlMessageView> {
        match MessageType::spec_parse(s) {
            Err(e) => Err(e),
            Ok((t, n)) => spec_advance(ControlMessage::spec_parse_body(t, s.skip(n as int)), n),
        }
    }

    /// The message type that announces the message.
    pub fn message_type(&self) -> (r: MessageType)
        ensures
            r == self@.message_type(),
    {
        match self {
            ControlMessage::ClientSetup(_) => MessageType::ClientSetup,
            ControlMessage::ServerSetup(_) => MessageType::ServerSetup,
            ControlMessage::Subscribe(_) => MessageType::Subscribe,
            ControlMessage::SubscribeOk(_) => MessageType::SubscribeOk,
            ControlMessage::SubscribeError(_) => MessageType::SubscribeError,
            ControlMessage::UnSubscribe(_) => MessageType::UnSubscribe,
            ControlMessage::SubscribeDone(_) => MessageType::SubscribeDone,
            ControlMessage::SubscribeUpdate(_) => MessageType::SubscribeUpdate,
            ControlMessage::Announce(_) => MessageType::Announce,
            ControlMessage::AnnounceOk(_) => MessageType::AnnounceOk,
            ControlMessage::AnnounceError(_) => MessageType::AnnounceError,
            ControlMessage::AnnounceCancel(_) => MessageType::AnnounceCancel,
            ControlMessage::TrackStatusRequest(_) => MessageType::TrackStatusRequest,
            ControlMessage::UnAnnounce(_) => MessageType::UnAnnounce,
            ControlMessage::TrackStatus(_) => MessageType::TrackStatus,
            ControlMessage::GoAway(_) => MessageType::GoAway,
        }
    }

    /// Reads one control message from the front of `buf`.
    pub fn deserialize(buf: &[u8]) -> (r: Result<(Self, usize), Error>)
        ensures
            decoded(r) == ControlMessage::spec_parse(buf@),
            r matches Ok((_, n)) ==> 1 <= n <= buf@.len(),
    {
        let (message_type, n) = MessageType::decode(buf)?;
        let body = slice_subrange(buf, n, buf.len());
        match message_type {
            MessageType::ClientSetup => {
                let (m, l) = ClientSetup::deserialize(body)?;
                Ok((ControlMessage::ClientSetup(m), n + l))
            },
            MessageType::ServerSetup => {
                let (m, l) = ServerSetup::deserialize(body)?;
                Ok((ControlMessage::ServerSetup(m), n + l))
            },
            MessageType::Subscribe => {
                let (m, l) = Subscribe::deserialize(body)?;
                Ok((ControlMessage::Subscribe(m), n + l))
            },
            MessageType::SubscribeOk => {
                let (m, l) = SubscribeOk::deserialize(body)?;
                Ok((ControlMessage::SubscribeOk(m), n + l))
            },
            MessageType::SubscribeError => {
                let (m, l) = SubscribeError::deserialize(body)?;
                Ok((ControlMessage::SubscribeError(m), n + l))
            },
            MessageType::UnSubscribe => {
                let (m, l) = UnSubscribe::deserialize(body)?;
                Ok((ControlMessage::UnSubscribe(m), n + l))
            },
            MessageType::SubscribeDone => {
                let (m, l) = SubscribeDone::deserialize(body)?;
                Ok((ControlMessage::SubscribeDone(m), n + l))
            },
            MessageType::SubscribeUpdate => {
                let (m, l) = SubscribeUpdate::deserialize(body)?;
                Ok((ControlMessage::SubscribeUpdate(m), n + l))
            },
            MessageType::Announce => {
                let (m, l) = Announce::deserialize(body)?;
                Ok((ControlMessage::Announce(m), n + l))
            },
            MessageType::AnnounceOk => {
                let (m, l) = AnnounceOk::deserialize(body)?;
                Ok((ControlMessage::AnnounceOk(m), n + l))
            },
            MessageType::AnnounceError => {
                let (m, l) = AnnounceError::deserialize(body)?;
                Ok((ControlMessage::AnnounceError(m), n + l))
            },
            MessageType::AnnounceCancel => {
                let (m, l) = AnnounceCancel::deserialize(body)?;
                Ok((ControlMessage::AnnounceCancel(m), n + l))
            },
            MessageType::TrackStatusRequest => {
                let (m, l) = TrackStatusRequest::deserialize(body)?;
                Ok((ControlMessage::TrackStatusRequest(m), n + l))
            },
            MessageType::UnAnnounce => {
                let (m, l) = UnAnnounce::deserialize(body)?;
                Ok((ControlMessage::UnAnnounce(m), n + l))
            },
            MessageType::TrackStatus => {
                let (m, l) = TrackStatus::deserialize(body)?;
                Ok((ControlMessage::TrackStatus(m), n + l))
            },
            MessageType::GoAway => {
                let (m, l) = GoAway::deserialize(body)?;
                Ok((ControlMessage::GoAway(m), n + l))
            },
            _ => Err(Error::ErrInvalidMessageType(message_type.value())),
        }
    }

    /// Appends the message to `w`.
    pub fn serialize(&self, w: &mut Vec<u8>) -> (r: Result<usize, Error>)
        ensures
            ControlMessage::spec_write(old(w)@.len(), self@).describes(old(w)@, final(w)@, r),
    {
        let ghost s0 = w@;
        let ghost a = MessageType::spec_write(s0.len(), self@.message_type());
        let l = self.message_type().encode(w)?;
        let ghost s1 = w@;
        let ghost b = self@.spec_write_body(s1.len());
        let r = match self {
            ControlMessage::ClientSetup(m) => m.serialize(w),
            ControlMessage::ServerSetup(m) => m.serialize(w),
            ControlMessage::Subscribe(m) => m.serialize(w),
            ControlMessage::SubscribeOk(m) => m.serialize(w),
            ControlMessage::SubscribeError(m) => m.serialize(w),
            ControlMessage::UnSubscribe(m) => m.serialize(w),
            ControlMessage::SubscribeDone(m) => m.serialize(w),
            ControlMessage::SubscribeUpdate(m) => m.serialize(w),
            ControlMessage::Announce(m) => m.serialize(w),
            ControlMessage::AnnounceOk(m) => m.serialize(w),
            ControlMessage::AnnounceError(m) => m.serialize(w),
            ControlMessage::AnnounceCancel(m) => m.serialize(w),
            ControlMessage::TrackStatusRequest(m) => m.serialize(w),
            ControlMessage::UnAnnounce(m) => m.serialize(w),
            ControlMessage::TrackStatus(m) => m.serialize(w),
            ControlMessage::GoAway(m) => m.serialize(w),
        };
        also(l, r, Ghost(a), Ghost(b), Ghost(s0), Ghost(s1), &*w)
    }

    /// Decoding an encoded message gives the message back and takes exactly
    /// the encoded bytes, whatever follows them.
    pub proof fn lemma_parse_write(len: nat, v: ControlMessageView, rest: Seq<u8>)
        requires
            ControlMessage::spec_write(len, v).error is None,
        ensures
            ControlMessage::spec_parse(ControlMessage::spec_write(len, v).bytes + rest) == Ok::<
                _,
                ErrorKind,
            >((v, ControlMessage::spec_write(len, v).bytes.len())),
    {
        let a = MessageType::spec_write(len, v.message_type());
        let b = v.spec_write_body(len + a.bytes.len());
        lemma_followed_by(a, b);
        lemma_split_input(a.bytes, b.bytes, rest);
        MessageType::lemma_parse_write(len, v.message_type(), b.bytes + rest);
        match v {
            ControlMessageView::ClientSetup(m) => {
                ClientSetup::lemma_parse_write(len + a.bytes.len(), m, rest);
            },
            ControlMessageView::ServerSetup(m) => {
                ServerSetup::lemma_parse_write(len + a.bytes.len(), m, rest);
            },
            ControlMessageView::Subscribe(m) => {
                Subscribe::lemma_parse_write(len + a.bytes.len(), m, rest);
            },
            ControlMessageView::SubscribeOk(m) => {
                SubscribeOk::lemma_parse_write(len + a.bytes.len(), m, rest);
            },
            ControlMessageView::SubscribeError(m) => {
                SubscribeError::lemma_parse_write(len + a.bytes.len(), m, rest);
            },
            ControlMessageView::UnSubscribe(m) => {
                UnSubscribe::lemma_parse_write(len + a.bytes.len(), m, rest);
            },
            ControlMessageView::SubscribeDone(m) => {
                SubscribeDone::lemma_parse_write(len + a.bytes.len(), m, rest);
            },
            ControlMessageView::SubscribeUpdate(m) => {
                SubscribeUpdate::lemma_parse_write(len + a.bytes.len(), m, rest);
            },
            ControlMessageView::Announce(m) => {
                Announce::lemma_parse_write(len + a.bytes.len(), m, rest);
            },
            ControlMessageView::AnnounceOk(m) => {
                AnnounceOk::lemma_parse_write(len + a.bytes.len(), m, rest);
            },
            ControlMessageView::AnnounceError(m) => {
                AnnounceError::lemma_parse_write(len + a.bytes.len(), m, rest);
            },
            ControlMessageView::AnnounceCancel(m) => {
                AnnounceCancel::lemma_parse_write(len + a.bytes.len(), m, rest);
            },
            ControlMessageView::TrackStatusRequest(m) => {
                TrackStatusRequest::lemma_parse_write(len + a.bytes.len(), m, rest);
            },
            ControlMessageView::UnAnnounce(m) => {
                UnAnnounce::lemma_parse_write(len + a.bytes.len(), m, rest);
            },
            ControlMessageView::TrackStatus(m) => {
                TrackStatus::lemma_parse_write(len + a.bytes.len(), m, rest);
            },
            ControlMessageView::GoAway(m) => {
                GoAway::lemma_parse_write(len + a.bytes.len(), m, rest);
            },
        }
    }

    /// Encoding, decoding and encoding again: what is decoded from the
    /// encoding of a message takes the whole encoding and is encoded to the
    /// same bytes.
    pub proof fn lemma_encode_decode_encode(len: nat, v: ControlMessageView)
        requires
            ControlMessage::spec_write(len, v).error is None,
        ensures
            ControlMessage::spec_parse(ControlMessage::spec_write(len, v).bytes) matches Ok(
                (m, n),
            ) && n == ControlMessage::spec_write(len, v).bytes.len() && ControlMessage::spec_write(
                len,
                m,
            ).bytes == ControlMessage::spec_write(len, v).bytes,
    {
        let bytes = ControlMessage::spec_write(len, v).bytes;
        ControlMessage::lemma_parse_write(len, v, Seq::empty());
        assert(bytes + Seq::<u8>::empty() =~= bytes);
    }

    /// Decoding a control message looks at no byte beyond those it takes.
    pub proof fn lemma_parse_prefix(s: Seq<u8>, k: int)
        requires
            0 <= k <= s.len(),
        ensures
            spec_reads_only_its_bytes(
                ControlMessage::spec_parse(s),
                ControlMessage::spec_parse(s.take(k)),
                k,
            ),
    {
        MessageType::lemma_parse_prefix(s, k);
        if let Ok((t, n)) = MessageType::spec_parse(s) {
            if n <= k {
                let body = s.skip(n as int);
                assert(s.take(k).skip(n as int) =~= body.take(k - n));
                match t {
                    MessageType::ClientSetup => {
                        ClientSetup::lemma_parse_prefix(body, k - n);
                    },
                    MessageType::ServerSetup => {
                        ServerSetup::lemma_parse_prefix(body, k - n);
                    },
                    MessageType::Subscribe => {
                        Subscribe::lemma_parse_prefix(body, k - n);
                    },
                    MessageType::SubscribeOk => {
                        SubscribeOk::lemma_parse_prefix(body, k - n);
                    },
                    MessageType::SubscribeError => {
                        SubscribeError::lemma_parse_prefix(body, k - n);
                    },
                    MessageType::UnSubscribe => {
                        UnSubscribe::lemma_parse_prefix(body, k - n);
                    },
                    MessageType::SubscribeDone => {
                        SubscribeDone::lemma_parse_prefix(body, k - n);
                    },
                    MessageType::SubscribeUpdate => {
                        SubscribeUpdate::lemma_parse_prefix(body, k - n);
                    },
                    MessageType::Announce => {
                        Announce::lemma_parse_prefix(body, k - n);
                    },
                    MessageType::AnnounceOk => {
                        AnnounceOk::lemma_parse_prefix(body, k - n);
                    },
                    MessageType::AnnounceError => {
                        AnnounceError::lemma_parse_prefix(body, k - n);
                    },
                    MessageType::AnnounceCancel => {
                        AnnounceCancel::lemma_parse_prefix(body, k - n);
                    },
                    MessageType::TrackStatusRequest => {
                        TrackStatusRequest::lemma_parse_prefix(body, k - n);
                    },
                    MessageType::UnAnnounce => {
                        UnAnnounce::lemma_parse_prefix(body, k - n);
                    },
                    MessageType::TrackStatus => {
                        TrackStatus::lemma_parse_prefix(body, k - n);
                    },
                    MessageType::GoAway => {
                        GoAway::lemma_parse_prefix(body, k - n);
                    },
                    _ => {},
                }
            }
        }
    }
}

} // verus!
