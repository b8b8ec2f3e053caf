//! Wire encoding and incremental stream parsing for a media-over-transport
//! publish/subscribe protocol.
//!
//! The crate holds the variable-length integer codec that underlies every
//! field, the message and object data model with its byte layout, and the
//! streaming parser that reassembles control messages and object payloads
//! from arbitrarily chunked input.

pub mod buf;
pub mod codec;
pub mod error;
pub mod message;

pub use codec::parameters::{ParameterKey, Parameters};
pub use codec::varint::VarInt;
pub use error::{Error, ErrorKind};
pub use message::announce::Announce;
pub use message::announce_cancel::AnnounceCancel;
pub use message::announce_error::AnnounceError;
pub use message::announce_ok::AnnounceOk;
pub use message::client_setup::ClientSetup;
pub use message::control::ControlMessage;
pub use message::go_away::GoAway;
pub use message::server_setup::ServerSetup;
pub use message::subscribe::Subscribe;
pub use message::subscribe_done::SubscribeDone;
pub use message::subscribe_error::SubscribeError;
pub use message::subscribe_ok::SubscribeOk;
pub use message::subscribe_update::SubscribeUpdate;
pub use message::track_status::TrackStatus;
pub use message::track_status_request::TrackStatusRequest;
pub use message::unannounce::UnAnnounce;
pub use message::unsubscribe::UnSubscribe;
pub use message::message_parser::{MessageParser, MessageParserEvent, ParserErrorCode};
pub use message::object::{ObjectForwardingPreference, ObjectHeader, ObjectStatus};
pub use message::{FilterType, FullSequence, FullTrackName, MessageType, Role, Version};

use vstd::prelude::*;

verus! {

/// What the codecs return.
pub type Result<T> = std::result::Result<T, Error>;

} // verus!
