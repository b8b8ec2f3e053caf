//! The error taxonomy shared by the codecs and the stream parser.

use crate::message::message_parser::ParserErrorCode;
use std::string::FromUtf8Error;
use vstd::prelude::*;

verus! {

/// `std::string::FromUtf8Error`, carried through opaquely.
#[verifier::external_type_specification]
#[verifier::external_body]
pub struct ExFromUtf8Error(FromUtf8Error);

/// What went wrong while encoding or decoding.
#[derive(Debug, PartialEq)]
#[non_exhaustive]
pub enum Error {
    /// The value does not fit the variable-length integer domain.
    ErrVarIntBoundsExceeded,
    /// The input ended before the item was complete.
    ErrUnexpectedEnd,
    /// A variable-length integer outside its domain was met.
    ErrMalformedVarInt,
    /// The buffer is too short for what has to be read or written.
    ErrBufferTooShort,
    /// A parameter key occurs twice in one block.
    ErrDuplicateParameter,
    /// A required parameter is absent.
    ErrMissingParameter,
    /// The discriminant names no message type.
    ErrInvalidMessageType(u64),
    /// The discriminant names no filter type.
    ErrInvalidFilterType(u64),
    /// A boolean was encoded as something other than 0 or 1.
    ErrInvalidBooleanValue(u8),
    /// The version is not one this implementation speaks.
    ErrUnsupportedVersion(u64),
    /// The discriminant names no role.
    ErrInvalidRole(u64),
    /// A string field does not hold UTF-8.
    ErrInvalidString(FromUtf8Error),
    /// The peer broke a structural rule of the protocol; the text says which.
    ErrProtocolViolation(String),
    /// A message cannot be accepted: the class of the failure and what is
    /// wrong.
    ErrParseError(ParserErrorCode, String),
}

/// The mathematical content of an [`Error`]: the variant and its plain data.
pub enum ErrorKind {
    VarIntBoundsExceeded,
    UnexpectedEnd,
    MalformedVarInt,
    BufferTooShort,
    DuplicateParameter,
    MissingParameter,
    InvalidMessageType(u64),
    InvalidFilterType(u64),
    InvalidBooleanValue(u8),
    UnsupportedVersion(u64),
    InvalidRole(u64),
    InvalidString,
    ProtocolViolation(Seq<char>),
    ParseError(ParserErrorCode, Seq<char>),
}

impl View for Error {
    type V = ErrorKind;

    open spec fn view(&self) -> ErrorKind {
        match *self {
            Error::ErrVarIntBoundsExceeded => ErrorKind::VarIntBoundsExceeded,
            Error::ErrUnexpectedEnd => ErrorKind::UnexpectedEnd,
            Error::ErrMalformedVarInt => ErrorKind::MalformedVarInt,
            Error::ErrBufferTooShort => ErrorKind::BufferTooShort,
            Error::ErrDuplicateParameter => ErrorKind::DuplicateParameter,
            Error::ErrMissingParameter => ErrorKind::MissingParameter,
            Error::ErrInvalidMessageType(v) => ErrorKind::InvalidMessageType(v),
            Error::ErrInvalidFilterType(v) => ErrorKind::InvalidFilterType(v),
            Error::ErrInvalidBooleanValue(v) => ErrorKind::InvalidBooleanValue(v),
            Error::ErrUnsupportedVersion(v) => ErrorKind::UnsupportedVersion(v),
            Error::ErrInvalidRole(v) => ErrorKind::InvalidRole(v),
            Error::ErrInvalidString(_) => ErrorKind::InvalidString,
            Error::ErrProtocolViolation(reason) => ErrorKind::ProtocolViolation(reason@),
            Error::ErrParseError(code, reason) => ErrorKind::ParseError(code, reason@),
        }
    }
}

impl ErrorKind {
    /// True for the errors that only say that more input is needed.
    pub open spec fn is_incomplete(self) -> bool {
        self is UnexpectedEnd || self is BufferTooShort
    }

    /// The class and the text under which the error is reported, for the
    /// errors that end a session: a broken structural rule, a message that
    /// cannot be accepted, a parameter that occurs twice or is missing.
    /// Nothing for the others.
    pub open spec fn violation(self) -> Option<(ParserErrorCode, Seq<char>)> {
        match self {
            ErrorKind::ProtocolViolation(reason) => Some(
                (ParserErrorCode::ProtocolViolation, reason),
            ),
            ErrorKind::ParseError(code, reason) => Some((code, reason)),
            ErrorKind::DuplicateParameter => Some(
                (ParserErrorCode::ProtocolViolation, "duplicate parameter"@),
            ),
            ErrorKind::MissingParameter => Some(
                (ParserErrorCode::ProtocolViolation, "missing parameter"@),
            ),
            _ => None,
        }
    }
}

impl Error {
    /// The class and the text under which the error is reported, for the
    /// errors that end a session; nothing for the others.
    pub fn violation(&self) -> (r: Option<(ParserErrorCode, String)>)
        ensures
            match r {
                Some((code, reason)) => self@.violation() == Some((code, reason@)),
                None => self@.violation() is None,
            },
    {
        match self {
            Error::ErrProtocolViolation(reason) => Some(
                (ParserErrorCode::ProtocolViolation, reason.clone()),
            ),
            Error::ErrParseError(code, reason) => Some((*code, reason.clone())),
            Error::ErrDuplicateParameter => Some(
                (ParserErrorCode::ProtocolViolation, "duplicate parameter".to_owned()),
            ),
            Error::ErrMissingParameter => Some(
                (ParserErrorCode::ProtocolViolation, "missing parameter".to_owned()),
            ),
            _ => None,
        }
    }
}

} // verus!
