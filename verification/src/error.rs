//! What can go wrong.
use vstd::prelude::*;
use crate::text::concat;

verus! {

/// A request that the protocol's own rules refuse.
#[derive(Debug, PartialEq, Eq)]
pub enum DomainError {
    TooManySkippedMessages,
    SessionNotReady,
    CannotSendYet,
    NotInitiator,
    UnexpectedSender,
    InviteExhausted,
    InviteAlreadyUsed,
    DeviceIdRequired,
    UnknownPeer(String),
    NoSendableSession(String),
    InvalidGroupOperation(String),
    PendingGroupRevision { group_id: String, current_revision: u64, required_revision: u64 },
    InvalidState(String),
}

/// Text or an event that is not in the form that the protocol gives it.
#[derive(Debug, PartialEq, Eq)]
pub enum CodecError {
    Parse(String),
    InvalidEvent(String),
    InvalidHeader,
    Invite(String),
}

#[derive(Debug, PartialEq, Eq)]
pub enum Error {
    Domain(DomainError),
    Codec(CodecError),
    Parse(String),
    Encryption(String),
    Decryption(String),
    NostrKey(String),
    Nip44(String),
}

/// What kind of error an error is, without its text.
#[derive(Debug, Clone, Copy, PartialEq, Eq, Structural)]
pub enum Fault {
    TooManySkippedMessages,
    SessionNotReady,
    CannotSendYet,
    NotInitiator,
    UnexpectedSender,
    InviteExhausted,
    InviteAlreadyUsed,
    DeviceIdRequired,
    UnknownPeer,
    NoSendableSession,
    InvalidGroupOperation,
    PendingGroupRevision,
    InvalidState,
    CodecParse,
    InvalidEvent,
    InvalidHeader,
    InvalidInvite,
    Parse,
    Encryption,
    Decryption,
    NostrKey,
    Nip44,
}

pub open spec fn fault(e: Error) -> Fault {
    match e {
        Error::Domain(DomainError::TooManySkippedMessages) => Fault::TooManySkippedMessages,
        Error::Domain(DomainError::SessionNotReady) => Fault::SessionNotReady,
        Error::Domain(DomainError::CannotSendYet) => Fault::CannotSendYet,
        Error::Domain(DomainError::NotInitiator) => Fault::NotInitiator,
        Error::Domain(DomainError::UnexpectedSender) => Fault::UnexpectedSender,
        Error::Domain(DomainError::InviteExhausted) => Fault::InviteExhausted,
        Error::Domain(DomainError::InviteAlreadyUsed) => Fault::InviteAlreadyUsed,
        Error::Domain(DomainError::DeviceIdRequired) => Fault::DeviceIdRequired,
        Error::Domain(DomainError::UnknownPeer(_)) => Fault::UnknownPeer,
        Error::Domain(DomainError::NoSendableSession(_)) => Fault::NoSendableSession,
        Error::Domain(DomainError::InvalidGroupOperation(_)) => Fault::InvalidGroupOperation,
        Error::Domain(DomainError::PendingGroupRevision { .. }) => Fault::PendingGroupRevision,
        Error::Domain(DomainError::InvalidState(_)) => Fault::InvalidState,
        Error::Codec(CodecError::Parse(_)) => Fault::CodecParse,
        Error::Codec(CodecError::InvalidEvent(_)) => Fault::InvalidEvent,
        Error::Codec(CodecError::InvalidHeader) => Fault::InvalidHeader,
        Error::Codec(CodecError::Invite(_)) => Fault::InvalidInvite,
        Error::Parse(_) => Fault::Parse,
        Error::Encryption(_) => Fault::Encryption,
        Error::Decryption(_) => Fault::Decryption,
        Error::NostrKey(_) => Fault::NostrKey,
        Error::Nip44(_) => Fault::Nip44,
    }
}

/// The text that an error carries, if any.
pub open spec fn detail(e: Error) -> Option<Seq<char>> {
    match e {
        Error::Domain(DomainError::UnknownPeer(text)) => Some(text@),
        Error::Domain(DomainError::NoSendableSession(text)) => Some(text@),
        Error::Domain(DomainError::InvalidGroupOperation(text)) => Some(text@),
        Error::Domain(DomainError::InvalidState(text)) => Some(text@),
        Error::Codec(CodecError::Parse(text)) => Some(text@),
        Error::Codec(CodecError::InvalidEvent(text)) => Some(text@),
        Error::Codec(CodecError::Invite(text)) => Some(text@),
        Error::Parse(text) => Some(text@),
        Error::Encryption(text) => Some(text@),
        Error::Decryption(text) => Some(text@),
        Error::NostrKey(text) => Some(text@),
        Error::Nip44(text) => Some(text@),
        _ => None,
    }
}

/// What an error says.
pub open spec fn error_text(e: Error) -> Seq<char> {
    match e {
        Error::Domain(e) => domain_text(e),
        Error::Codec(e) => codec_text(e),
        Error::Parse(text) => "parse error: "@ + text@,
        Error::Encryption(text) => "encryption error: "@ + text@,
        Error::Decryption(text) => "decryption error: "@ + text@,
        Error::NostrKey(text) => text@,
        Error::Nip44(text) => text@,
    }
}

pub open spec fn domain_text(e: DomainError) -> Seq<char> {
    match e {
        DomainError::TooManySkippedMessages => "too many skipped messages"@,
        DomainError::SessionNotReady => "session not ready"@,
        DomainError::CannotSendYet => "session cannot send yet"@,
        DomainError::NotInitiator => "not the initiator"@,
        DomainError::UnexpectedSender => "unexpected sender for session"@,
        DomainError::InviteExhausted => "invite exhausted"@,
        DomainError::InviteAlreadyUsed => "invite already used"@,
        DomainError::DeviceIdRequired => "device id required"@,
        DomainError::UnknownPeer(text) => "unknown peer: "@ + text@,
        DomainError::NoSendableSession(text) => "no sendable session: "@ + text@,
        DomainError::InvalidGroupOperation(text) => "invalid group operation: "@ + text@,
        DomainError::PendingGroupRevision { group_id, .. } => "pending group revision: "@
            + group_id@,
        DomainError::InvalidState(text) => "invalid state: "@ + text@,
    }
}

pub open spec fn codec_text(e: CodecError) -> Seq<char> {
    match e {
        CodecError::Parse(text) => "parse error: "@ + text@,
        CodecError::InvalidEvent(text) => "invalid event: "@ + text@,
        CodecError::InvalidHeader => "invalid header"@,
        CodecError::Invite(text) => "invalid invite: "@ + text@,
    }
}

impl DomainError {
    pub fn text(&self) -> (r: String)
        ensures
            r@ == domain_text(*self),
    {
        match self {
            DomainError::TooManySkippedMessages => "too many skipped messages".to_string(),
            DomainError::SessionNotReady => "session not ready".to_string(),
            DomainError::CannotSendYet => "session cannot send yet".to_string(),
            DomainError::NotInitiator => "not the initiator".to_string(),
            DomainError::UnexpectedSender => "unexpected sender for session".to_string(),
            DomainError::InviteExhausted => "invite exhausted".to_string(),
            DomainError::InviteAlreadyUsed => "invite already used".to_string(),
            DomainError::DeviceIdRequired => "device id required".to_string(),
            DomainError::UnknownPeer(text) => concat("unknown peer: ", text.as_str()),
            DomainError::NoSendableSession(text) => concat(
                "no sendable session: ",
                text.as_str(),
            ),
            DomainError::InvalidGroupOperation(text) => concat(
                "invalid group operation: ",
                text.as_str(),
            ),
            DomainError::PendingGroupRevision { group_id, .. } => concat(
                "pending group revision: ",
                group_id.as_str(),
            ),
            DomainError::InvalidState(text) => concat("invalid state: ", text.as_str()),
        }
    }
}

impl CodecError {
    pub fn text(&self) -> (r: String)
        ensures
            r@ == codec_text(*self),
    {
        match self {
            CodecError::Parse(text) => concat("parse error: ", text.as_str()),
            CodecError::InvalidEvent(text) => concat("invalid event: ", text.as_str()),
            CodecError::InvalidHeader => "invalid header".to_string(),
            CodecError::Invite(text) => concat("invalid invite: ", text.as_str()),
        }
    }
}

impl Error {
    pub fn text(&self) -> (r: String)
        ensures
            r@ == error_text(*self),
    {
        match self {
            Error::Domain(e) => e.text(),
            Error::Codec(e) => e.text(),
            Error::Parse(text) => concat("parse error: ", text.as_str()),
            Error::Encryption(text) => concat("encryption error: ", text.as_str()),
            Error::Decryption(text) => concat("decryption error: ", text.as_str()),
            Error::NostrKey(text) => text.clone(),
            Error::Nip44(text) => text.clone(),
        }
    }
}

} // verus!
