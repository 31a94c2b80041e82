//! Double ratchet sessions over Nostr: invites, sessions between devices,
//! owners with many devices, groups of owners, and a runtime that says what is
//! to be stored, published and listened to.
//!
//! Nothing in this crate reads a clock, a disk or a relay. Operations are given
//! the time and a source of random numbers, and hand back what is to be done.
pub mod order;
pub mod collections;
pub mod error;
pub mod text;
pub mod encoding;
pub mod crypto;
pub mod json;
pub mod ids;
pub mod types;
pub mod session;
pub mod event;
pub mod rumor;
pub mod keyed_json;
pub mod app_keys;
pub mod invite;
pub mod codec;
pub mod invite_actor;
pub mod peer_book;
pub mod state;
pub mod roster;
pub mod roster_editor;
pub mod shelf;
pub mod session_manager;
pub mod group;
pub mod group_wire;
pub mod group_manager;
pub mod v2;
pub mod runtime;
pub mod device_properties;
pub mod keeping;
pub mod message_properties;
pub mod peer_properties;

pub use app_keys::{AppKeys, DeviceEntry, DeviceLabels};
pub use error::{CodecError, DomainError, Error};
pub use group::{
    GroupCreateResult, GroupIncomingEvent, GroupManagerSnapshot, GroupPreparedSend,
    GroupReceivedMessage, GroupSnapshot,
};
pub use group_manager::GroupManager;
pub use ids::{DeviceId, DevicePubkey, GroupId, OwnerPubkey, UnixMillis, UnixSeconds};
pub use invite::{Invite, InviteResponse, InviteResponseEnvelope};
pub use roster::{AuthorizedDevice, DeviceRoster, RosterSnapshotDecision};
pub use roster_editor::RosterEditor;
pub use runtime::NdrRuntime;
pub use session::{SerializableKeyPair, Session, SessionState, SkippedKeysEntry};
pub use session_manager::{
    Delivery, DeviceRecordSnapshot, PreparedSend, ProcessedInviteResponse, PruneReport,
    ReceivedMessage, RelayGap, SessionManager, SessionManagerSnapshot, UserRecordSnapshot,
};
pub use types::{ProtocolContext, MAX_SKIP};
