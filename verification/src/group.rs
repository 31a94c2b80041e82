//! Groups of owners, and what sending to one and hearing from one comes to.
use vstd::prelude::*;
use crate::ids::{OwnerPubkey, UnixSeconds};
use crate::invite::InviteResponseEnvelope;
use crate::session_manager::{Delivery, RelayGap};

verus! {

#[derive(Debug)]
pub struct GroupSnapshot {
    pub group_id: String,
    pub name: String,
    pub created_by: OwnerPubkey,
    pub members: Vec<OwnerPubkey>,
    pub admins: Vec<OwnerPubkey>,
    pub revision: u64,
    pub created_at: UnixSeconds,
    pub updated_at: UnixSeconds,
}

#[derive(Debug)]
pub struct GroupManagerSnapshot {
    pub local_owner_pubkey: OwnerPubkey,
    pub groups: Vec<GroupSnapshot>,
}

#[derive(Debug)]
pub struct GroupPreparedSend {
    pub group_id: String,
    pub deliveries: Vec<Delivery>,
    pub invite_responses: Vec<InviteResponseEnvelope>,
    pub relay_gaps: Vec<RelayGap>,
}

#[derive(Debug)]
pub struct GroupCreateResult {
    pub group: GroupSnapshot,
    pub prepared: GroupPreparedSend,
}

#[derive(Debug)]
pub struct GroupReceivedMessage {
    pub group_id: String,
    pub sender_owner: OwnerPubkey,
    pub body: Vec<u8>,
    pub revision: u64,
}

#[derive(Debug)]
pub enum GroupIncomingEvent {
    MetadataUpdated(GroupSnapshot),
    Message(GroupReceivedMessage),
}

/// What a snapshot of a group says.
#[verifier::ext_equal]
pub struct GroupSnapshotModel {
    pub group_id: Seq<char>,
    pub name: Seq<char>,
    pub created_by: OwnerPubkey,
    pub members: Seq<OwnerPubkey>,
    pub admins: Seq<OwnerPubkey>,
    pub revision: u64,
    pub created_at: UnixSeconds,
    pub updated_at: UnixSeconds,
}

impl View for GroupSnapshot {
    type V = GroupSnapshotModel;

    open spec fn view(&self) -> GroupSnapshotModel {
        GroupSnapshotModel {
            group_id: self.group_id@,
            name: self.name@,
            created_by: self.created_by,
            members: self.members@,
            admins: self.admins@,
            revision: self.revision,
            created_at: self.created_at,
            updated_at: self.updated_at,
        }
    }
}

pub open spec fn group_snapshots(groups: Seq<GroupSnapshot>) -> Seq<GroupSnapshotModel> {
    Seq::new(groups.len(), |i: int| groups[i]@)
}

/// What hearing from a group comes to.
#[verifier::ext_equal]
pub enum GroupEventModel {
    Metadata(GroupSnapshotModel),
    Message { group_id: Seq<char>, sender: OwnerPubkey, body: Seq<u8>, revision: u64 },
}

impl View for GroupIncomingEvent {
    type V = GroupEventModel;

    open spec fn view(&self) -> GroupEventModel {
        match *self {
            GroupIncomingEvent::MetadataUpdated(group) => GroupEventModel::Metadata(group@),
            GroupIncomingEvent::Message(message) => GroupEventModel::Message {
                group_id: message.group_id@,
                sender: message.sender_owner,
                body: message.body@,
                revision: message.revision,
            },
        }
    }
}

/// A copy of a list of owners.
pub fn copy_owners(owners: &Vec<OwnerPubkey>) -> (r: Vec<OwnerPubkey>)
    ensures
        r@ == owners@,
{
    vstd::slice::slice_to_vec(owners.as_slice())
}

impl Clone for GroupSnapshot {
    fn clone(&self) -> (r: Self)
        ensures
            r@ == self@,
    {
        GroupSnapshot {
            group_id: self.group_id.clone(),
            name: self.name.clone(),
            created_by: self.created_by,
            members: copy_owners(&self.members),
            admins: copy_owners(&self.admins),
            revision: self.revision,
            created_at: self.created_at,
            updated_at: self.updated_at,
        }
    }
}

} // verus!
