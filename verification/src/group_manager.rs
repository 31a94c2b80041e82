//! The groups that an owner is in: who may change them, and what their members
//! hear of it.
pub mod properties;

use vstd::prelude::*;
use crate::collections::{lists, ordered, ordered_values, OrderedKey, VecMap, VecSet};
use crate::encoding::{hex_encode, hex_text};
use crate::error::{detail, fault, DomainError, Error, Fault};
use crate::group::{
    group_snapshots, GroupCreateResult, GroupEventModel, GroupIncomingEvent, GroupManagerSnapshot,
    GroupPreparedSend, GroupReceivedMessage, GroupSnapshot, GroupSnapshotModel,
};
use crate::group_wire::{
    payload_bytes, payload_of_bytes, GroupPayload, GroupPayloadModel, OwnersChange,
};
use crate::ids::{OwnerPubkey, UnixSeconds};
use crate::invite::InviteResponseEnvelope;
use crate::session_manager::{
    audience, gap_models, listed_owners, prepares, Delivery, GapModel, ManagerModel, PreparedSend, RelayGap,
    SessionManager,
};
use crate::text::{concat, concat3, decimal, decimal_text};
use crate::types::{random_bytes_16, ProtocolContext};

verus! {

/// The groups of an owner.
#[derive(Debug)]
pub struct GroupManager {
    local_owner_pubkey: OwnerPubkey,
    groups: VecMap<String, GroupRecord>,
}

#[derive(Debug)]
struct GroupRecord {
    group_id: String,
    name: String,
    created_by: OwnerPubkey,
    members: VecSet<OwnerPubkey>,
    admins: VecSet<OwnerPubkey>,
    revision: u64,
    created_at: UnixSeconds,
    updated_at: UnixSeconds,
}

/// What is known of a group.
#[verifier::ext_equal]
pub struct GroupModel {
    pub group_id: Seq<char>,
    pub name: Seq<char>,
    pub created_by: OwnerPubkey,
    pub members: Set<OwnerPubkey>,
    pub admins: Set<OwnerPubkey>,
    pub revision: u64,
    pub created_at: UnixSeconds,
    pub updated_at: UnixSeconds,
}

/// What a group manager knows.
#[verifier::ext_equal]
pub struct GroupsModel {
    pub owner: OwnerPubkey,
    pub groups: Map<Seq<char>, GroupModel>,
}

impl View for GroupRecord {
    type V = GroupModel;

    closed spec fn view(&self) -> GroupModel {
        GroupModel {
            group_id: self.group_id@,
            name: self.name@,
            created_by: self.created_by,
            members: self.members@,
            admins: self.admins@,
            revision: self.revision,
            created_at: self.created_at,
            updated_at: self.updated_at,
        }
    }
}

spec fn group_models(groups: Map<Seq<char>, GroupRecord>) -> Map<Seq<char>, GroupModel> {
    Map::new(|k: Seq<char>| groups.contains_key(k), |k: Seq<char>| groups[k]@)
}

impl View for GroupManager {
    type V = GroupsModel;

    closed spec fn view(&self) -> GroupsModel {
        GroupsModel { owner: self.local_owner_pubkey, groups: group_models(self.groups@) }
    }
}

/// Whether a group has members and admins, finitely many, and its admins are
/// members.
pub open spec fn well_formed(g: GroupModel) -> bool {
    &&& shape_refusal(g.members, g.admins) is None
    &&& g.members.finite()
    &&& g.admins.finite()
}

/// Whether groups are finitely many and well formed, and each stands under its
/// own identifier.
pub open spec fn all_well_formed(groups: Map<Seq<char>, GroupModel>) -> bool {
    &&& groups.dom().finite()
    &&& forall|id: Seq<char>| #[trigger]
        groups.contains_key(id) ==> groups[id].group_id == id && well_formed(groups[id])
}

/// The snapshot of a group, its owners in the order of their keys.
pub open spec fn snapshot_of(g: GroupModel) -> GroupSnapshotModel {
    GroupSnapshotModel {
        group_id: g.group_id,
        name: g.name,
        created_by: g.created_by,
        members: ordered::<OwnerPubkey>(g.members),
        admins: ordered::<OwnerPubkey>(g.admins),
        revision: g.revision,
        created_at: g.created_at,
        updated_at: g.updated_at,
    }
}

/// Whether an error is the refusal of a group operation with a text.
pub open spec fn refuses(e: Error, text: Seq<char>) -> bool {
    fault(e) == Fault::InvalidGroupOperation && detail(e) == Some(text)
}

fn group_error(message: String) -> (r: Error)
    ensures
        refuses(r, message@),
{
    Error::Domain(DomainError::InvalidGroupOperation(message))
}

// ---------------------------------------------------------------------------
// Rules
// ---------------------------------------------------------------------------

/// Why a list of owners is refused: one is there twice.
pub open spec fn repeat_refusal(owners: Seq<OwnerPubkey>, label: Seq<char>) -> Option<Seq<char>> {
    if owners.no_duplicates() {
        None
    } else {
        Some("duplicate "@ + label + " are not allowed"@)
    }
}

/// Why owners make no group.
pub open spec fn shape_refusal(members: Set<OwnerPubkey>, admins: Set<OwnerPubkey>) -> Option<
    Seq<char>,
> {
    if members =~= Set::empty() {
        Some("group must have at least one member"@)
    } else if admins =~= Set::empty() {
        Some("group must have at least one admin"@)
    } else if !admins.subset_of(members) {
        Some("all admins must also be members"@)
    } else {
        None
    }
}

pub open spec fn unknown_text(group_id: Seq<char>) -> Seq<char> {
    "unknown group `"@ + group_id + "`"@
}

pub open spec fn not_admin_text(g: GroupModel, owner: OwnerPubkey) -> Seq<char> {
    "owner "@ + hex_text(owner.0@) + " is not an admin of group `"@ + g.group_id + "`"@
}

pub open spec fn not_member_text(g: GroupModel, owner: OwnerPubkey) -> Seq<char> {
    "owner "@ + hex_text(owner.0@) + " is not a member of group `"@ + g.group_id + "`"@
}

/// Why an owner may not make the next revision of a group.
pub open spec fn authority_refusal(
    g: GroupModel,
    actor: OwnerPubkey,
    base_revision: u64,
    new_revision: u64,
) -> Option<Seq<char>> {
    if !g.admins.contains(actor) {
        Some(not_admin_text(g, actor))
    } else if base_revision != g.revision {
        Some(
            "stale group revision for `"@ + g.group_id + "`: expected "@ + decimal(
                g.revision as nat,
            ) + ", got "@ + decimal(base_revision as nat),
        )
    } else if new_revision != base_revision + 1 {
        Some(
            "invalid next revision for `"@ + g.group_id + "`: expected "@ + decimal(
                (base_revision + 1) as nat,
            ) + ", got "@ + decimal(new_revision as nat),
        )
    } else {
        None
    }
}

/// Why a change cannot be made to one owner.
pub open spec fn owner_refusal(g: GroupModel, change: OwnersChange, owner: OwnerPubkey) -> Option<
    Seq<char>,
> {
    let named = "owner "@ + hex_text(owner.0@);
    match change {
        OwnersChange::AddMembers => if g.members.contains(owner) {
            Some(named + " is already a member"@)
        } else {
            None
        },
        OwnersChange::RemoveMembers => if !g.members.contains(owner) {
            Some(named + " is not a member"@)
        } else {
            None
        },
        OwnersChange::AddAdmins => if !g.members.contains(owner) {
            Some(named + " must be a member before promotion"@)
        } else if g.admins.contains(owner) {
            Some(named + " is already an admin"@)
        } else {
            None
        },
        OwnersChange::RemoveAdmins => if !g.admins.contains(owner) {
            Some(named + " is not an admin"@)
        } else {
            None
        },
    }
}

/// Why a change cannot be made to owners: the first of them to which it cannot.
pub open spec fn owners_refusal(g: GroupModel, change: OwnersChange, owners: Seq<OwnerPubkey>) -> Option<
    Seq<char>,
>
    decreases owners.len(),
{
    if owners.len() == 0 {
        None
    } else {
        match owner_refusal(g, change, owners[0]) {
            Some(text) => Some(text),
            None => owners_refusal(g, change, owners.drop_first()),
        }
    }
}

/// The label of the list that a change is about.
pub open spec fn change_label(change: OwnersChange) -> Seq<char> {
    match change {
        OwnersChange::AddMembers | OwnersChange::RemoveMembers => "members"@,
        OwnersChange::AddAdmins | OwnersChange::RemoveAdmins => "admins"@,
    }
}

/// A group with a change made to its owners.
pub open spec fn changed(
    g: GroupModel,
    change: OwnersChange,
    owners: Set<OwnerPubkey>,
    revision: u64,
    updated_at: UnixSeconds,
) -> GroupModel {
    GroupModel {
        members: match change {
            OwnersChange::AddMembers => g.members.union(owners),
            OwnersChange::RemoveMembers => g.members.difference(owners),
            _ => g.members,
        },
        admins: match change {
            OwnersChange::AddMembers => g.admins,
            OwnersChange::AddAdmins => g.admins.union(owners),
            _ => g.admins.difference(owners),
        },
        revision,
        updated_at,
        ..g
    }
}

/// Why a change to the owners of a group is refused.
pub open spec fn change_refusal(
    g: GroupModel,
    actor: OwnerPubkey,
    change: OwnersChange,
    owners: Set<OwnerPubkey>,
    base_revision: u64,
    new_revision: u64,
) -> Option<Seq<char>> {
    match authority_refusal(g, actor, base_revision, new_revision) {
        Some(text) => Some(text),
        None => if owners =~= Set::empty() {
            Some(change_label(change) + " list must not be empty"@)
        } else if change is RemoveMembers && owners.contains(actor) {
            Some("self-removal is not allowed"@)
        } else {
            match owners_refusal(g, change, ordered::<OwnerPubkey>(owners)) {
                Some(text) => Some(text),
                None => if change is RemoveAdmins && g.admins.len() == owners.len() {
                    Some("cannot remove the last admin"@)
                } else {
                    let next = changed(g, change, owners, new_revision, g.updated_at);
                    if change is RemoveMembers || change is RemoveAdmins {
                        shape_refusal(next.members, next.admins)
                    } else {
                        None
                    }
                },
            }
        },
    }
}

/// Whether a group already is as a change would make it.
pub open spec fn reflects(
    g: GroupModel,
    change: OwnersChange,
    owners: Set<OwnerPubkey>,
    new_revision: u64,
) -> bool {
    g.revision >= new_revision && match change {
        OwnersChange::AddMembers => owners.subset_of(g.members),
        OwnersChange::RemoveMembers => owners.disjoint(g.members),
        OwnersChange::AddAdmins => owners.subset_of(g.admins),
        OwnersChange::RemoveAdmins => owners.disjoint(g.admins),
    }
}

/// A group with a new name.
pub open spec fn renamed(
    g: GroupModel,
    name: Seq<char>,
    revision: u64,
    updated_at: UnixSeconds,
) -> GroupModel {
    GroupModel { name, revision, updated_at, ..g }
}

/// The group that a snapshot tells of.
pub open spec fn group_of(s: GroupSnapshotModel) -> GroupModel {
    GroupModel {
        group_id: s.group_id,
        name: s.name,
        created_by: s.created_by,
        members: s.members.to_set(),
        admins: s.admins.to_set(),
        revision: s.revision,
        created_at: s.created_at,
        updated_at: s.updated_at,
    }
}

/// Why a snapshot tells of no group.
pub open spec fn snapshot_refusal(s: GroupSnapshotModel) -> Option<Seq<char>> {
    match repeat_refusal(s.members, "members"@) {
        Some(text) => Some(text),
        None => match repeat_refusal(s.admins, "admins"@) {
            Some(text) => Some(text),
            None => shape_refusal(s.members.to_set(), s.admins.to_set()),
        },
    }
}

/// Why an owner cannot have made a group.
pub open spec fn create_refusal(s: GroupSnapshotModel, sender: OwnerPubkey) -> Option<Seq<char>> {
    match repeat_refusal(s.members, "members"@) {
        Some(text) => Some(text),
        None => match repeat_refusal(s.admins, "admins"@) {
            Some(text) => Some(text),
            None => if s.created_by != sender {
                Some("create group sender must match created_by"@)
            } else if s.revision == 0 {
                Some("create group revision must be at least 1"@)
            } else if !s.admins.contains(sender) {
                Some("create group sender must be an admin"@)
            } else {
                shape_refusal(s.members.to_set(), s.admins.to_set())
            },
        },
    }
}

/// What a member makes of what another tells it: the groups as they are then,
/// and what happened, or a refusal.
pub open spec fn heard(
    groups: Map<Seq<char>, GroupModel>,
    sender: OwnerPubkey,
    p: GroupPayloadModel,
) -> Result<(Map<Seq<char>, GroupModel>, GroupEventModel), Seq<char>> {
    match p {
        GroupPayloadModel::Create { base_revision, group } => match create_refusal(group, sender) {
            Some(text) => Err(text),
            None => {
                let g = group_of(group);
                if groups.contains_key(g.group_id) {
                    if groups[g.group_id] == g {
                        Ok((groups, GroupEventModel::Metadata(snapshot_of(g))))
                    } else {
                        Err("group `"@ + g.group_id + "` already exists"@)
                    }
                } else if base_revision != 0 {
                    Err("create group base revision must be 0"@)
                } else {
                    Ok(
                        (
                            groups.insert(g.group_id, g),
                            GroupEventModel::Metadata(snapshot_of(g)),
                        ),
                    )
                }
            },
        },
        GroupPayloadModel::Rename {
            group_id,
            base_revision,
            new_revision,
            name,
        } => if !groups.contains_key(group_id) {
            Err(unknown_text(group_id))
        } else {
            let g = groups[group_id];
            if g.revision >= new_revision && g.name == name {
                Ok((groups, GroupEventModel::Metadata(snapshot_of(g))))
            } else {
                match authority_refusal(g, sender, base_revision, new_revision) {
                    Some(text) => Err(text),
                    None => {
                        let next = renamed(g, name, new_revision, g.updated_at);
                        Ok(
                            (
                                groups.insert(group_id, next),
                                GroupEventModel::Metadata(snapshot_of(next)),
                            ),
                        )
                    },
                }
            }
        },
        GroupPayloadModel::Owners {
            change,
            group_id,
            base_revision,
            new_revision,
            owners,
        } => match repeat_refusal(owners, change_label(change)) {
            Some(text) => Err(text),
            None => if !groups.contains_key(group_id) {
                Err(unknown_text(group_id))
            } else {
                let g = groups[group_id];
                if reflects(g, change, owners.to_set(), new_revision) {
                    Ok((groups, GroupEventModel::Metadata(snapshot_of(g))))
                } else {
                    match change_refusal(
                        g,
                        sender,
                        change,
                        owners.to_set(),
                        base_revision,
                        new_revision,
                    ) {
                        Some(text) => Err(text),
                        None => {
                            let next = changed(
                                g,
                                change,
                                owners.to_set(),
                                new_revision,
                                g.updated_at,
                            );
                            Ok(
                                (
                                    groups.insert(group_id, next),
                                    GroupEventModel::Metadata(snapshot_of(next)),
                                ),
                            )
                        },
                    }
                }
            },
        },
        GroupPayloadModel::Message { group_id, revision, body } => if !groups.contains_key(
            group_id,
        ) {
            Err(unknown_text(group_id))
        } else {
            let g = groups[group_id];
            if !g.members.contains(sender) {
                Err(not_member_text(g, sender))
            } else if revision != g.revision {
                Err(
                    "group message revision mismatch for `"@ + group_id + "`: expected "@ + decimal(
                        g.revision as nat,
                    ) + ", got "@ + decimal(revision as nat),
                )
            } else {
                Ok((groups, GroupEventModel::Message { group_id, sender, body, revision }))
            }
        },
    }
}

/// Whether at most one group changed: the one that the result shows, as it
/// shows it.
pub open spec fn changes_the_named(
    before: GroupsModel,
    after: GroupsModel,
    r: Result<Option<GroupIncomingEvent>, Error>,
) -> bool {
    match r {
        Ok(Some(GroupIncomingEvent::MetadataUpdated(shown))) => {
            &&& after.groups.contains_key(shown@.group_id)
            &&& shown@ == snapshot_of(after.groups[shown@.group_id])
            &&& after == (GroupsModel {
                groups: before.groups.insert(
                    shown@.group_id,
                    after.groups[shown@.group_id],
                ),
                ..before
            })
        },
        _ => after == before,
    }
}

/// Whether a result is that of what a member tells.
pub open spec fn handles(
    before: GroupsModel,
    after: GroupsModel,
    sender: OwnerPubkey,
    payload: Seq<u8>,
    r: Result<Option<GroupIncomingEvent>, Error>,
) -> bool {
    match payload_of_bytes(payload) {
        None => after == before && (r matches Ok(event) && event is None),
        Some(p) => hears(before, after, sender, p, r),
    }
}

// ---------------------------------------------------------------------------
// Records
// ---------------------------------------------------------------------------

/// A text with a quoted name and two numbers in it.
fn revision_text(what: &str, group_id: &str, expected: u128, got: u64) -> (r: String)
    ensures
        r@ == what@ + group_id@ + "`: expected "@ + decimal(expected as nat) + ", got "@ + decimal(
            got as nat,
        ),
{
    let start = concat3(what, group_id, "`: expected ");
    let middle = concat3(start.as_str(), decimal_text(expected).as_str(), ", got ");
    concat(middle.as_str(), decimal_text(got as u128).as_str())
}

/// The owners of a list as a set, unless one is there twice.
fn validate_unique_owners(values: &Vec<OwnerPubkey>, label: &str) -> (r: Result<
    VecSet<OwnerPubkey>,
    Error,
>)
    ensures
        match r {
            Ok(set) => repeat_refusal(values@, label@) is None && set@ == values@.to_set(),
            Err(e) => repeat_refusal(values@, label@) is Some && refuses(
                e,
                repeat_refusal(values@, label@)->Some_0,
            ),
        },
{
    let mut set: VecSet<OwnerPubkey> = VecSet::new();
    let mut i: usize = 0;
    while i < values.len()
        invariant
            i <= values@.len(),
            forall|o: OwnerPubkey| #[trigger]
                set@.contains(o) <==> exists|j: int| 0 <= j < i && #[trigger] values@[j] == o,
            forall|j: int, k: int|
                0 <= j < k < i ==> #[trigger] values@[j] != #[trigger] values@[k],
        decreases values@.len() - i,
    {
        let ghost before = set@;
        let fresh: bool = set.insert(values[i]);
        if !fresh {
            proof {
                let j = choose|j: int| 0 <= j < i && #[trigger] values@[j] == values@[i as int];
                assert(values@[j] == values@[i as int]);
                assert(!values@.no_duplicates());
            }
            let text = concat3("duplicate ", label, " are not allowed");
            return Err(group_error(text));
        }
        proof {
            assert forall|o: OwnerPubkey| #[trigger] set@.contains(o) <==> exists|j: int|
                0 <= j < i + 1 && #[trigger] values@[j] == o by {
                if before.contains(o) {
                    let j = choose|j: int| 0 <= j < i && #[trigger] values@[j] == o;
                    assert(values@[j] == o);
                }
                if o == values@[i as int] {
                    assert(values@[i as int] == o);
                }
                if exists|j: int| 0 <= j < i + 1 && #[trigger] values@[j] == o {
                    let j = choose|j: int| 0 <= j < i + 1 && #[trigger] values@[j] == o;
                    if j < i {
                        assert(before.contains(o));
                    }
                }
            }
            assert forall|j: int, k: int| 0 <= j < k < i + 1 implies #[trigger] values@[j]
                != #[trigger] values@[k] by {
                if k == i && values@[j] == values@[k] {
                    assert(before.contains(values@[k]));
                }
            }
        }
        i = i + 1;
    }
    proof {
        assert(values@.no_duplicates());
        assert forall|o: OwnerPubkey| #[trigger] set@.contains(o) <==> values@.to_set().contains(
            o,
        ) by {
            if set@.contains(o) {
                let j = choose|j: int| 0 <= j < i && #[trigger] values@[j] == o;
                assert(values@.contains(values@[j]));
            }
            if values@.contains(o) {
                let j = choose|j: int| 0 <= j < values@.len() && values@[j] == o;
                assert(values@[j] == o);
            }
        }
        assert(set@ =~= values@.to_set());
    }
    Ok(set)
}

/// Whether all owners of a set are in another, or none is.
fn all_within(some: &VecSet<OwnerPubkey>, set: &VecSet<OwnerPubkey>, within: bool) -> (r: bool)
    ensures
        within ==> r == some@.subset_of(set@),
        !within ==> r == some@.disjoint(set@),
{
    let n: usize = some.len();
    let ghost order = ordered::<OwnerPubkey>(some@);
    let mut i: usize = 0;
    while i < n
        invariant
            i <= n,
            n == order.len(),
            order == ordered::<OwnerPubkey>(some@),
            lists::<OwnerPubkey>(order, some@),
            forall|j: int| 0 <= j < i ==> set@.contains(#[trigger] order[j]) == within,
        decreases n - i,
    {
        let owner = some.at(i);
        if set.contains(owner) != within {
            assert(some@.contains(order[i as int]));
            return false;
        }
        i = i + 1;
    }
    proof {
        assert forall|o: OwnerPubkey| #[trigger] some@.contains(o) implies set@.contains(o)
            == within by {
            assert(order.contains(o));
            let j = choose|j: int| 0 <= j < order.len() && order[j] == o;
            assert(set@.contains(order[j]) == within);
        }
        if !within {
            assert(some@.disjoint(set@));
        }
    }
    true
}

fn validate_group_invariants(members: &VecSet<OwnerPubkey>, admins: &VecSet<OwnerPubkey>) -> (r:
    Result<(), Error>)
    ensures
        match r {
            Ok(_) => shape_refusal(members@, admins@) is None,
            Err(e) => shape_refusal(members@, admins@) is Some && refuses(
                e,
                shape_refusal(members@, admins@)->Some_0,
            ),
        },
{
    if members.is_empty() {
        return Err(group_error("group must have at least one member".to_string()));
    }
    if admins.is_empty() {
        return Err(group_error("group must have at least one admin".to_string()));
    }
    if !all_within(admins, members, true) {
        return Err(group_error("all admins must also be members".to_string()));
    }
    Ok(())
}

/// A set with owners put in or taken out.
fn with_owners(set: &VecSet<OwnerPubkey>, owners: &VecSet<OwnerPubkey>, added: bool) -> (r: VecSet<
    OwnerPubkey,
>)
    ensures
        added ==> r@ == set@.union(owners@),
        !added ==> r@ == set@.difference(owners@),
{
    let mut r = set.clone();
    let n: usize = owners.len();
    let ghost order = ordered::<OwnerPubkey>(owners@);
    let mut i: usize = 0;
    while i < n
        invariant
            i <= n,
            n == order.len(),
            order == ordered::<OwnerPubkey>(owners@),
            lists::<OwnerPubkey>(order, owners@),
            forall|o: OwnerPubkey| #[trigger]
                r@.contains(o) <==> (if exists|j: int| 0 <= j < i && #[trigger] order[j] == o {
                    added
                } else {
                    set@.contains(o)
                }),
        decreases n - i,
    {
        let ghost before = r@;
        let owner = *owners.at(i);
        if added {
            r.insert(owner);
        } else {
            r.remove(&owner);
        }
        proof {
            assert forall|o: OwnerPubkey| #[trigger] r@.contains(o) <==> (if exists|j: int|
                0 <= j < i + 1 && #[trigger] order[j] == o {
                added
            } else {
                set@.contains(o)
            }) by {
                if o == order[i as int] {
                    assert(order[i as int] == o);
                } else {
                    assert(r@.contains(o) == before.contains(o));
                    assert((exists|j: int| 0 <= j < i && #[trigger] order[j] == o) == (exists|
                        j: int,
                    | 0 <= j < i + 1 && #[trigger] order[j] == o));
                }
            }
        }
        i = i + 1;
    }
    proof {
        assert forall|o: OwnerPubkey| #[trigger] owners@.contains(o) <==> exists|j: int|
            0 <= j < i && #[trigger] order[j] == o by {
            if owners@.contains(o) {
                assert(order.contains(o));
                let j = choose|j: int| 0 <= j < order.len() && order[j] == o;
                assert(order[j] == o);
            }
            if exists|j: int| 0 <= j < i && #[trigger] order[j] == o {
                let j = choose|j: int| 0 <= j < i && #[trigger] order[j] == o;
                assert(order.contains(order[j]));
            }
        }
        if added {
            assert(r@ =~= set@.union(owners@));
        } else {
            assert(r@ =~= set@.difference(owners@));
        }
    }
    r
}

impl Clone for GroupRecord {
    fn clone(&self) -> (r: Self)
        ensures
            r@ == self@,
    {
        GroupRecord {
            group_id: self.group_id.clone(),
            name: self.name.clone(),
            created_by: self.created_by,
            members: self.members.clone(),
            admins: self.admins.clone(),
            revision: self.revision,
            created_at: self.created_at,
            updated_at: self.updated_at,
        }
    }
}

impl GroupRecord {
    fn from_snapshot(snapshot: &GroupSnapshot) -> (r: Result<Self, Error>)
        ensures
            match r {
                Ok(record) => snapshot_refusal(snapshot@) is None && record@ == group_of(
                    snapshot@,
                ),
                Err(e) => snapshot_refusal(snapshot@) is Some && refuses(
                    e,
                    snapshot_refusal(snapshot@)->Some_0,
                ),
            },
    {
        let members = match validate_unique_owners(&snapshot.members, "members") {
            Ok(set) => set,
            Err(e) => {
                return Err(e);
            },
        };
        let admins = match validate_unique_owners(&snapshot.admins, "admins") {
            Ok(set) => set,
            Err(e) => {
                return Err(e);
            },
        };
        match validate_group_invariants(&members, &admins) {
            Ok(()) => {},
            Err(e) => {
                return Err(e);
            },
        }
        Ok(
            GroupRecord {
                group_id: snapshot.group_id.clone(),
                name: snapshot.name.clone(),
                created_by: snapshot.created_by,
                members,
                admins,
                revision: snapshot.revision,
                created_at: snapshot.created_at,
                updated_at: snapshot.updated_at,
            },
        )
    }

    fn from_create_payload(group: &GroupSnapshot, sender_owner: OwnerPubkey) -> (r: Result<
        Self,
        Error,
    >)
        ensures
            match r {
                Ok(record) => create_refusal(group@, sender_owner) is None && record@ == group_of(
                    group@,
                ),
                Err(e) => create_refusal(group@, sender_owner) is Some && refuses(
                    e,
                    create_refusal(group@, sender_owner)->Some_0,
                ),
            },
    {
        let members = match validate_unique_owners(&group.members, "members") {
            Ok(set) => set,
            Err(e) => {
                return Err(e);
            },
        };
        let admins = match validate_unique_owners(&group.admins, "admins") {
            Ok(set) => set,
            Err(e) => {
                return Err(e);
            },
        };
        if group.created_by != sender_owner {
            return Err(group_error("create group sender must match created_by".to_string()));
        }
        if group.revision == 0 {
            return Err(group_error("create group revision must be at least 1".to_string()));
        }
        assert(admins@.contains(sender_owner) == group@.admins.contains(sender_owner));
        if !admins.contains(&sender_owner) {
            return Err(group_error("create group sender must be an admin".to_string()));
        }
        match validate_group_invariants(&members, &admins) {
            Ok(()) => {},
            Err(e) => {
                return Err(e);
            },
        }
        Ok(
            GroupRecord {
                group_id: group.group_id.clone(),
                name: group.name.clone(),
                created_by: group.created_by,
                members,
                admins,
                revision: group.revision,
                created_at: group.created_at,
                updated_at: group.updated_at,
            },
        )
    }

    fn snapshot(&self) -> (r: GroupSnapshot)
        ensures
            r@ == snapshot_of(self@),
    {
        GroupSnapshot {
            group_id: self.group_id.clone(),
            name: self.name.clone(),
            created_by: self.created_by,
            members: listed_owners(&self.members),
            admins: listed_owners(&self.admins),
            revision: self.revision,
            created_at: self.created_at,
            updated_at: self.updated_at,
        }
    }

    fn same(&self, other: &GroupRecord) -> (r: bool)
        ensures
            r == (self@ == other@),
    {
        let r: bool = self.group_id == other.group_id && self.name == other.name && self.created_by
            == other.created_by && self.revision == other.revision && self.created_at.0
            == other.created_at.0 && self.updated_at.0 == other.updated_at.0 && all_within(
            &self.members,
            &other.members,
            true,
        ) && all_within(&other.members, &self.members, true) && all_within(
            &self.admins,
            &other.admins,
            true,
        ) && all_within(&other.admins, &self.admins, true);
        proof {
            if r {
                assert(UnixSeconds(self.created_at.0) == self.created_at);
                assert(UnixSeconds(other.created_at.0) == other.created_at);
                assert(UnixSeconds(self.updated_at.0) == self.updated_at);
                assert(UnixSeconds(other.updated_at.0) == other.updated_at);
                assert(self@.members =~= other@.members);
                assert(self@.admins =~= other@.admins);
                assert(self@ =~= other@);
            }
        }
        r
    }

    /// The members but one, in order.
    fn remote_members(&self, local_owner_pubkey: OwnerPubkey) -> (r: Vec<OwnerPubkey>)
        ensures
            r@ == ordered::<OwnerPubkey>(self@.members.remove(local_owner_pubkey)),
    {
        let mut members = self.members.clone();
        members.remove(&local_owner_pubkey);
        listed_owners(&members)
    }

    fn ensure_admin(&self, owner: OwnerPubkey) -> (r: Result<(), Error>)
        ensures
            match r {
                Ok(_) => self@.admins.contains(owner),
                Err(e) => !self@.admins.contains(owner) && refuses(
                    e,
                    not_admin_text(self@, owner),
                ),
            },
    {
        if self.admins.contains(&owner) {
            return Ok(());
        }
        let start = concat3("owner ", owner.to_hex().as_str(), " is not an admin of group `");
        Err(group_error(concat3(start.as_str(), self.group_id.as_str(), "`")))
    }

    fn ensure_member(&self, owner: OwnerPubkey) -> (r: Result<(), Error>)
        ensures
            match r {
                Ok(_) => self@.members.contains(owner),
                Err(e) => !self@.members.contains(owner) && refuses(
                    e,
                    not_member_text(self@, owner),
                ),
            },
    {
        if self.members.contains(&owner) {
            return Ok(());
        }
        let start = concat3("owner ", owner.to_hex().as_str(), " is not a member of group `");
        Err(group_error(concat3(start.as_str(), self.group_id.as_str(), "`")))
    }

    /// Whether an owner may make the next revision.
    fn ensure_authority(&self, actor: OwnerPubkey, base_revision: u64, new_revision: u64) -> (r:
        Result<(), Error>)
        ensures
            match r {
                Ok(_) => authority_refusal(self@, actor, base_revision, new_revision) is None,
                Err(e) => authority_refusal(self@, actor, base_revision, new_revision) is Some
                    && refuses(
                    e,
                    authority_refusal(self@, actor, base_revision, new_revision)->Some_0,
                ),
            },
    {
        match self.ensure_admin(actor) {
            Ok(()) => {},
            Err(e) => {
                return Err(e);
            },
        }
        if base_revision != self.revision {
            return Err(
                group_error(
                    revision_text(
                        "stale group revision for `",
                        self.group_id.as_str(),
                        self.revision as u128,
                        base_revision,
                    ),
                ),
            );
        }
        let expected: u128 = base_revision as u128 + 1;
        if new_revision as u128 != expected {
            return Err(
                group_error(
                    revision_text(
                        "invalid next revision for `",
                        self.group_id.as_str(),
                        expected,
                        new_revision,
                    ),
                ),
            );
        }
        Ok(())
    }

    fn reflects_rename(&self, name: &String, new_revision: u64) -> (r: bool)
        ensures
            r == (self@.revision >= new_revision && self@.name == name@),
    {
        self.revision >= new_revision && self.name == *name
    }

    fn reflects_change(
        &self,
        change: OwnersChange,
        owners: &VecSet<OwnerPubkey>,
        new_revision: u64,
    ) -> (r: bool)
        ensures
            r == reflects(self@, change, owners@, new_revision),
    {
        if self.revision < new_revision {
            return false;
        }
        match change {
            OwnersChange::AddMembers => all_within(owners, &self.members, true),
            OwnersChange::RemoveMembers => all_within(owners, &self.members, false),
            OwnersChange::AddAdmins => all_within(owners, &self.admins, true),
            OwnersChange::RemoveAdmins => all_within(owners, &self.admins, false),
        }
    }

    fn apply_rename(
        &mut self,
        actor: OwnerPubkey,
        name: String,
        base_revision: u64,
        new_revision: u64,
        updated_at: UnixSeconds,
    ) -> (r: Result<(), Error>)
        ensures
            match r {
                Ok(_) => authority_refusal(old(self)@, actor, base_revision, new_revision) is None
                    && final(self)@ == renamed(old(self)@, name@, new_revision, updated_at),
                Err(e) => *final(self) == *old(self) && authority_refusal(
                    old(self)@,
                    actor,
                    base_revision,
                    new_revision,
                ) is Some && refuses(
                    e,
                    authority_refusal(old(self)@, actor, base_revision, new_revision)->Some_0,
                ),
            },
    {
        match self.ensure_authority(actor, base_revision, new_revision) {
            Ok(()) => {},
            Err(e) => {
                return Err(e);
            },
        }
        self.name = name;
        self.revision = new_revision;
        self.updated_at = updated_at;
        Ok(())
    }

    /// Whether a change can be made to an owner.
    fn ensure_changeable(&self, change: OwnersChange, owner: OwnerPubkey) -> (r: Result<(), Error>)
        ensures
            match r {
                Ok(_) => owner_refusal(self@, change, owner) is None,
                Err(e) => owner_refusal(self@, change, owner) is Some && refuses(
                    e,
                    owner_refusal(self@, change, owner)->Some_0,
                ),
            },
    {
        let is_member: bool = self.members.contains(&owner);
        let is_admin: bool = self.admins.contains(&owner);
        let hex = owner.to_hex();
        let text: &str = match change {
            OwnersChange::AddMembers => if is_member {
                " is already a member"
            } else {
                return Ok(());
            },
            OwnersChange::RemoveMembers => if !is_member {
                " is not a member"
            } else {
                return Ok(());
            },
            OwnersChange::AddAdmins => if !is_member {
                " must be a member before promotion"
            } else if is_admin {
                " is already an admin"
            } else {
                return Ok(());
            },
            OwnersChange::RemoveAdmins => if !is_admin {
                " is not an admin"
            } else {
                return Ok(());
            },
        };
        Err(group_error(concat3("owner ", hex.as_str(), text)))
    }

    /// Whether a change can be made to owners.
    fn ensure_all_changeable(&self, change: OwnersChange, owners: &VecSet<OwnerPubkey>) -> (r:
        Result<(), Error>)
        ensures
            match r {
                Ok(_) => owners_refusal(self@, change, ordered::<OwnerPubkey>(owners@)) is None,
                Err(e) => owners_refusal(self@, change, ordered::<OwnerPubkey>(owners@)) is Some
                    && refuses(
                    e,
                    owners_refusal(self@, change, ordered::<OwnerPubkey>(owners@))->Some_0,
                ),
            },
    {
        let n: usize = owners.len();
        let ghost order = ordered::<OwnerPubkey>(owners@);
        let mut i: usize = 0;
        assert(order.skip(0) =~= order);
        while i < n
            invariant
                i <= n,
                n == order.len(),
                order == ordered::<OwnerPubkey>(owners@),
                owners_refusal(self@, change, order) == owners_refusal(
                    self@,
                    change,
                    order.skip(i as int),
                ),
            decreases n - i,
        {
            assert(order.skip(i as int)[0] == order[i as int]);
            assert(order.skip(i as int).drop_first() =~= order.skip(i + 1));
            match self.ensure_changeable(change, *owners.at(i)) {
                Ok(()) => {},
                Err(e) => {
                    return Err(e);
                },
            }
            i = i + 1;
        }
        Ok(())
    }

    /// Makes a change to the owners.
    fn apply_change(
        &mut self,
        actor: OwnerPubkey,
        change: OwnersChange,
        owners: &VecSet<OwnerPubkey>,
        base_revision: u64,
        new_revision: u64,
        updated_at: UnixSeconds,
    ) -> (r: Result<(), Error>)
        ensures
            match r {
                Ok(_) => change_refusal(
                    old(self)@,
                    actor,
                    change,
                    owners@,
                    base_revision,
                    new_revision,
                ) is None && final(self)@ == changed(
                    old(self)@,
                    change,
                    owners@,
                    new_revision,
                    updated_at,
                ),
                Err(e) => *final(self) == *old(self) && change_refusal(
                    old(self)@,
                    actor,
                    change,
                    owners@,
                    base_revision,
                    new_revision,
                ) is Some && refuses(
                    e,
                    change_refusal(
                        old(self)@,
                        actor,
                        change,
                        owners@,
                        base_revision,
                        new_revision,
                    )->Some_0,
                ),
            },
    {
        match self.ensure_authority(actor, base_revision, new_revision) {
            Ok(()) => {},
            Err(e) => {
                return Err(e);
            },
        }
        if owners.is_empty() {
            let text = match change {
                OwnersChange::AddMembers | OwnersChange::RemoveMembers => concat(
                    "members",
                    " list must not be empty",
                ),
                OwnersChange::AddAdmins | OwnersChange::RemoveAdmins => concat(
                    "admins",
                    " list must not be empty",
                ),
            };
            return Err(group_error(text));
        }
        if matches!(change, OwnersChange::RemoveMembers) && owners.contains(&actor) {
            return Err(group_error("self-removal is not allowed".to_string()));
        }
        match self.ensure_all_changeable(change, owners) {
            Ok(()) => {},
            Err(e) => {
                return Err(e);
            },
        }
        let admin_count: usize = self.admins.len();
        let owner_count: usize = owners.len();
        if matches!(change, OwnersChange::RemoveAdmins) && admin_count == owner_count {
            return Err(group_error("cannot remove the last admin".to_string()));
        }
        let members = match change {
            OwnersChange::AddMembers => with_owners(&self.members, owners, true),
            OwnersChange::RemoveMembers => with_owners(&self.members, owners, false),
            _ => self.members.clone(),
        };
        let admins = match change {
            OwnersChange::AddMembers => self.admins.clone(),
            OwnersChange::AddAdmins => with_owners(&self.admins, owners, true),
            _ => with_owners(&self.admins, owners, false),
        };
        if matches!(change, OwnersChange::RemoveMembers | OwnersChange::RemoveAdmins) {
            match validate_group_invariants(&members, &admins) {
                Ok(()) => {},
                Err(e) => {
                    return Err(e);
                },
            }
        }
        self.members = members;
        self.admins = admins;
        self.revision = new_revision;
        self.updated_at = updated_at;
        Ok(())
    }
}

fn unknown_group(group_id: &str) -> (r: Error)
    ensures
        refuses(r, unknown_text(group_id@)),
{
    group_error(concat3("unknown group `", group_id, "`"))
}

/// The groups of snapshots, each under its own identifier.
pub open spec fn restored_groups(groups: Seq<GroupSnapshotModel>) -> Result<
    Map<Seq<char>, GroupModel>,
    Seq<char>,
>
    decreases groups.len(),
{
    if groups.len() == 0 {
        Ok(Map::empty())
    } else {
        match restored_groups(groups.drop_last()) {
            Err(text) => Err(text),
            Ok(known) => match snapshot_refusal(groups.last()) {
                Some(text) => Err(text),
                None => if known.contains_key(groups.last().group_id) {
                    Err("duplicate group id in snapshot"@)
                } else {
                    Ok(known.insert(groups.last().group_id, group_of(groups.last())))
                },
            },
        }
    }
}

/// The snapshots of groups, in the order of their identifiers.
pub open spec fn snapshots_of(groups: Map<Seq<char>, GroupModel>) -> Seq<GroupSnapshotModel> {
    Seq::new(
        ordered_values::<String, GroupModel>(groups).len(),
        |i: int| snapshot_of(ordered_values::<String, GroupModel>(groups)[i]),
    )
}

proof fn lemma_restored_stays(groups: Seq<GroupSnapshotModel>, n: int)
    requires
        0 <= n <= groups.len(),
        restored_groups(groups.take(n)) is Err,
    ensures
        restored_groups(groups) == restored_groups(groups.take(n)),
    decreases groups.len(),
{
    if n < groups.len() {
        assert(groups.drop_last().take(n) =~= groups.take(n));
        lemma_restored_stays(groups.drop_last(), n);
    } else {
        assert(groups.take(n) =~= groups);
    }
}

impl GroupManager {
    pub fn new(local_owner_pubkey: OwnerPubkey) -> (r: Self)
        ensures
            r@ == (GroupsModel { owner: local_owner_pubkey, groups: Map::empty() }),
            all_well_formed(r@.groups),
    {
        let groups: VecMap<String, GroupRecord> = VecMap::new();
        assert(group_models(groups@) =~= Map::empty());
        GroupManager { local_owner_pubkey, groups }
    }

    pub fn from_snapshot(snapshot: GroupManagerSnapshot) -> (r: Result<Self, Error>)
        ensures
            match restored_groups(group_snapshots(snapshot.groups@)) {
                Ok(groups) => all_well_formed(groups) && (r matches Ok(manager) && manager@ == (
                GroupsModel { owner: snapshot.local_owner_pubkey, groups })),
                Err(text) => r matches Err(e) && refuses(e, text),
            },
    {
        let ghost all = group_snapshots(snapshot.groups@);
        proof {
            restored_groups_are_well_formed(all);
        }
        let mut manager = GroupManager::new(snapshot.local_owner_pubkey);
        let mut i: usize = 0;
        assert(all.take(0) =~= Seq::empty());
        while i < snapshot.groups.len()
            invariant
                i <= snapshot.groups@.len(),
                all == group_snapshots(snapshot.groups@),
                manager@.owner == snapshot.local_owner_pubkey,
                restored_groups(all.take(i as int)) == Ok::<Map<Seq<char>, GroupModel>, Seq<char>>(
                    manager@.groups,
                ),
            decreases snapshot.groups@.len() - i,
        {
            let ghost next = all.take(i + 1);
            proof {
                assert(next.drop_last() =~= all.take(i as int));
                assert(next.last() == snapshot.groups@[i as int]@);
            }
            let record = match GroupRecord::from_snapshot(&snapshot.groups[i]) {
                Ok(record) => record,
                Err(e) => {
                    proof {
                        lemma_restored_stays(all, i + 1);
                    }
                    return Err(e);
                },
            };
            if manager.groups.contains_key(&record.group_id) {
                proof {
                    assert(manager@.groups.contains_key(record.group_id@));
                    lemma_restored_stays(all, i + 1);
                }
                return Err(group_error("duplicate group id in snapshot".to_string()));
            }
            manager.put(record.group_id.clone(), record);
            i = i + 1;
        }
        assert(all.take(i as int) =~= all);
        Ok(manager)
    }

    fn put(&mut self, group_id: String, record: GroupRecord)
        ensures
            final(self)@ == (GroupsModel {
                groups: old(self)@.groups.insert(group_id@, record@),
                ..old(self)@
            }),
    {
        proof {
            assert(group_models(self.groups@.insert(group_id@, record)) =~= self@.groups.insert(
                group_id@,
                record@,
            ));
        }
        self.groups.insert(group_id, record);
    }

    pub fn snapshot(&self) -> (r: GroupManagerSnapshot)
        ensures
            r.local_owner_pubkey == self@.owner,
            group_snapshots(r.groups@) == snapshots_of(self@.groups),
    {
        GroupManagerSnapshot {
            local_owner_pubkey: self.local_owner_pubkey,
            groups: self.groups(),
        }
    }

    pub fn group(&self, group_id: &str) -> (r: Option<GroupSnapshot>)
        ensures
            match r {
                Some(group) => self@.groups.contains_key(group_id@) && group@ == snapshot_of(
                    self@.groups[group_id@],
                ),
                None => !self@.groups.contains_key(group_id@),
            },
    {
        match self.groups.get(&group_id.to_string()) {
            Some(record) => {
                assert(record@ == self@.groups[group_id@]);
                Some(record.snapshot())
            },
            None => None,
        }
    }

    pub fn groups(&self) -> (r: Vec<GroupSnapshot>)
        ensures
            group_snapshots(r@) == snapshots_of(self@.groups),
    {
        let n: usize = self.groups.len();
        let ghost order = self.groups.order();
        assert(self@.groups.dom() =~= self.groups@.dom());
        let mut r: Vec<GroupSnapshot> = Vec::new();
        let mut i: usize = 0;
        while i < n
            invariant
                i <= n,
                n == order.len(),
                order == self.groups.order(),
                order == ordered::<String>(self@.groups.dom()),
                r@.len() == i,
                forall|j: int|
                    0 <= j < i ==> (#[trigger] r@[j])@ == snapshot_of(self@.groups[order[j]]),
            decreases n - i,
        {
            let record = self.groups.value_at(i);
            assert(record@ == self@.groups[order[i as int]]);
            r.push(record.snapshot());
            i = i + 1;
        }
        assert(group_snapshots(r@) =~= snapshots_of(self@.groups));
        r
    }

    /// Takes in what a member tells. Bytes that tell of no group are left to
    /// others.
    pub fn handle_incoming(&mut self, sender_owner: OwnerPubkey, payload: &[u8]) -> (r: Result<
        Option<GroupIncomingEvent>,
        Error,
    >)
        ensures
            handles(old(self)@, final(self)@, sender_owner, payload@, r),
            all_well_formed(old(self)@.groups) ==> all_well_formed(final(self)@.groups)
                && changes_the_named(old(self)@, final(self)@, r),
    {
        proof {
            if all_well_formed(self@.groups) && payload_of_bytes(payload@) is Some {
                let p = payload_of_bytes(payload@)->Some_0;
                hearing_keeps_groups_well_formed(self@.groups, sender_owner, p);
                hearing_changes_the_named_group(self@.groups, sender_owner, p);
            }
        }
        match GroupPayload::from_bytes(payload) {
            None => Ok(None),
            Some(GroupPayload::Create { base_revision, group }) => self.hear_create(
                sender_owner,
                base_revision,
                &group,
            ),
            Some(GroupPayload::Rename { group_id, base_revision, new_revision, name }) =>
                self.hear_rename(sender_owner, group_id, base_revision, new_revision, name),
            Some(
                GroupPayload::Owners { change, group_id, base_revision, new_revision, owners },
            ) => self.hear_change(
                sender_owner,
                change,
                group_id,
                base_revision,
                new_revision,
                owners,
            ),
            Some(GroupPayload::Message { group_id, revision, body }) => self.hear_message(
                sender_owner,
                group_id,
                revision,
                body,
            ),
        }
    }

    fn hear_create(
        &mut self,
        sender_owner: OwnerPubkey,
        base_revision: u64,
        group: &GroupSnapshot,
    ) -> (r: Result<Option<GroupIncomingEvent>, Error>)
        ensures
            hears(
                old(self)@,
                final(self)@,
                sender_owner,
                GroupPayloadModel::Create { base_revision, group: group@ },
                r,
            ),
    {
        let record = match GroupRecord::from_create_payload(group, sender_owner) {
            Ok(record) => record,
            Err(e) => {
                return Err(e);
            },
        };
        let ghost g = record@;
        if let Some(existing) = self.groups.get(&record.group_id) {
            assert(existing@ == self@.groups[g.group_id]);
            if existing.same(&record) {
                return Ok(Some(GroupIncomingEvent::MetadataUpdated(existing.snapshot())));
            }
            return Err(
                group_error(concat3("group `", record.group_id.as_str(), "` already exists")),
            );
        }
        if base_revision != 0 {
            return Err(group_error("create group base revision must be 0".to_string()));
        }
        let snapshot = record.snapshot();
        self.put(record.group_id.clone(), record);
        Ok(Some(GroupIncomingEvent::MetadataUpdated(snapshot)))
    }

    fn hear_rename(
        &mut self,
        sender_owner: OwnerPubkey,
        group_id: String,
        base_revision: u64,
        new_revision: u64,
        name: String,
    ) -> (r: Result<Option<GroupIncomingEvent>, Error>)
        ensures
            hears(
                old(self)@,
                final(self)@,
                sender_owner,
                GroupPayloadModel::Rename {
                    group_id: group_id@,
                    base_revision,
                    new_revision,
                    name: name@,
                },
                r,
            ),
    {
        let mut record = match self.groups.get(&group_id) {
            Some(record) => record.clone(),
            None => {
                return Err(unknown_group(group_id.as_str()));
            },
        };
        assert(record@ == self@.groups[group_id@]);
        if record.reflects_rename(&name, new_revision) {
            return Ok(Some(GroupIncomingEvent::MetadataUpdated(record.snapshot())));
        }
        let updated_at = record.updated_at;
        match record.apply_rename(sender_owner, name, base_revision, new_revision, updated_at) {
            Ok(()) => {},
            Err(e) => {
                return Err(e);
            },
        }
        let snapshot = record.snapshot();
        self.put(group_id, record);
        Ok(Some(GroupIncomingEvent::MetadataUpdated(snapshot)))
    }

    fn hear_change(
        &mut self,
        sender_owner: OwnerPubkey,
        change: OwnersChange,
        group_id: String,
        base_revision: u64,
        new_revision: u64,
        owners: Vec<OwnerPubkey>,
    ) -> (r: Result<Option<GroupIncomingEvent>, Error>)
        ensures
            hears(
                old(self)@,
                final(self)@,
                sender_owner,
                GroupPayloadModel::Owners {
                    change,
                    group_id: group_id@,
                    base_revision,
                    new_revision,
                    owners: owners@,
                },
                r,
            ),
    {
        let set = match validate_unique_owners(&owners, label_of(change)) {
            Ok(set) => set,
            Err(e) => {
                return Err(e);
            },
        };
        let mut record = match self.groups.get(&group_id) {
            Some(record) => record.clone(),
            None => {
                return Err(unknown_group(group_id.as_str()));
            },
        };
        assert(record@ == self@.groups[group_id@]);
        if record.reflects_change(change, &set, new_revision) {
            return Ok(Some(GroupIncomingEvent::MetadataUpdated(record.snapshot())));
        }
        let updated_at = record.updated_at;
        match record.apply_change(
            sender_owner,
            change,
            &set,
            base_revision,
            new_revision,
            updated_at,
        ) {
            Ok(()) => {},
            Err(e) => {
                return Err(e);
            },
        }
        let snapshot = record.snapshot();
        self.put(group_id, record);
        Ok(Some(GroupIncomingEvent::MetadataUpdated(snapshot)))
    }

    fn hear_message(
        &self,
        sender_owner: OwnerPubkey,
        group_id: String,
        revision: u64,
        body: Vec<u8>,
    ) -> (r: Result<Option<GroupIncomingEvent>, Error>)
        ensures
            hears(
                self@,
                self@,
                sender_owner,
                GroupPayloadModel::Message { group_id: group_id@, revision, body: body@ },
                r,
            ),
    {
        let record = match self.groups.get(&group_id) {
            Some(record) => record,
            None => {
                return Err(unknown_group(group_id.as_str()));
            },
        };
        assert(record@ == self@.groups[group_id@]);
        match record.ensure_member(sender_owner) {
            Ok(()) => {},
            Err(e) => {
                return Err(e);
            },
        }
        if revision != record.revision {
            return Err(
                group_error(
                    revision_text(
                        "group message revision mismatch for `",
                        group_id.as_str(),
                        record.revision as u128,
                        revision,
                    ),
                ),
            );
        }
        Ok(
            Some(
                GroupIncomingEvent::Message(
                    GroupReceivedMessage { group_id, sender_owner, body, revision },
                ),
            ),
        )
    }
}

fn label_of(change: OwnersChange) -> (r: &'static str)
    ensures
        r@ == change_label(change),
{
    match change {
        OwnersChange::AddMembers | OwnersChange::RemoveMembers => "members",
        OwnersChange::AddAdmins | OwnersChange::RemoveAdmins => "admins",
    }
}

/// Whether a result is that of something a member tells of a group.
pub open spec fn hears(
    before: GroupsModel,
    after: GroupsModel,
    sender: OwnerPubkey,
    p: GroupPayloadModel,
    r: Result<Option<GroupIncomingEvent>, Error>,
) -> bool {
    match heard(before.groups, sender, p) {
        Err(text) => after == before && (r matches Err(e) && refuses(e, text)),
        Ok((groups, event)) => after == (GroupsModel { groups, ..before }) && (r matches Ok(
            Some(found),
        ) && found@ == event),
    }
}

// ---------------------------------------------------------------------------
// Telling the members
// ---------------------------------------------------------------------------

/// What is told to each of some owners.
pub open spec fn letters_to(owners: Seq<OwnerPubkey>, p: GroupPayloadModel) -> Seq<
    (OwnerPubkey, GroupPayloadModel),
> {
    Seq::new(owners.len(), |i: int| (owners[i], p))
}

/// Whether letters were sent one after the other, with states between them and
/// a result each.
pub open spec fn carried(
    before: ManagerModel,
    after: ManagerModel,
    now: UnixSeconds,
    letters: Seq<(OwnerPubkey, GroupPayloadModel)>,
    states: Seq<ManagerModel>,
    sends: Seq<PreparedSend>,
) -> bool {
    &&& states.len() == letters.len() + 1
    &&& sends.len() == letters.len()
    &&& states[0] == before
    &&& states.last() == after
    &&& forall|i: int|
        0 <= i < letters.len() ==> #[trigger] step_carried(now, letters, states, sends, i)
}

pub open spec fn step_carried(
    now: UnixSeconds,
    letters: Seq<(OwnerPubkey, GroupPayloadModel)>,
    states: Seq<ManagerModel>,
    sends: Seq<PreparedSend>,
    i: int,
) -> bool {
    &&& prepares(
        states[i],
        states[i + 1],
        now,
        letters[i].0,
        audience(states[i], letters[i].0),
        payload_bytes(letters[i].1),
        Ok(sends[i]),
    )
    &&& payload_of_bytes(payload_bytes(letters[i].1)) == Some(letters[i].1)
}

pub open spec fn all_deliveries(sends: Seq<PreparedSend>) -> Seq<Delivery>
    decreases sends.len(),
{
    if sends.len() == 0 {
        Seq::empty()
    } else {
        all_deliveries(sends.drop_last()) + sends.last().deliveries@
    }
}

pub open spec fn all_responses(sends: Seq<PreparedSend>) -> Seq<InviteResponseEnvelope>
    decreases sends.len(),
{
    if sends.len() == 0 {
        Seq::empty()
    } else {
        all_responses(sends.drop_last()) + sends.last().invite_responses@
    }
}

/// All that is missing, each once.
pub open spec fn all_gaps(sends: Seq<PreparedSend>) -> Set<GapModel>
    decreases sends.len(),
{
    if sends.len() == 0 {
        Set::empty()
    } else {
        all_gaps(sends.drop_last()).union(gap_models(sends.last().relay_gaps@).to_set())
    }
}

/// Whether a prepared message gathers what letters came to.
pub open spec fn gathers(
    before: ManagerModel,
    after: ManagerModel,
    now: UnixSeconds,
    letters: Seq<(OwnerPubkey, GroupPayloadModel)>,
    states: Seq<ManagerModel>,
    sends: Seq<PreparedSend>,
    group_id: Seq<char>,
    prepared: GroupPreparedSend,
) -> bool {
    &&& carried(before, after, now, letters, states, sends)
    &&& prepared.group_id@ == group_id
    &&& prepared.deliveries@ == all_deliveries(sends)
    &&& prepared.invite_responses@ == all_responses(sends)
    &&& gap_models(prepared.relay_gaps@) == ordered::<RelayGap>(all_gaps(sends))
}

/// Whether a letter failed after those before it were sent.
pub open spec fn breaks_off(
    before: ManagerModel,
    after: ManagerModel,
    now: UnixSeconds,
    letters: Seq<(OwnerPubkey, GroupPayloadModel)>,
    states: Seq<ManagerModel>,
    sends: Seq<PreparedSend>,
    e: Error,
) -> bool {
    let n = sends.len() as int;
    &&& n < letters.len()
    &&& carried(before, states.last(), now, letters.take(n), states, sends)
    &&& prepares(
        states.last(),
        after,
        now,
        letters[n].0,
        audience(states.last(), letters[n].0),
        payload_bytes(letters[n].1),
        Err(e),
    )
}

/// Whether a result is that of sending letters.
pub open spec fn sends_letters(
    before: ManagerModel,
    after: ManagerModel,
    now: UnixSeconds,
    letters: Seq<(OwnerPubkey, GroupPayloadModel)>,
    group_id: Seq<char>,
    r: Result<GroupPreparedSend, Error>,
) -> bool {
    match r {
        Ok(prepared) => exists|states: Seq<ManagerModel>, sends: Seq<PreparedSend>| #[trigger]
            gathers(before, after, now, letters, states, sends, group_id, prepared),
        Err(e) => exists|states: Seq<ManagerModel>, sends: Seq<PreparedSend>| #[trigger]
            breaks_off(before, after, now, letters, states, sends, e),
    }
}

/// What an operation on a group comes to: the letters to its members and the
/// groups as they are when all are sent, or a refusal.
pub type GroupPlan = Result<
    (Seq<(OwnerPubkey, GroupPayloadModel)>, Seq<char>, Map<Seq<char>, GroupModel>),
    Seq<char>,
>;

/// Whether a plan was carried out. Where a letter fails, the groups stay as
/// they are.
pub open spec fn performs(
    groups: GroupsModel,
    groups_after: GroupsModel,
    sessions: ManagerModel,
    sessions_after: ManagerModel,
    now: UnixSeconds,
    plan: GroupPlan,
    r: Result<GroupPreparedSend, Error>,
) -> bool {
    match plan {
        Err(text) => groups_after == groups && sessions_after == sessions && (r matches Err(e)
            && refuses(e, text)),
        Ok((letters, group_id, next)) => {
            &&& sends_letters(sessions, sessions_after, now, letters, group_id, r)
            &&& groups_after == (GroupsModel {
                groups: if r is Ok {
                    next
                } else {
                    groups.groups
                },
                ..groups
            })
        },
    }
}

/// A group as it is told to one who does not know it.
pub open spec fn create_payload(g: GroupModel) -> GroupPayloadModel {
    GroupPayloadModel::Create { base_revision: 0, group: snapshot_of(g) }
}

/// The members that are told something by one of them.
pub open spec fn others(g: GroupModel, owner: OwnerPubkey) -> Seq<OwnerPubkey> {
    ordered::<OwnerPubkey>(g.members.remove(owner))
}

/// The revision after a revision; the last one has none.
pub open spec fn next_revision(revision: u64) -> u64 {
    if revision == u64::MAX {
        revision
    } else {
        (revision + 1) as u64
    }
}

/// Making a group.
pub open spec fn create_plan(
    m: GroupsModel,
    group_id: Seq<char>,
    name: Seq<char>,
    members: Seq<OwnerPubkey>,
    now: UnixSeconds,
) -> GroupPlan {
    match repeat_refusal(members, "initial members"@) {
        Some(text) => Err(text),
        None => if members.contains(m.owner) {
            Err("local owner is added automatically"@)
        } else {
            let g = new_group(m, group_id, name, members, now);
            Ok((letters_to(others(g, m.owner), create_payload(g)), group_id, m.groups.insert(group_id, g)))
        },
    }
}

/// A new group: its maker is a member and the only admin.
pub open spec fn new_group(
    m: GroupsModel,
    group_id: Seq<char>,
    name: Seq<char>,
    members: Seq<OwnerPubkey>,
    now: UnixSeconds,
) -> GroupModel {
    GroupModel {
        group_id,
        name,
        created_by: m.owner,
        members: members.to_set().insert(m.owner),
        admins: Set::empty().insert(m.owner),
        revision: 1,
        created_at: now,
        updated_at: now,
    }
}

/// The first of some owners that is not in a set.
pub open spec fn first_outside(owners: Seq<OwnerPubkey>, set: Set<OwnerPubkey>) -> Option<OwnerPubkey>
    decreases owners.len(),
{
    if owners.len() == 0 {
        None
    } else if !set.contains(owners[0]) {
        Some(owners[0])
    } else {
        first_outside(owners.drop_first(), set)
    }
}

/// Telling members of a group again that it was made.
pub open spec fn retry_create_plan(m: GroupsModel, group_id: Seq<char>, recipients: Seq<OwnerPubkey>) -> GroupPlan {
    if !m.groups.contains_key(group_id) {
        Err(unknown_text(group_id))
    } else {
        let g = m.groups[group_id];
        if !g.admins.contains(m.owner) {
            Err(not_admin_text(g, m.owner))
        } else {
            match repeat_refusal(recipients, "recipients"@) {
                Some(text) => Err(text),
                None => {
                    let told = ordered::<OwnerPubkey>(recipients.to_set().remove(m.owner));
                    match first_outside(told, g.members) {
                        Some(owner) => Err(not_member_text(g, owner)),
                        None => Ok((letters_to(told, create_payload(g)), g.group_id, m.groups)),
                    }
                },
            }
        }
    }
}

/// Sending a message to a group.
pub open spec fn message_plan(m: GroupsModel, group_id: Seq<char>, body: Seq<u8>) -> GroupPlan {
    if !m.groups.contains_key(group_id) {
        Err(unknown_text(group_id))
    } else {
        let g = m.groups[group_id];
        if !g.members.contains(m.owner) {
            Err(not_member_text(g, m.owner))
        } else {
            let p = GroupPayloadModel::Message {
                group_id: g.group_id,
                revision: g.revision,
                body,
            };
            Ok((letters_to(others(g, m.owner), p), g.group_id, m.groups))
        }
    }
}

/// Giving a group a new name.
pub open spec fn rename_plan(
    m: GroupsModel,
    group_id: Seq<char>,
    name: Seq<char>,
    now: UnixSeconds,
) -> GroupPlan {
    if !m.groups.contains_key(group_id) {
        Err(unknown_text(group_id))
    } else {
        let g = m.groups[group_id];
        let revision = next_revision(g.revision);
        match authority_refusal(g, m.owner, g.revision, revision) {
            Some(text) => Err(text),
            None => {
                let next = renamed(g, name, revision, now);
                let p = GroupPayloadModel::Rename {
                    group_id: g.group_id,
                    base_revision: g.revision,
                    new_revision: revision,
                    name,
                };
                Ok(
                    (
                        letters_to(others(next, m.owner), p),
                        g.group_id,
                        m.groups.insert(g.group_id, next),
                    ),
                )
            },
        }
    }
}

/// Why an owner cannot tell again of the last change of a group.
pub open spec fn retry_refusal(m: GroupsModel, group_id: Seq<char>, action: Seq<char>) -> Option<
    Seq<char>,
> {
    if !m.groups.contains_key(group_id) {
        Some(unknown_text(group_id))
    } else {
        let g = m.groups[group_id];
        if !g.admins.contains(m.owner) {
            Some(not_admin_text(g, m.owner))
        } else if g.revision < 2 {
            Some(action + " retry requires an already-applied revision"@)
        } else {
            None
        }
    }
}

/// Telling members of a group its last name again.
pub open spec fn retry_rename_plan(m: GroupsModel, group_id: Seq<char>) -> GroupPlan {
    match retry_refusal(m, group_id, "rename"@) {
        Some(text) => Err(text),
        None => {
            let g = m.groups[group_id];
            let p = GroupPayloadModel::Rename {
                group_id: g.group_id,
                base_revision: (g.revision - 1) as u64,
                new_revision: g.revision,
                name: g.name,
            };
            Ok((letters_to(others(g, m.owner), p), g.group_id, m.groups))
        },
    }
}

/// A change as it is told.
pub open spec fn change_payload(
    g: GroupModel,
    change: OwnersChange,
    owners: Set<OwnerPubkey>,
    base_revision: u64,
    new_revision: u64,
) -> GroupPayloadModel {
    GroupPayloadModel::Owners {
        change,
        group_id: g.group_id,
        base_revision,
        new_revision,
        owners: ordered::<OwnerPubkey>(owners),
    }
}

/// Who is told of new members: the old ones of the change, the new ones of the
/// group as a whole.
pub open spec fn addition_letters(
    known: GroupModel,
    group: GroupModel,
    owner: OwnerPubkey,
    additions: Set<OwnerPubkey>,
    p: GroupPayloadModel,
) -> Seq<(OwnerPubkey, GroupPayloadModel)> {
    letters_to(
        ordered::<OwnerPubkey>(known.members.remove(owner).difference(additions)),
        p,
    ) + letters_to(ordered::<OwnerPubkey>(additions.remove(owner)), create_payload(group))
}

/// Making a change to the owners of a group.
pub open spec fn change_plan(
    m: GroupsModel,
    group_id: Seq<char>,
    change: OwnersChange,
    owners: Seq<OwnerPubkey>,
    now: UnixSeconds,
) -> GroupPlan {
    match repeat_refusal(owners, change_label(change)) {
        Some(text) => Err(text),
        None => if !m.groups.contains_key(group_id) {
            Err(unknown_text(group_id))
        } else {
            let g = m.groups[group_id];
            let set = owners.to_set();
            let revision = next_revision(g.revision);
            match change_refusal(g, m.owner, change, set, g.revision, revision) {
                Some(text) => Err(text),
                None => {
                    let next = changed(g, change, set, revision, now);
                    let p = change_payload(g, change, set, g.revision, revision);
                    let letters = match change {
                        OwnersChange::AddMembers => addition_letters(g, next, m.owner, set, p),
                        OwnersChange::RemoveMembers => letters_to(others(g, m.owner), p),
                        _ => letters_to(others(next, m.owner), p),
                    };
                    Ok((letters, g.group_id, m.groups.insert(g.group_id, next)))
                },
            }
        },
    }
}

/// Telling members of a group again who was added.
pub open spec fn retry_add_plan(m: GroupsModel, group_id: Seq<char>, owners: Seq<OwnerPubkey>) -> GroupPlan {
    match repeat_refusal(owners, "members"@) {
        Some(text) => Err(text),
        None => match retry_refusal(m, group_id, "add members"@) {
            Some(text) => Err(text),
            None => {
                let g = m.groups[group_id];
                let set = owners.to_set();
                match first_outside(ordered::<OwnerPubkey>(set), g.members) {
                    Some(owner) => Err(not_member_text(g, owner)),
                    None => {
                        let p = change_payload(
                            g,
                            OwnersChange::AddMembers,
                            set,
                            (g.revision - 1) as u64,
                            g.revision,
                        );
                        Ok((addition_letters(g, g, m.owner, set, p), g.group_id, m.groups))
                    },
                }
            },
        },
    }
}

pub open spec fn still_member_text(owner: OwnerPubkey) -> Seq<char> {
    "owner "@ + hex_text(owner.0@) + " should already be removed before retrying removal"@
}

/// The first of some owners that is in a set.
pub open spec fn first_inside(owners: Seq<OwnerPubkey>, set: Set<OwnerPubkey>) -> Option<OwnerPubkey>
    decreases owners.len(),
{
    if owners.len() == 0 {
        None
    } else if set.contains(owners[0]) {
        Some(owners[0])
    } else {
        first_inside(owners.drop_first(), set)
    }
}

/// Telling members of a group, and those who were, again who was removed.
pub open spec fn retry_remove_plan(m: GroupsModel, group_id: Seq<char>, owners: Seq<OwnerPubkey>) -> GroupPlan {
    match repeat_refusal(owners, "members"@) {
        Some(text) => Err(text),
        None => match retry_refusal(m, group_id, "remove members"@) {
            Some(text) => Err(text),
            None => {
                let g = m.groups[group_id];
                let set = owners.to_set();
                match first_inside(ordered::<OwnerPubkey>(set), g.members) {
                    Some(owner) => Err(still_member_text(owner)),
                    None => {
                        let p = change_payload(
                            g,
                            OwnersChange::RemoveMembers,
                            set,
                            (g.revision - 1) as u64,
                            g.revision,
                        );
                        let told = ordered::<OwnerPubkey>(g.members.union(set).remove(m.owner));
                        Ok((letters_to(told, p), g.group_id, m.groups))
                    },
                }
            },
        },
    }
}

/// A letter as it is handed to the sessions.
struct Letter {
    recipient: OwnerPubkey,
    payload: Vec<u8>,
}

/// Whether letters are written down.
spec fn written(letters: Seq<Letter>, model: Seq<(OwnerPubkey, GroupPayloadModel)>) -> bool {
    &&& letters.len() == model.len()
    &&& forall|i: int|
        0 <= i < letters.len() ==> (#[trigger] letters[i]).recipient == model[i].0
            && letters[i].payload@ == payload_bytes(model[i].1) && payload_of_bytes(
            payload_bytes(model[i].1),
        ) == Some(model[i].1)
}

fn push_letters(
    letters: &mut Vec<Letter>,
    recipients: &Vec<OwnerPubkey>,
    payload: &GroupPayload,
    Ghost(model): Ghost<Seq<(OwnerPubkey, GroupPayloadModel)>>,
)
    requires
        written(old(letters)@, model),
    ensures
        written(final(letters)@, model + letters_to(recipients@, payload@)),
{
    let bytes = payload.to_bytes();
    let ghost all = model + letters_to(recipients@, payload@);
    let mut i: usize = 0;
    while i < recipients.len()
        invariant
            i <= recipients@.len(),
            all == model + letters_to(recipients@, payload@),
            bytes@ == payload_bytes(payload@),
            payload_of_bytes(bytes@) == Some(payload@),
            written(letters@, all.take(model.len() + i)),
        decreases recipients@.len() - i,
    {
        letters.push(
            Letter {
                recipient: recipients[i],
                payload: vstd::slice::slice_to_vec(bytes.as_slice()),
            },
        );
        i = i + 1;
    }
    assert(all.take(model.len() + i) =~= all);
}

fn append_gaps(set: &mut VecSet<RelayGap>, gaps: &Vec<RelayGap>)
    ensures
        final(set)@ == old(set)@.union(gap_models(gaps@).to_set()),
{
    let ghost models = gap_models(gaps@);
    let mut i: usize = 0;
    while i < gaps.len()
        invariant
            i <= gaps@.len(),
            models == gap_models(gaps@),
            forall|g: GapModel| #[trigger]
                set@.contains(g) <==> old(set)@.contains(g) || exists|j: int|
                    0 <= j < i && #[trigger] models[j] == g,
        decreases gaps@.len() - i,
    {
        let ghost before = set@;
        set.insert(crate::collections::OrderedKey::duplicate(&gaps[i]));
        proof {
            assert(set@ == before.insert(models[i as int]));
            assert forall|g: GapModel| #[trigger] set@.contains(g) <==> old(set)@.contains(g)
                || exists|j: int| 0 <= j < i + 1 && #[trigger] models[j] == g by {
                if before.contains(g) && !old(set)@.contains(g) {
                    let j = choose|j: int| 0 <= j < i && #[trigger] models[j] == g;
                    assert(models[j] == g);
                }
                if exists|j: int| 0 <= j < i + 1 && #[trigger] models[j] == g {
                    let j = choose|j: int| 0 <= j < i + 1 && #[trigger] models[j] == g;
                    if j < i {
                        assert(before.contains(g));
                    }
                }
                if g == models[i as int] {
                    assert(models[i as int] == g);
                }
            }
        }
        i = i + 1;
    }
    proof {
        assert forall|g: GapModel| #[trigger] set@.contains(g) <==> old(set)@.union(
            models.to_set(),
        ).contains(g) by {
            if models.contains(g) {
                let j = choose|j: int| 0 <= j < models.len() && models[j] == g;
                assert(models[j] == g);
            }
            if exists|j: int| 0 <= j < i && #[trigger] models[j] == g {
                let j = choose|j: int| 0 <= j < i && #[trigger] models[j] == g;
                assert(models.contains(models[j]));
            }
        }
        assert(set@ =~= old(set)@.union(models.to_set()));
    }
}

fn listed_gaps(set: &VecSet<RelayGap>) -> (r: Vec<RelayGap>)
    ensures
        gap_models(r@) == ordered::<RelayGap>(set@),
{
    let n: usize = set.len();
    let mut r: Vec<RelayGap> = Vec::new();
    let mut i: usize = 0;
    while i < n
        invariant
            i <= n,
            n == ordered::<RelayGap>(set@).len(),
            r@.len() == i,
            forall|j: int| 0 <= j < i ==> (#[trigger] r@[j])@ == ordered::<RelayGap>(set@)[j],
        decreases n - i,
    {
        r.push(crate::collections::OrderedKey::duplicate(set.at(i)));
        i = i + 1;
    }
    assert(gap_models(r@) =~= ordered::<RelayGap>(set@));
    r
}

fn append_all<T>(into: &mut Vec<T>, more: &mut Vec<T>)
    ensures
        final(into)@ == old(into)@ + old(more)@,
{
    into.append(more);
}

/// Sends letters one after the other.
fn fanout(
    session_manager: &mut SessionManager,
    ctx: &mut ProtocolContext<'_>,
    group_id: String,
    letters: &Vec<Letter>,
    Ghost(model): Ghost<Seq<(OwnerPubkey, GroupPayloadModel)>>,
) -> (r: Result<GroupPreparedSend, Error>)
    requires
        written(letters@, model),
    ensures
        final(ctx).now_secs == old(ctx).now_secs,
        final(ctx).now_millis == old(ctx).now_millis,
        sends_letters(
            old(session_manager)@,
            final(session_manager)@,
            old(ctx).now_secs,
            model,
            group_id@,
            r,
        ),
{
    let ghost before = session_manager@;
    let ghost now = ctx.now_secs;
    let mut deliveries: Vec<Delivery> = Vec::new();
    let mut invite_responses: Vec<InviteResponseEnvelope> = Vec::new();
    let mut gaps: VecSet<RelayGap> = VecSet::new();
    let ghost mut states: Seq<ManagerModel> = seq![before];
    let ghost mut sends: Seq<PreparedSend> = Seq::empty();
    let mut i: usize = 0;
    assert(model.take(0) =~= Seq::empty());
    while i < letters.len()
        invariant
            i <= letters@.len(),
            written(letters@, model),
            before == old(session_manager)@,
            now == old(ctx).now_secs,
            ctx.now_secs == now,
            ctx.now_millis == old(ctx).now_millis,
            sends.len() == i,
            carried(before, session_manager@, now, model.take(i as int), states, sends),
            deliveries@ == all_deliveries(sends),
            invite_responses@ == all_responses(sends),
            gaps@ == all_gaps(sends),
        decreases letters@.len() - i,
    {
        let ghost mid = session_manager@;
        let ghost done = model.take(i as int);
        let ghost more = model.take(i + 1);
        assert(letters@[i as int].recipient == model[i as int].0);
        let sent = session_manager.prepare_send(
            ctx,
            letters[i].recipient,
            vstd::slice::slice_to_vec(letters[i].payload.as_slice()),
        );
        match sent {
            Err(e) => {
                let r: Result<GroupPreparedSend, Error> = Err(e);
                assert(breaks_off(
                    before,
                    session_manager@,
                    now,
                    model,
                    states,
                    sends,
                    r->Err_0,
                ));
                return r;
            },
            Ok(mut next) => {
                let ghost whole = next;
                let ghost next_states = states.push(session_manager@);
                let ghost next_sends = sends.push(whole);
                proof {
                    assert(next_sends.drop_last() =~= sends);
                    assert forall|j: int| 0 <= j < more.len() implies #[trigger] step_carried(
                        now,
                        more,
                        next_states,
                        next_sends,
                        j,
                    ) by {
                        if j < i {
                            assert(step_carried(now, done, states, sends, j));
                            assert(done[j] == more[j]);
                        } else {
                            assert(next_states[j] == mid);
                            assert(more[j] == model[i as int]);
                        }
                    }
                }
                append_gaps(&mut gaps, &next.relay_gaps);
                append_all(&mut deliveries, &mut next.deliveries);
                append_all(&mut invite_responses, &mut next.invite_responses);
                proof {
                    states = next_states;
                    sends = next_sends;
                }
            },
        }
        i = i + 1;
    }
    assert(model.take(i as int) =~= model);
    let prepared = GroupPreparedSend {
        group_id,
        deliveries,
        invite_responses,
        relay_gaps: listed_gaps(&gaps),
    };
    let r: Result<GroupPreparedSend, Error> = Ok(prepared);
    assert(gathers(
        before,
        session_manager@,
        now,
        model,
        states,
        sends,
        prepared.group_id@,
        r->Ok_0,
    ));
    r
}

/// Whether all of some owners are in a set, or which is the first that is not.
fn find_owner(owners: &Vec<OwnerPubkey>, set: &VecSet<OwnerPubkey>, inside: bool) -> (r: Option<
    OwnerPubkey,
>)
    ensures
        r == (if inside {
            first_inside(owners@, set@)
        } else {
            first_outside(owners@, set@)
        }),
{
    let mut i: usize = 0;
    assert(owners@.skip(0) =~= owners@);
    while i < owners.len()
        invariant
            i <= owners@.len(),
            first_inside(owners@, set@) == first_inside(owners@.skip(i as int), set@) || !inside,
            first_outside(owners@, set@) == first_outside(owners@.skip(i as int), set@) || inside,
        decreases owners@.len() - i,
    {
        assert(owners@.skip(i as int)[0] == owners@[i as int]);
        assert(owners@.skip(i as int).drop_first() =~= owners@.skip(i + 1));
        if set.contains(&owners[i]) == inside {
            return Some(owners[i]);
        }
        i = i + 1;
    }
    None
}

fn following(revision: u64) -> (r: u64)
    ensures
        r == next_revision(revision),
{
    if revision == u64::MAX {
        revision
    } else {
        revision + 1
    }
}

impl GroupRecord {
    fn create_payload(&self) -> (r: GroupPayload)
        ensures
            r@ == create_payload(self@),
    {
        GroupPayload::Create { base_revision: 0, group: self.snapshot() }
    }

    fn change_payload(
        &self,
        change: OwnersChange,
        owners: &VecSet<OwnerPubkey>,
        base_revision: u64,
        new_revision: u64,
    ) -> (r: GroupPayload)
        ensures
            r@ == change_payload(self@, change, owners@, base_revision, new_revision),
    {
        GroupPayload::Owners {
            change,
            group_id: self.group_id.clone(),
            base_revision,
            new_revision,
            owners: listed_owners(owners),
        }
    }
}

fn without(set: &VecSet<OwnerPubkey>, owner: OwnerPubkey) -> (r: VecSet<OwnerPubkey>)
    ensures
        r@ == set@.remove(owner),
{
    let mut r = set.clone();
    r.remove(&owner);
    r
}

fn letters_for_additions(
    known: &GroupRecord,
    group: &GroupRecord,
    owner: OwnerPubkey,
    additions: &VecSet<OwnerPubkey>,
    payload: &GroupPayload,
) -> (r: Vec<Letter>)
    ensures
        written(r@, addition_letters(known@, group@, owner, additions@, payload@)),
{
    let mut letters: Vec<Letter> = Vec::new();
    let told = listed_owners(&with_owners(&without(&known.members, owner), additions, false));
    let fresh = listed_owners(&without(additions, owner));
    let ghost first = letters_to(told@, payload@);
    push_letters(&mut letters, &told, payload, Ghost(Seq::empty()));
    assert(Seq::<(OwnerPubkey, GroupPayloadModel)>::empty() + first =~= first);
    push_letters(&mut letters, &fresh, &group.create_payload(), Ghost(first));
    letters
}

fn letters_for(recipients: &Vec<OwnerPubkey>, payload: &GroupPayload) -> (r: Vec<Letter>)
    ensures
        written(r@, letters_to(recipients@, payload@)),
{
    let mut letters: Vec<Letter> = Vec::new();
    push_letters(&mut letters, recipients, payload, Ghost(Seq::empty()));
    assert(Seq::<(OwnerPubkey, GroupPayloadModel)>::empty() + letters_to(recipients@, payload@)
        =~= letters_to(recipients@, payload@));
    letters
}

impl GroupManager {
    fn group_record(&self, group_id: &str) -> (r: Result<GroupRecord, Error>)
        ensures
            match r {
                Ok(record) => self@.groups.contains_key(group_id@) && record@
                    == self@.groups[group_id@],
                Err(e) => !self@.groups.contains_key(group_id@) && refuses(
                    e,
                    unknown_text(group_id@),
                ),
            },
    {
        match self.groups.get(&group_id.to_string()) {
            Some(record) => {
                assert(record@ == self@.groups[group_id@]);
                Ok(record.clone())
            },
            None => Err(unknown_group(group_id)),
        }
    }

    /// Makes a group with an identifier.
    pub fn create_group_with_id(
        &mut self,
        session_manager: &mut SessionManager,
        ctx: &mut ProtocolContext<'_>,
        group_id: String,
        name: String,
        initial_members: Vec<OwnerPubkey>,
    ) -> (r: Result<GroupCreateResult, Error>)
        ensures
            final(ctx).now_secs == old(ctx).now_secs,
            final(ctx).now_millis == old(ctx).now_millis,
            creates(
                old(self)@,
                final(self)@,
                old(session_manager)@,
                final(session_manager)@,
                old(ctx).now_secs,
                group_id@,
                name@,
                initial_members@,
                r,
            ),
            all_well_formed(old(self)@.groups) ==> all_well_formed(final(self)@.groups),
    {
        proof {
            if all_well_formed(self@.groups) {
                making_keeps_groups_well_formed(
                    self@,
                    group_id@,
                    name@,
                    initial_members@,
                    ctx.now_secs,
                );
            }
        }
        let ghost before = self@;
        let member_set = match validate_unique_owners(&initial_members, "initial members") {
            Ok(set) => set,
            Err(e) => {
                return Err(e);
            },
        };
        assert(member_set@.contains(before.owner) == initial_members@.contains(before.owner));
        if member_set.contains(&self.local_owner_pubkey) {
            return Err(group_error("local owner is added automatically".to_string()));
        }
        let mut members = member_set;
        members.insert(self.local_owner_pubkey);
        let mut admins: VecSet<OwnerPubkey> = VecSet::new();
        admins.insert(self.local_owner_pubkey);
        let record = GroupRecord {
            group_id: group_id.clone(),
            name,
            created_by: self.local_owner_pubkey,
            members,
            admins,
            revision: 1,
            created_at: ctx.now_secs,
            updated_at: ctx.now_secs,
        };
        let ghost g = record@;
        assert(g =~= new_group(before, group_id@, name@, initial_members@, old(ctx).now_secs));
        let recipients = record.remote_members(self.local_owner_pubkey);
        let payload = record.create_payload();
        let letters = letters_for(&recipients, &payload);
        let ghost model = letters_to(recipients@, payload@);
        match fanout(session_manager, ctx, group_id.clone(), &letters, Ghost(model)) {
            Err(e) => Err(e),
            Ok(prepared) => {
                let snapshot = record.snapshot();
                self.put(group_id, record);
                Ok(GroupCreateResult { group: snapshot, prepared })
            },
        }
    }

    /// Makes a group. Its identifier is left to chance.
    pub fn create_group(
        &mut self,
        session_manager: &mut SessionManager,
        ctx: &mut ProtocolContext<'_>,
        name: String,
        initial_members: Vec<OwnerPubkey>,
    ) -> (r: Result<GroupCreateResult, Error>)
        ensures
            final(ctx).now_secs == old(ctx).now_secs,
            final(ctx).now_millis == old(ctx).now_millis,
            exists|bytes: [u8; 16]|
                creates(
                    old(self)@,
                    final(self)@,
                    old(session_manager)@,
                    final(session_manager)@,
                    old(ctx).now_secs,
                    #[trigger] hex_text(bytes@),
                    name@,
                    initial_members@,
                    r,
                ),
            all_well_formed(old(self)@.groups) ==> all_well_formed(final(self)@.groups),
    {
        let bytes: [u8; 16] = random_bytes_16(ctx.rng);
        let group_id = hex_encode(bytes.as_slice());
        assert(group_id@ == hex_text(bytes@));
        self.create_group_with_id(session_manager, ctx, group_id, name, initial_members)
    }

    /// Tells members of a group again that it was made.
    pub fn retry_create_group(
        &mut self,
        session_manager: &mut SessionManager,
        ctx: &mut ProtocolContext<'_>,
        group_id: &str,
        recipients: Vec<OwnerPubkey>,
    ) -> (r: Result<GroupPreparedSend, Error>)
        ensures
            final(ctx).now_secs == old(ctx).now_secs,
            final(ctx).now_millis == old(ctx).now_millis,
            performs(
                old(self)@,
                final(self)@,
                old(session_manager)@,
                final(session_manager)@,
                old(ctx).now_secs,
                retry_create_plan(old(self)@, group_id@, recipients@),
                r,
            ),
            all_well_formed(old(self)@.groups) ==> all_well_formed(final(self)@.groups),
    {
        let record = match self.group_record(group_id) {
            Ok(record) => record,
            Err(e) => {
                return Err(e);
            },
        };
        match record.ensure_admin(self.local_owner_pubkey) {
            Ok(()) => {},
            Err(e) => {
                return Err(e);
            },
        }
        let set = match validate_unique_owners(&recipients, "recipients") {
            Ok(set) => set,
            Err(e) => {
                return Err(e);
            },
        };
        let told = listed_owners(&without(&set, self.local_owner_pubkey));
        if let Some(owner) = find_owner(&told, &record.members, false) {
            let refused = record.ensure_member(owner);
            proof {
                lemma_first_outside(told@, record@.members);
            }
            return match refused {
                Err(e) => Err(e),
                Ok(()) => {
                    assert(false);
                    Err(group_error("".to_string()))
                },
            };
        }
        let payload = record.create_payload();
        let letters = letters_for(&told, &payload);
        fanout(
            session_manager,
            ctx,
            record.group_id,
            &letters,
            Ghost(letters_to(told@, payload@)),
        )
    }

    /// Sends a message to the other members of a group.
    pub fn send_message(
        &mut self,
        session_manager: &mut SessionManager,
        ctx: &mut ProtocolContext<'_>,
        group_id: &str,
        body: Vec<u8>,
    ) -> (r: Result<GroupPreparedSend, Error>)
        ensures
            final(ctx).now_secs == old(ctx).now_secs,
            final(ctx).now_millis == old(ctx).now_millis,
            performs(
                old(self)@,
                final(self)@,
                old(session_manager)@,
                final(session_manager)@,
                old(ctx).now_secs,
                message_plan(old(self)@, group_id@, body@),
                r,
            ),
            all_well_formed(old(self)@.groups) ==> all_well_formed(final(self)@.groups),
    {
        let record = match self.group_record(group_id) {
            Ok(record) => record,
            Err(e) => {
                return Err(e);
            },
        };
        match record.ensure_member(self.local_owner_pubkey) {
            Ok(()) => {},
            Err(e) => {
                return Err(e);
            },
        }
        let payload = GroupPayload::Message {
            group_id: record.group_id.clone(),
            revision: record.revision,
            body,
        };
        let told = record.remote_members(self.local_owner_pubkey);
        let letters = letters_for(&told, &payload);
        fanout(
            session_manager,
            ctx,
            record.group_id,
            &letters,
            Ghost(letters_to(told@, payload@)),
        )
    }

    /// Gives a group a new name and tells its members.
    pub fn update_name(
        &mut self,
        session_manager: &mut SessionManager,
        ctx: &mut ProtocolContext<'_>,
        group_id: &str,
        name: String,
    ) -> (r: Result<GroupPreparedSend, Error>)
        ensures
            final(ctx).now_secs == old(ctx).now_secs,
            final(ctx).now_millis == old(ctx).now_millis,
            performs(
                old(self)@,
                final(self)@,
                old(session_manager)@,
                final(session_manager)@,
                old(ctx).now_secs,
                rename_plan(old(self)@, group_id@, name@, old(ctx).now_secs),
                r,
            ),
            all_well_formed(old(self)@.groups) ==> all_well_formed(final(self)@.groups),
    {
        proof {
            if all_well_formed(self@.groups) {
                making_keeps_groups_well_formed(
                    self@,
                    group_id@,
                    name@,
                    Seq::empty(),
                    ctx.now_secs,
                );
            }
        }
        let current = match self.group_record(group_id) {
            Ok(record) => record,
            Err(e) => {
                return Err(e);
            },
        };
        let revision: u64 = following(current.revision);
        let mut next = current.clone();
        match next.apply_rename(
            self.local_owner_pubkey,
            name.clone(),
            current.revision,
            revision,
            ctx.now_secs,
        ) {
            Ok(()) => {},
            Err(e) => {
                return Err(e);
            },
        }
        let payload = GroupPayload::Rename {
            group_id: current.group_id.clone(),
            base_revision: current.revision,
            new_revision: revision,
            name,
        };
        let told = next.remote_members(self.local_owner_pubkey);
        let letters = letters_for(&told, &payload);
        match fanout(
            session_manager,
            ctx,
            current.group_id.clone(),
            &letters,
            Ghost(letters_to(told@, payload@)),
        ) {
            Err(e) => Err(e),
            Ok(prepared) => {
                self.put(current.group_id, next);
                Ok(prepared)
            },
        }
    }

    /// Whether the owner can tell again of the last change.
    fn ensure_retry(&self, group_id: &str, action: &str) -> (r: Result<GroupRecord, Error>)
        ensures
            match r {
                Ok(record) => retry_refusal(self@, group_id@, action@) is None && record@
                    == self@.groups[group_id@],
                Err(e) => retry_refusal(self@, group_id@, action@) is Some && refuses(
                    e,
                    retry_refusal(self@, group_id@, action@)->Some_0,
                ),
            },
    {
        let record = match self.group_record(group_id) {
            Ok(record) => record,
            Err(e) => {
                return Err(e);
            },
        };
        match record.ensure_admin(self.local_owner_pubkey) {
            Ok(()) => {},
            Err(e) => {
                return Err(e);
            },
        }
        if record.revision < 2 {
            return Err(
                group_error(concat(action, " retry requires an already-applied revision")),
            );
        }
        Ok(record)
    }

    /// Tells members of a group its last name again.
    pub fn retry_update_name(
        &mut self,
        session_manager: &mut SessionManager,
        ctx: &mut ProtocolContext<'_>,
        group_id: &str,
    ) -> (r: Result<GroupPreparedSend, Error>)
        ensures
            final(ctx).now_secs == old(ctx).now_secs,
            final(ctx).now_millis == old(ctx).now_millis,
            performs(
                old(self)@,
                final(self)@,
                old(session_manager)@,
                final(session_manager)@,
                old(ctx).now_secs,
                retry_rename_plan(old(self)@, group_id@),
                r,
            ),
            all_well_formed(old(self)@.groups) ==> all_well_formed(final(self)@.groups),
    {
        let current = match self.ensure_retry(group_id, "rename") {
            Ok(record) => record,
            Err(e) => {
                return Err(e);
            },
        };
        let payload = GroupPayload::Rename {
            group_id: current.group_id.clone(),
            base_revision: current.revision - 1,
            new_revision: current.revision,
            name: current.name.clone(),
        };
        let told = current.remote_members(self.local_owner_pubkey);
        let letters = letters_for(&told, &payload);
        fanout(
            session_manager,
            ctx,
            current.group_id,
            &letters,
            Ghost(letters_to(told@, payload@)),
        )
    }

    /// Makes a change to the owners of a group and tells those concerned.
    fn change_owners(
        &mut self,
        session_manager: &mut SessionManager,
        ctx: &mut ProtocolContext<'_>,
        group_id: &str,
        change: OwnersChange,
        owners: Vec<OwnerPubkey>,
    ) -> (r: Result<GroupPreparedSend, Error>)
        ensures
            final(ctx).now_secs == old(ctx).now_secs,
            final(ctx).now_millis == old(ctx).now_millis,
            performs(
                old(self)@,
                final(self)@,
                old(session_manager)@,
                final(session_manager)@,
                old(ctx).now_secs,
                change_plan(old(self)@, group_id@, change, owners@, old(ctx).now_secs),
                r,
            ),
            all_well_formed(old(self)@.groups) ==> all_well_formed(final(self)@.groups),
    {
        proof {
            if all_well_formed(self@.groups) {
                changing_keeps_groups_well_formed(
                    self@,
                    group_id@,
                    change,
                    owners@,
                    ctx.now_secs,
                );
            }
        }
        let set = match validate_unique_owners(&owners, label_of(change)) {
            Ok(set) => set,
            Err(e) => {
                return Err(e);
            },
        };
        let current = match self.group_record(group_id) {
            Ok(record) => record,
            Err(e) => {
                return Err(e);
            },
        };
        let revision: u64 = following(current.revision);
        let mut next = current.clone();
        match next.apply_change(
            self.local_owner_pubkey,
            change,
            &set,
            current.revision,
            revision,
            ctx.now_secs,
        ) {
            Ok(()) => {},
            Err(e) => {
                return Err(e);
            },
        }
        let payload = current.change_payload(change, &set, current.revision, revision);
        let letters = match change {
            OwnersChange::AddMembers => letters_for_additions(
                &current,
                &next,
                self.local_owner_pubkey,
                &set,
                &payload,
            ),
            OwnersChange::RemoveMembers => letters_for(
                &current.remote_members(self.local_owner_pubkey),
                &payload,
            ),
            _ => letters_for(&next.remote_members(self.local_owner_pubkey), &payload),
        };
        let ghost model = match change {
            OwnersChange::AddMembers => addition_letters(
                current@,
                next@,
                self@.owner,
                set@,
                payload@,
            ),
            OwnersChange::RemoveMembers => letters_to(others(current@, self@.owner), payload@),
            _ => letters_to(others(next@, self@.owner), payload@),
        };
        match fanout(session_manager, ctx, current.group_id.clone(), &letters, Ghost(model)) {
            Err(e) => Err(e),
            Ok(prepared) => {
                self.put(current.group_id, next);
                Ok(prepared)
            },
        }
    }

    /// Adds members to a group.
    pub fn add_members(
        &mut self,
        session_manager: &mut SessionManager,
        ctx: &mut ProtocolContext<'_>,
        group_id: &str,
        members: Vec<OwnerPubkey>,
    ) -> (r: Result<GroupPreparedSend, Error>)
        ensures
            final(ctx).now_secs == old(ctx).now_secs,
            final(ctx).now_millis == old(ctx).now_millis,
            performs(
                old(self)@,
                final(self)@,
                old(session_manager)@,
                final(session_manager)@,
                old(ctx).now_secs,
                change_plan(
                    old(self)@,
                    group_id@,
                    OwnersChange::AddMembers,
                    members@,
                    old(ctx).now_secs,
                ),
                r,
            ),
            all_well_formed(old(self)@.groups) ==> all_well_formed(final(self)@.groups),
    {
        self.change_owners(session_manager, ctx, group_id, OwnersChange::AddMembers, members)
    }

    /// Tells members of a group again who was added.
    pub fn retry_add_members(
        &mut self,
        session_manager: &mut SessionManager,
        ctx: &mut ProtocolContext<'_>,
        group_id: &str,
        members: Vec<OwnerPubkey>,
    ) -> (r: Result<GroupPreparedSend, Error>)
        ensures
            final(ctx).now_secs == old(ctx).now_secs,
            final(ctx).now_millis == old(ctx).now_millis,
            performs(
                old(self)@,
                final(self)@,
                old(session_manager)@,
                final(session_manager)@,
                old(ctx).now_secs,
                retry_add_plan(old(self)@, group_id@, members@),
                r,
            ),
            all_well_formed(old(self)@.groups) ==> all_well_formed(final(self)@.groups),
    {
        let set = match validate_unique_owners(&members, "members") {
            Ok(set) => set,
            Err(e) => {
                return Err(e);
            },
        };
        let current = match self.ensure_retry(group_id, "add members") {
            Ok(record) => record,
            Err(e) => {
                return Err(e);
            },
        };
        let owners = listed_owners(&set);
        if let Some(owner) = find_owner(&owners, &current.members, false) {
            let refused = current.ensure_member(owner);
            proof {
                lemma_first_outside(owners@, current@.members);
            }
            return match refused {
                Err(e) => Err(e),
                Ok(()) => {
                    assert(false);
                    Err(group_error("".to_string()))
                },
            };
        }
        let payload = current.change_payload(
            OwnersChange::AddMembers,
            &set,
            current.revision - 1,
            current.revision,
        );
        let letters = letters_for_additions(
            &current,
            &current,
            self.local_owner_pubkey,
            &set,
            &payload,
        );
        let ghost model = addition_letters(current@, current@, self@.owner, set@, payload@);
        fanout(session_manager, ctx, current.group_id, &letters, Ghost(model))
    }

    /// Removes members from a group. Those who are removed are told too.
    pub fn remove_members(
        &mut self,
        session_manager: &mut SessionManager,
        ctx: &mut ProtocolContext<'_>,
        group_id: &str,
        members: Vec<OwnerPubkey>,
    ) -> (r: Result<GroupPreparedSend, Error>)
        ensures
            final(ctx).now_secs == old(ctx).now_secs,
            final(ctx).now_millis == old(ctx).now_millis,
            performs(
                old(self)@,
                final(self)@,
                old(session_manager)@,
                final(session_manager)@,
                old(ctx).now_secs,
                change_plan(
                    old(self)@,
                    group_id@,
                    OwnersChange::RemoveMembers,
                    members@,
                    old(ctx).now_secs,
                ),
                r,
            ),
            all_well_formed(old(self)@.groups) ==> all_well_formed(final(self)@.groups),
    {
        self.change_owners(session_manager, ctx, group_id, OwnersChange::RemoveMembers, members)
    }

    /// Tells members of a group, and those who were, again who was removed.
    pub fn retry_remove_members(
        &mut self,
        session_manager: &mut SessionManager,
        ctx: &mut ProtocolContext<'_>,
        group_id: &str,
        members: Vec<OwnerPubkey>,
    ) -> (r: Result<GroupPreparedSend, Error>)
        ensures
            final(ctx).now_secs == old(ctx).now_secs,
            final(ctx).now_millis == old(ctx).now_millis,
            performs(
                old(self)@,
                final(self)@,
                old(session_manager)@,
                final(session_manager)@,
                old(ctx).now_secs,
                retry_remove_plan(old(self)@, group_id@, members@),
                r,
            ),
            all_well_formed(old(self)@.groups) ==> all_well_formed(final(self)@.groups),
    {
        let set = match validate_unique_owners(&members, "members") {
            Ok(set) => set,
            Err(e) => {
                return Err(e);
            },
        };
        let current = match self.ensure_retry(group_id, "remove members") {
            Ok(record) => record,
            Err(e) => {
                return Err(e);
            },
        };
        let owners = listed_owners(&set);
        if let Some(owner) = find_owner(&owners, &current.members, true) {
            return Err(
                group_error(
                    concat3(
                        "owner ",
                        owner.to_hex().as_str(),
                        " should already be removed before retrying removal",
                    ),
                ),
            );
        }
        let payload = current.change_payload(
            OwnersChange::RemoveMembers,
            &set,
            current.revision - 1,
            current.revision,
        );
        let told = listed_owners(
            &without(&with_owners(&current.members, &set, true), self.local_owner_pubkey),
        );
        let letters = letters_for(&told, &payload);
        fanout(
            session_manager,
            ctx,
            current.group_id,
            &letters,
            Ghost(letters_to(told@, payload@)),
        )
    }

    /// Makes members of a group its admins.
    pub fn add_admins(
        &mut self,
        session_manager: &mut SessionManager,
        ctx: &mut ProtocolContext<'_>,
        group_id: &str,
        admins: Vec<OwnerPubkey>,
    ) -> (r: Result<GroupPreparedSend, Error>)
        ensures
            final(ctx).now_secs == old(ctx).now_secs,
            final(ctx).now_millis == old(ctx).now_millis,
            performs(
                old(self)@,
                final(self)@,
                old(session_manager)@,
                final(session_manager)@,
                old(ctx).now_secs,
                change_plan(
                    old(self)@,
                    group_id@,
                    OwnersChange::AddAdmins,
                    admins@,
                    old(ctx).now_secs,
                ),
                r,
            ),
            all_well_formed(old(self)@.groups) ==> all_well_formed(final(self)@.groups),
    {
        self.change_owners(session_manager, ctx, group_id, OwnersChange::AddAdmins, admins)
    }

    /// Makes admins of a group plain members.
    pub fn remove_admins(
        &mut self,
        session_manager: &mut SessionManager,
        ctx: &mut ProtocolContext<'_>,
        group_id: &str,
        admins: Vec<OwnerPubkey>,
    ) -> (r: Result<GroupPreparedSend, Error>)
        ensures
            final(ctx).now_secs == old(ctx).now_secs,
            final(ctx).now_millis == old(ctx).now_millis,
            performs(
                old(self)@,
                final(self)@,
                old(session_manager)@,
                final(session_manager)@,
                old(ctx).now_secs,
                change_plan(
                    old(self)@,
                    group_id@,
                    OwnersChange::RemoveAdmins,
                    admins@,
                    old(ctx).now_secs,
                ),
                r,
            ),
            all_well_formed(old(self)@.groups) ==> all_well_formed(final(self)@.groups),
    {
        self.change_owners(session_manager, ctx, group_id, OwnersChange::RemoveAdmins, admins)
    }
}

/// Whether a group was made.
pub open spec fn creates(
    groups: GroupsModel,
    groups_after: GroupsModel,
    sessions: ManagerModel,
    sessions_after: ManagerModel,
    now: UnixSeconds,
    group_id: Seq<char>,
    name: Seq<char>,
    members: Seq<OwnerPubkey>,
    r: Result<GroupCreateResult, Error>,
) -> bool {
    &&& performs(
        groups,
        groups_after,
        sessions,
        sessions_after,
        now,
        create_plan(groups, group_id, name, members, now),
        match r {
            Ok(result) => Ok(result.prepared),
            Err(e) => Err(e),
        },
    )
    &&& r matches Ok(result) ==> result.group@ == snapshot_of(
        new_group(groups, group_id, name, members, now),
    )
}

proof fn lemma_first_outside(owners: Seq<OwnerPubkey>, set: Set<OwnerPubkey>)
    ensures
        first_outside(owners, set) matches Some(owner) ==> !set.contains(owner),
    decreases owners.len(),
{
    if owners.len() > 0 {
        lemma_first_outside(owners.drop_first(), set);
    }
}

// ---------------------------------------------------------------------------
// What holds of groups
// ---------------------------------------------------------------------------

proof fn lemma_change_keeps_shape(
    g: GroupModel,
    actor: OwnerPubkey,
    change: OwnersChange,
    owners: Set<OwnerPubkey>,
    base_revision: u64,
    new_revision: u64,
    at: UnixSeconds,
)
    requires
        well_formed(g),
        owners.finite(),
        change_refusal(g, actor, change, owners, base_revision, new_revision) is None,
    ensures
        well_formed(changed(g, change, owners, new_revision, at)),
{
    let next = changed(g, change, owners, new_revision, at);
    match change {
        OwnersChange::AddMembers => {
            let m = choose|m: OwnerPubkey| g.members.contains(m);
            assert(g.members.contains(m)) by {
                if forall|m: OwnerPubkey| !g.members.contains(m) {
                    assert(g.members =~= Set::empty());
                }
            }
            assert(next.members.contains(m));
        },
        OwnersChange::AddAdmins => {
            let order = ordered::<OwnerPubkey>(owners);
            crate::collections::ordered_lists::<OwnerPubkey>(owners);
            assert forall|o: OwnerPubkey| owners.contains(o) implies g.members.contains(o) by {
                assert(order.contains(o));
                lemma_owners_allowed(g, change, order, o);
            }
            assert(next.admins.contains(actor));
            assert(next.admins.subset_of(next.members));
        },
        _ => {},
    }
}

proof fn lemma_owners_allowed(
    g: GroupModel,
    change: OwnersChange,
    owners: Seq<OwnerPubkey>,
    o: OwnerPubkey,
)
    requires
        owners_refusal(g, change, owners) is None,
        owners.contains(o),
    ensures
        owner_refusal(g, change, o) is None,
    decreases owners.len(),
{
    if owners[0] != o {
        let i = choose|i: int| 0 <= i < owners.len() && owners[i] == o;
        assert(owners.drop_first()[i - 1] == o);
        lemma_owners_allowed(g, change, owners.drop_first(), o);
    }
}

/// Whatever members tell, the groups stay well formed, each under its own
/// identifier.
pub proof fn hearing_keeps_groups_well_formed(
    groups: Map<Seq<char>, GroupModel>,
    sender: OwnerPubkey,
    p: GroupPayloadModel,
)
    requires
        all_well_formed(groups),
    ensures
        heard(groups, sender, p) matches Ok((next, _)) ==> all_well_formed(next),
{
    if let GroupPayloadModel::Owners { change, group_id, base_revision, new_revision, owners } = p {
        owners.lemma_cardinality_of_set();
        if groups.contains_key(group_id) && change_refusal(
            groups[group_id],
            sender,
            change,
            owners.to_set(),
            base_revision,
            new_revision,
        ) is None {
            lemma_change_keeps_shape(
                groups[group_id],
                sender,
                change,
                owners.to_set(),
                base_revision,
                new_revision,
                groups[group_id].updated_at,
            );
        }
    }
}

/// Whatever members tell changes at most the group that is shown for it, and
/// that one is then as it is shown. A message changes none.
pub proof fn hearing_changes_the_named_group(
    groups: Map<Seq<char>, GroupModel>,
    sender: OwnerPubkey,
    p: GroupPayloadModel,
)
    requires
        all_well_formed(groups),
    ensures
        heard(groups, sender, p) matches Ok((next, event)) ==> match event {
            GroupEventModel::Metadata(shown) => {
                &&& next.contains_key(shown.group_id)
                &&& shown == snapshot_of(next[shown.group_id])
                &&& next == groups.insert(shown.group_id, next[shown.group_id])
            },
            GroupEventModel::Message { .. } => next == groups,
        },
{
    if let Ok((next, GroupEventModel::Metadata(shown))) = heard(groups, sender, p) {
        assert(next =~= groups.insert(shown.group_id, next[shown.group_id]));
    }
}

/// Whatever owners are added or removed, the groups stay well formed, each
/// under its own identifier.
pub proof fn changing_keeps_groups_well_formed(
    m: GroupsModel,
    group_id: Seq<char>,
    change: OwnersChange,
    owners: Seq<OwnerPubkey>,
    now: UnixSeconds,
)
    requires
        all_well_formed(m.groups),
    ensures
        change_plan(m, group_id, change, owners, now) matches Ok((_, _, next))
            ==> all_well_formed(next),
{
    owners.lemma_cardinality_of_set();
    if m.groups.contains_key(group_id) {
        let g = m.groups[group_id];
        let revision = next_revision(g.revision);
        if change_refusal(g, m.owner, change, owners.to_set(), g.revision, revision) is None {
            lemma_change_keeps_shape(
                g,
                m.owner,
                change,
                owners.to_set(),
                g.revision,
                revision,
                now,
            );
        }
    }
}

/// With a new group or a new name too, the groups stay well formed, each under
/// its own identifier.
pub proof fn making_keeps_groups_well_formed(
    m: GroupsModel,
    group_id: Seq<char>,
    name: Seq<char>,
    members: Seq<OwnerPubkey>,
    now: UnixSeconds,
)
    requires
        all_well_formed(m.groups),
    ensures
        create_plan(m, group_id, name, members, now) matches Ok((_, _, next)) ==> all_well_formed(
            next,
        ),
        rename_plan(m, group_id, name, now) matches Ok((_, _, next)) ==> all_well_formed(next),
{
    let g = new_group(m, group_id, name, members, now);
    assert(g.members.contains(m.owner) && g.admins.contains(m.owner));
    assert(g.admins.subset_of(g.members));
}

/// Only an admin changes a group, and each change makes the next revision.
pub proof fn only_admins_change_a_group(
    groups: Map<Seq<char>, GroupModel>,
    sender: OwnerPubkey,
    p: GroupPayloadModel,
    id: Seq<char>,
)
    requires
        groups.contains_key(id),
        heard(groups, sender, p) is Ok,
        heard(groups, sender, p)->Ok_0.0[id] != groups[id],
    ensures
        groups[id].admins.contains(sender),
        heard(groups, sender, p)->Ok_0.0.contains_key(id),
        heard(groups, sender, p)->Ok_0.0[id].revision == groups[id].revision + 1,
{
}

/// A change that an admin may make is taken over by a member that knows the
/// same group, and hearing of it again changes nothing.
pub proof fn changes_reach_members(
    groups: Map<Seq<char>, GroupModel>,
    actor: OwnerPubkey,
    change: OwnersChange,
    owners: Seq<OwnerPubkey>,
    id: Seq<char>,
)
    requires
        groups.contains_key(id),
        groups[id].group_id == id,
        owners.no_duplicates(),
        groups[id].revision < u64::MAX,
        change_refusal(
            groups[id],
            actor,
            change,
            owners.to_set(),
            groups[id].revision,
            next_revision(groups[id].revision),
        ) is None,
    ensures
        ({
            let g = groups[id];
            let p = GroupPayloadModel::Owners {
                change,
                group_id: id,
                base_revision: g.revision,
                new_revision: next_revision(g.revision),
                owners,
            };
            let next = changed(
                g,
                change,
                owners.to_set(),
                next_revision(g.revision),
                g.updated_at,
            );
            &&& heard(groups, actor, p) == Ok::<
                (Map<Seq<char>, GroupModel>, GroupEventModel),
                Seq<char>,
            >((groups.insert(id, next), GroupEventModel::Metadata(snapshot_of(next))))
            &&& heard(groups.insert(id, next), actor, p) == Ok::<
                (Map<Seq<char>, GroupModel>, GroupEventModel),
                Seq<char>,
            >((groups.insert(id, next), GroupEventModel::Metadata(snapshot_of(next))))
        }),
{
}

/// A group that was made is known to a member that hears of it, just as it
/// was made, and hearing of it again changes nothing.
pub proof fn new_groups_reach_members(
    groups: Map<Seq<char>, GroupModel>,
    g: GroupModel,
    sender: OwnerPubkey,
)
    requires
        !groups.contains_key(g.group_id),
        well_formed(g),
        g.created_by == sender,
        g.admins.contains(sender),
        g.revision > 0,
    ensures
        heard(groups, sender, create_payload(g)) == Ok::<
            (Map<Seq<char>, GroupModel>, GroupEventModel),
            Seq<char>,
        >((groups.insert(g.group_id, g), GroupEventModel::Metadata(snapshot_of(g)))),
        heard(groups.insert(g.group_id, g), sender, create_payload(g)) == Ok::<
            (Map<Seq<char>, GroupModel>, GroupEventModel),
            Seq<char>,
        >((groups.insert(g.group_id, g), GroupEventModel::Metadata(snapshot_of(g)))),
{
    lemma_ordered_set(g.members);
    lemma_ordered_set(g.admins);
    assert(group_of(snapshot_of(g)) =~= g);
    assert(snapshot_of(g).admins.to_set().contains(sender));
    assert(snapshot_of(g).admins.contains(sender));
}

proof fn lemma_ordered_set(set: Set<OwnerPubkey>)
    requires
        set.finite(),
    ensures
        ordered::<OwnerPubkey>(set).no_duplicates(),
        ordered::<OwnerPubkey>(set).to_set() == set,
{
    let order = ordered::<OwnerPubkey>(set);
    crate::collections::ordered_lists::<OwnerPubkey>(set);
    assert forall|i: int, j: int| 0 <= i < order.len() && 0 <= j < order.len() && i != j implies order[i]
        != order[j] by {
        if i < j {
            crate::collections::lists_distinct::<OwnerPubkey>(order, set, i, j);
        } else {
            crate::collections::lists_distinct::<OwnerPubkey>(order, set, j, i);
        }
    }
    assert(order.to_set() =~= set);
}

/// A message of a member reaches a member that knows the same revision.
pub proof fn messages_reach_members(
    groups: Map<Seq<char>, GroupModel>,
    sender: OwnerPubkey,
    id: Seq<char>,
    body: Seq<u8>,
)
    requires
        groups.contains_key(id),
        groups[id].members.contains(sender),
    ensures
        heard(
            groups,
            sender,
            GroupPayloadModel::Message { group_id: id, revision: groups[id].revision, body },
        ) == Ok::<(Map<Seq<char>, GroupModel>, GroupEventModel), Seq<char>>(
            (
                groups,
                GroupEventModel::Message {
                    group_id: id,
                    sender,
                    body,
                    revision: groups[id].revision,
                },
            ),
        ),
{
}

/// Who is not a member is not heard.
pub proof fn strangers_are_not_heard(
    groups: Map<Seq<char>, GroupModel>,
    sender: OwnerPubkey,
    id: Seq<char>,
    revision: u64,
    body: Seq<u8>,
)
    requires
        groups.contains_key(id),
        !groups[id].members.contains(sender),
    ensures
        heard(groups, sender, GroupPayloadModel::Message { group_id: id, revision, body }) is Err,
{
}

/// What is restored from snapshots is well formed.
pub proof fn restored_groups_are_well_formed(groups: Seq<GroupSnapshotModel>)
    ensures
        restored_groups(groups) matches Ok(known) ==> all_well_formed(known),
    decreases groups.len(),
{
    if groups.len() > 0 {
        restored_groups_are_well_formed(groups.drop_last());
        vstd::seq_lib::seq_to_set_is_finite(groups.last().members);
        vstd::seq_lib::seq_to_set_is_finite(groups.last().admins);
    }
}

/// Snapshots come in the order of their groups' identifiers, each with its
/// members and admins in order, at least one admin, and no admin who is not a
/// member.
pub proof fn group_snapshots_are_in_order(groups: Map<Seq<char>, GroupModel>)
    requires
        all_well_formed(groups),
    ensures
        ({
            let all = snapshots_of(groups);
            &&& forall|i: int, j: int|
                0 <= i < j < all.len() ==> String::before(
                    (#[trigger] all[i]).group_id,
                    (#[trigger] all[j]).group_id,
                )
            &&& forall|i: int|
                0 <= i < all.len() ==> {
                    let g = #[trigger] all[i];
                    &&& groups.contains_key(g.group_id) && g == snapshot_of(groups[g.group_id])
                    &&& lists::<OwnerPubkey>(g.members, groups[g.group_id].members)
                    &&& lists::<OwnerPubkey>(g.admins, groups[g.group_id].admins)
                    &&& g.admins.len() > 0
                    &&& forall|o: OwnerPubkey| #[trigger]
                        g.admins.contains(o) ==> g.members.contains(o)
                }
            &&& forall|id: Seq<char>| #[trigger]
                groups.contains_key(id) ==> all.contains(snapshot_of(groups[id]))
        }),
{
    let order = ordered::<String>(groups.dom());
    crate::collections::ordered_lists::<String>(groups.dom());
    let all = snapshots_of(groups);
    assert forall|i: int| 0 <= i < all.len() implies {
        let g = #[trigger] all[i];
        &&& g.group_id == order[i]
        &&& groups.contains_key(g.group_id) && g == snapshot_of(groups[g.group_id])
        &&& lists::<OwnerPubkey>(g.members, groups[g.group_id].members)
        &&& lists::<OwnerPubkey>(g.admins, groups[g.group_id].admins)
        &&& g.admins.len() > 0
        &&& forall|o: OwnerPubkey| #[trigger] g.admins.contains(o) ==> g.members.contains(o)
    } by {
        assert(order.contains(order[i]));
        assert(groups.dom().contains(order[i]));
        assert(groups.contains_key(order[i]));
        let known = groups[order[i]];
        crate::collections::ordered_lists::<OwnerPubkey>(known.members);
        crate::collections::ordered_lists::<OwnerPubkey>(known.admins);
        let admins = ordered::<OwnerPubkey>(known.admins);
        assert(admins.len() > 0) by {
            if admins.len() == 0 {
                assert(known.admins =~= Set::empty());
            }
        }
        assert forall|o: OwnerPubkey| #[trigger] admins.contains(o) implies ordered::<OwnerPubkey>(
            known.members,
        ).contains(o) by {
            assert(known.admins.contains(o));
            assert(known.members.contains(o));
        }
    }
    assert forall|id: Seq<char>| #[trigger] groups.contains_key(id) implies all.contains(
        snapshot_of(groups[id]),
    ) by {
        assert(groups.dom().contains(id));
        assert(order.contains(id));
        let i = choose|i: int| 0 <= i < order.len() && order[i] == id;
        assert(all[i] == snapshot_of(groups[id]));
    }
}

/// Groups restored from their snapshots are the groups that they were.
pub proof fn group_snapshots_restore(groups: Map<Seq<char>, GroupModel>)
    requires
        all_well_formed(groups),
    ensures
        restored_groups(snapshots_of(groups)) == Ok::<Map<Seq<char>, GroupModel>, Seq<char>>(groups),
{
    let order = ordered::<String>(groups.dom());
    crate::collections::ordered_lists::<String>(groups.dom());
    let all = snapshots_of(groups);
    assert(all.take(all.len() as int) =~= all);
    lemma_restoring(groups, order, all, all.len() as int);
    let known = restored_groups(all)->Ok_0;
    assert forall|id: Seq<char>| #[trigger] groups.contains_key(id) implies known.contains_key(
        id,
    ) by {
        assert(groups.dom().contains(id));
        assert(order.contains(id));
        let j = choose|j: int| 0 <= j < order.len() && order[j] == id;
        assert(order[j] == id);
    }
    assert(known =~= groups);
}

proof fn lemma_restoring(
    groups: Map<Seq<char>, GroupModel>,
    order: Seq<Seq<char>>,
    all: Seq<GroupSnapshotModel>,
    n: int,
)
    requires
        all_well_formed(groups),
        crate::collections::lists::<String>(order, groups.dom()),
        order == ordered::<String>(groups.dom()),
        all == snapshots_of(groups),
        0 <= n <= all.len(),
    ensures
        restored_groups(all.take(n)) is Ok,
        forall|id: Seq<char>| #[trigger]
            restored_groups(all.take(n))->Ok_0.contains_key(id) <==> exists|j: int|
                0 <= j < n && #[trigger] order[j] == id,
        forall|id: Seq<char>| #[trigger]
            restored_groups(all.take(n))->Ok_0.contains_key(id) ==> groups.contains_key(id)
                && restored_groups(all.take(n))->Ok_0[id] == groups[id],
    decreases n,
{
    if n > 0 {
        lemma_restoring(groups, order, all, n - 1);
        let fewer = all.take(n - 1);
        let some = all.take(n);
        assert(some.drop_last() =~= fewer);
        let id = order[n - 1];
        assert(order.contains(id));
        assert(groups.dom().contains(id));
        assert(groups.contains_key(id));
        let g = groups[id];
        lemma_ordered_set(g.members);
        lemma_ordered_set(g.admins);
        assert(group_of(snapshot_of(g)) =~= g);
        assert(some.last() == snapshot_of(g));
        let known = restored_groups(fewer)->Ok_0;
        assert(!known.contains_key(id)) by {
            if known.contains_key(id) {
                let j = choose|j: int| 0 <= j < n - 1 && #[trigger] order[j] == id;
                crate::collections::lists_distinct::<String>(order, groups.dom(), j, n - 1);
            }
        }
        let next = restored_groups(some)->Ok_0;
        assert(next == known.insert(id, g));
        assert forall|k: Seq<char>| #[trigger] next.contains_key(k) <==> exists|j: int|
            0 <= j < n && #[trigger] order[j] == k by {
            if k == id {
                assert(order[n - 1] == k);
            }
            if known.contains_key(k) {
                let j = choose|j: int| 0 <= j < n - 1 && #[trigger] order[j] == k;
                assert(order[j] == k);
            }
            if exists|j: int| 0 <= j < n && #[trigger] order[j] == k {
                let j = choose|j: int| 0 <= j < n && #[trigger] order[j] == k;
                if j < n - 1 {
                    assert(order[j] == k);
                    assert(known.contains_key(k));
                }
            }
        }
    } else {
        assert(all.take(0) =~= Seq::empty());
    }
}

} // verus!
