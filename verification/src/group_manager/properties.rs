//! What making, changing and writing to groups comes to, for the one who does
//! it and for the members who hear of it.
use vstd::prelude::*;
use super::{
    all_deliveries, all_gaps, all_responses, all_well_formed, change_payload, change_plan,
    change_refusal, changed, create_payload, create_plan, gathers, group_of, handles, heard,
    letters_to, message_plan, new_group, next_revision, others, owner_refusal, owners_refusal,
    performs, rename_plan, retry_add_plan, retry_create_plan, retry_remove_plan, retry_rename_plan,
    snapshot_of, step_carried, well_formed, GroupModel, GroupPlan, GroupsModel,
};
use crate::collections::ordered;
use crate::error::Error;
use crate::group::{GroupEventModel, GroupIncomingEvent, GroupPreparedSend, GroupSnapshotModel};
use crate::group_wire::{payload_bytes, payload_of_bytes, GroupPayloadModel, OwnersChange};
use crate::ids::{OwnerPubkey, UnixSeconds};
use crate::session_manager::{audience, gap_models, prepares, ManagerModel, PreparedSend, RelayGap};

verus! {

// ---------------------------------------------------------------------------
// Who is told what
// ---------------------------------------------------------------------------

/// Whether letters go to the owners of a set, one to each, and to nobody else.
pub open spec fn reaches_each(
    letters: Seq<(OwnerPubkey, GroupPayloadModel)>,
    owners: Set<OwnerPubkey>,
) -> bool {
    &&& forall|i: int, j: int|
        0 <= i < j < letters.len() ==> (#[trigger] letters[i]).0 != (#[trigger] letters[j]).0
    &&& forall|i: int| 0 <= i < letters.len() ==> owners.contains((#[trigger] letters[i]).0)
    &&& forall|o: OwnerPubkey| #[trigger]
        owners.contains(o) ==> exists|i: int| 0 <= i < letters.len() && (#[trigger] letters[i]).0
            == o
}

/// Whether all letters say one thing.
pub open spec fn all_say(
    letters: Seq<(OwnerPubkey, GroupPayloadModel)>,
    p: GroupPayloadModel,
) -> bool {
    forall|i: int| 0 <= i < letters.len() ==> (#[trigger] letters[i]).1 == p
}

proof fn lemma_ordered(set: Set<OwnerPubkey>)
    requires
        set.finite(),
    ensures
        ordered::<OwnerPubkey>(set).no_duplicates(),
        ordered::<OwnerPubkey>(set).to_set() == set,
        ordered::<OwnerPubkey>(set).len() == set.len(),
        forall|o: OwnerPubkey| #[trigger]
            ordered::<OwnerPubkey>(set).contains(o) <==> set.contains(o),
{
    super::lemma_ordered_set(set);
    let order = ordered::<OwnerPubkey>(set);
    crate::collections::ordered_lists::<OwnerPubkey>(set);
    crate::collections::lists_len::<OwnerPubkey>(order, set);
    assert forall|o: OwnerPubkey| #[trigger] order.contains(o) <==> set.contains(o) by {
        assert(order.to_set().contains(o) <==> order.contains(o));
    }
}

proof fn lemma_letters(set: Set<OwnerPubkey>, p: GroupPayloadModel)
    requires
        set.finite(),
    ensures
        reaches_each(letters_to(ordered::<OwnerPubkey>(set), p), set),
        all_say(letters_to(ordered::<OwnerPubkey>(set), p), p),
{
    lemma_ordered(set);
    let order = ordered::<OwnerPubkey>(set);
    let letters = letters_to(order, p);
    assert forall|i: int, j: int| 0 <= i < j < letters.len() implies (#[trigger] letters[i]).0 != (
    #[trigger] letters[j]).0 by {
        assert(order[i] != order[j]);
    }
    assert forall|i: int| 0 <= i < letters.len() implies set.contains((#[trigger] letters[i]).0) by {
        assert(order.contains(order[i]));
    }
    assert forall|o: OwnerPubkey| #[trigger] set.contains(o) implies exists|i: int|
        0 <= i < letters.len() && (#[trigger] letters[i]).0 == o by {
        assert(order.contains(o));
        let i = choose|i: int| 0 <= i < order.len() && order[i] == o;
        assert(letters[i].0 == o);
    }
}

// ---------------------------------------------------------------------------
// What is shown
// ---------------------------------------------------------------------------

/// A snapshot shows a group as it is: its name, who made it, its revision and
/// its times, and its members and admins, each once.
pub proof fn snapshots_show_the_group(g: GroupModel)
    requires
        well_formed(g),
    ensures
        snapshot_of(g).group_id == g.group_id,
        snapshot_of(g).name == g.name,
        snapshot_of(g).created_by == g.created_by,
        snapshot_of(g).revision == g.revision,
        snapshot_of(g).created_at == g.created_at,
        snapshot_of(g).updated_at == g.updated_at,
        snapshot_of(g).members.no_duplicates(),
        snapshot_of(g).members.to_set() == g.members,
        snapshot_of(g).admins.no_duplicates(),
        snapshot_of(g).admins.to_set() == g.admins,
{
    lemma_ordered(g.members);
    lemma_ordered(g.admins);
}

/// Whether a snapshot shows a group as it is.
pub open spec fn is_shown_by(g: GroupModel, s: GroupSnapshotModel) -> bool {
    &&& s.group_id == g.group_id
    &&& s.name == g.name
    &&& s.created_by == g.created_by
    &&& s.revision == g.revision
    &&& s.created_at == g.created_at
    &&& s.updated_at == g.updated_at
    &&& s.members.to_set() == g.members
    &&& s.members.no_duplicates()
    &&& s.admins.to_set() == g.admins
    &&& s.admins.no_duplicates()
}

// ---------------------------------------------------------------------------
// Messages
// ---------------------------------------------------------------------------

/// A member of a group that it knows can write to it, and nobody else. What it
/// writes goes to every other member, once to each and to nobody else, with the
/// body as it was given and the revision that the group has; no group changes.
pub proof fn messages_go_to_every_other_member(m: GroupsModel, group_id: Seq<char>, body: Seq<u8>)
    requires
        all_well_formed(m.groups),
    ensures
        message_plan(m, group_id, body) is Ok <==> m.groups.contains_key(group_id)
            && m.groups[group_id].members.contains(m.owner),
        message_plan(m, group_id, body) matches Ok((letters, id, next)) ==> {
            &&& id == group_id
            &&& next == m.groups
            &&& forall|o: OwnerPubkey|
                (exists|i: int| 0 <= i < letters.len() && (#[trigger] letters[i]).0 == o) <==> (
                m.groups[group_id].members.contains(o) && o != m.owner)
            &&& forall|i: int, j: int|
                0 <= i < j < letters.len() ==> (#[trigger] letters[i]).0 != (
                #[trigger] letters[j]).0
            &&& forall|i: int|
                0 <= i < letters.len() ==> (#[trigger] letters[i]).1
                    == (GroupPayloadModel::Message {
                    group_id,
                    revision: m.groups[group_id].revision,
                    body,
                })
        },
{
    if let Ok((letters, _, _)) = message_plan(m, group_id, body) {
        let g = m.groups[group_id];
        let told = g.members.remove(m.owner);
        lemma_letters(
            told,
            GroupPayloadModel::Message { group_id, revision: g.revision, body },
        );
        assert(reaches_each(letters, told));
        assert forall|o: OwnerPubkey|
            (exists|i: int| 0 <= i < letters.len() && (#[trigger] letters[i]).0 == o) <==> (
            g.members.contains(o) && o != m.owner) by {
            if exists|i: int| 0 <= i < letters.len() && (#[trigger] letters[i]).0 == o {
                let i = choose|i: int| 0 <= i < letters.len() && (#[trigger] letters[i]).0 == o;
                assert(told.contains(letters[i].0));
            }
            if g.members.contains(o) && o != m.owner {
                assert(told.contains(o));
            }
        }
    }
}

/// What a member writes to a group is read by another member that has the group
/// at the same revision: the same body, as written by the one who wrote it.
pub proof fn members_read_what_is_written(
    m: GroupsModel,
    group_id: Seq<char>,
    body: Seq<u8>,
    i: int,
    groups: Map<Seq<char>, GroupModel>,
)
    requires
        all_well_formed(m.groups),
        message_plan(m, group_id, body) matches Ok((letters, _, _)) && 0 <= i < letters.len(),
        groups.contains_key(group_id),
        groups[group_id].members == m.groups[group_id].members,
        groups[group_id].revision == m.groups[group_id].revision,
    ensures
        heard(groups, m.owner, message_plan(m, group_id, body)->Ok_0.0[i].1) == Ok::<
            (Map<Seq<char>, GroupModel>, GroupEventModel),
            Seq<char>,
        >(
            (
                groups,
                GroupEventModel::Message {
                    group_id,
                    sender: m.owner,
                    body,
                    revision: m.groups[group_id].revision,
                },
            ),
        ),
{
    messages_go_to_every_other_member(m, group_id, body);
}

// ---------------------------------------------------------------------------
// New groups
// ---------------------------------------------------------------------------

/// A group that is made has the identifier and the name it was given, its maker
/// as a member and as the only admin, the other members that were named, the
/// first revision and the time at which it was made. It is refused only where a
/// member is named twice or the maker is named. All other members are told of
/// just this group, and no other group changes.
pub proof fn new_groups_are_as_they_were_asked_for(
    m: GroupsModel,
    group_id: Seq<char>,
    name: Seq<char>,
    members: Seq<OwnerPubkey>,
    now: UnixSeconds,
)
    ensures
        create_plan(m, group_id, name, members, now) is Ok <==> members.no_duplicates()
            && !members.contains(m.owner),
        create_plan(m, group_id, name, members, now) matches Ok((letters, id, next)) ==> {
            &&& id == group_id
            &&& next.contains_key(group_id)
            &&& next[group_id].group_id == group_id
            &&& next[group_id].name == name
            &&& next[group_id].created_by == m.owner
            &&& forall|o: OwnerPubkey| #[trigger]
                next[group_id].members.contains(o) <==> (members.contains(o) || o == m.owner)
            &&& forall|o: OwnerPubkey| #[trigger]
                next[group_id].admins.contains(o) <==> o == m.owner
            &&& next[group_id].revision == 1
            &&& next[group_id].created_at == now
            &&& next[group_id].updated_at == now
            &&& forall|other: Seq<char>|
                other != group_id ==> next.contains_key(other) == m.groups.contains_key(other)
                    && #[trigger] next[other] == m.groups[other]
            &&& reaches_each(letters, members.to_set())
            &&& forall|i: int|
                0 <= i < letters.len() ==> ((#[trigger] letters[i]).1
                    matches GroupPayloadModel::Create { base_revision, group } && base_revision == 0
                    && is_shown_by(next[group_id], group))
        },
{
    if let Ok((letters, _, next)) = create_plan(m, group_id, name, members, now) {
        let g = new_group(m, group_id, name, members, now);
        vstd::seq_lib::seq_to_set_is_finite(members);
        assert(g.members.remove(m.owner) =~= members.to_set());
        lemma_letters(members.to_set(), create_payload(g));
        assert(g.members.contains(m.owner) && g.admins.contains(m.owner));
        assert(g.admins.subset_of(g.members));
        snapshots_show_the_group(g);
    }
}

/// A member that hears of a new group knows it then just as its maker does.
pub proof fn newcomers_know_the_group_as_its_maker_does(
    m: GroupsModel,
    group_id: Seq<char>,
    name: Seq<char>,
    members: Seq<OwnerPubkey>,
    now: UnixSeconds,
    i: int,
    groups: Map<Seq<char>, GroupModel>,
)
    requires
        create_plan(m, group_id, name, members, now) matches Ok((letters, _, _)) && 0 <= i
            < letters.len(),
        !groups.contains_key(group_id),
    ensures
        ({
            let (letters, _, next) = create_plan(m, group_id, name, members, now)->Ok_0;
            heard(groups, m.owner, letters[i].1) matches Ok((known, _)) && known.contains_key(
                group_id,
            ) && known[group_id] == next[group_id] && known.remove(group_id) == groups
        }),
{
    let g = new_group(m, group_id, name, members, now);
    vstd::seq_lib::seq_to_set_is_finite(members);
    assert(g.members.contains(m.owner) && g.admins.contains(m.owner));
    assert(g.admins.subset_of(g.members));
    super::new_groups_reach_members(groups, g, m.owner);
    assert(groups.insert(group_id, g).remove(group_id) =~= groups);
}

// ---------------------------------------------------------------------------
// Names
// ---------------------------------------------------------------------------

/// An admin can give a group a name, and nobody else can, as long as there is a
/// next revision. The group then has the name that was given, the next revision
/// and the time of the change, and is as before otherwise; no other group
/// changes. Every other member is told the name and both revisions.
pub proof fn renamed_groups_have_the_name(
    m: GroupsModel,
    group_id: Seq<char>,
    name: Seq<char>,
    now: UnixSeconds,
)
    requires
        all_well_formed(m.groups),
    ensures
        rename_plan(m, group_id, name, now) is Ok <==> m.groups.contains_key(group_id)
            && m.groups[group_id].admins.contains(m.owner) && m.groups[group_id].revision
            < u64::MAX,
        rename_plan(m, group_id, name, now) matches Ok((letters, id, next)) ==> {
            let g = m.groups[group_id];
            &&& id == group_id
            &&& next.contains_key(group_id)
            &&& next[group_id].name == name
            &&& next[group_id].revision == g.revision + 1
            &&& next[group_id].updated_at == now
            &&& next[group_id].group_id == g.group_id
            &&& next[group_id].created_by == g.created_by
            &&& next[group_id].created_at == g.created_at
            &&& next[group_id].members == g.members
            &&& next[group_id].admins == g.admins
            &&& forall|other: Seq<char>|
                other != group_id ==> next.contains_key(other) == m.groups.contains_key(other)
                    && #[trigger] next[other] == m.groups[other]
            &&& reaches_each(letters, g.members.remove(m.owner))
            &&& forall|i: int|
                0 <= i < letters.len() ==> (#[trigger] letters[i]).1
                    == (GroupPayloadModel::Rename {
                    group_id,
                    base_revision: g.revision,
                    new_revision: (g.revision + 1) as u64,
                    name,
                })
        },
{
    if let Ok((letters, _, next)) = rename_plan(m, group_id, name, now) {
        let g = m.groups[group_id];
        lemma_letters(
            g.members.remove(m.owner),
            GroupPayloadModel::Rename {
                group_id,
                base_revision: g.revision,
                new_revision: (g.revision + 1) as u64,
                name,
            },
        );
    }
}

/// A member with the same group that hears of its new name has the group then
/// as the one who renamed it, but for the time of the change.
pub proof fn members_follow_a_new_name(
    m: GroupsModel,
    group_id: Seq<char>,
    name: Seq<char>,
    now: UnixSeconds,
    i: int,
    groups: Map<Seq<char>, GroupModel>,
)
    requires
        all_well_formed(m.groups),
        rename_plan(m, group_id, name, now) matches Ok((letters, _, _)) && 0 <= i < letters.len(),
        groups.contains_key(group_id),
        groups[group_id] == m.groups[group_id],
    ensures
        ({
            let (letters, _, next) = rename_plan(m, group_id, name, now)->Ok_0;
            heard(groups, m.owner, letters[i].1) matches Ok((known, event)) && {
                &&& known.contains_key(group_id)
                &&& known[group_id].name == next[group_id].name
                &&& known[group_id].members == next[group_id].members
                &&& known[group_id].admins == next[group_id].admins
                &&& known[group_id].revision == next[group_id].revision
                &&& known[group_id].group_id == next[group_id].group_id
                &&& known[group_id].created_by == next[group_id].created_by
                &&& known[group_id].created_at == next[group_id].created_at
                &&& known.remove(group_id) == groups.remove(group_id)
                &&& (event matches GroupEventModel::Metadata(shown) && is_shown_by(
                    known[group_id],
                    shown,
                ))
            }
        }),
{
    renamed_groups_have_the_name(m, group_id, name, now);
    let (letters, _, next) = rename_plan(m, group_id, name, now)->Ok_0;
    let (known, _) = heard(groups, m.owner, letters[i].1)->Ok_0;
    assert(known.remove(group_id) =~= groups.remove(group_id));
    snapshots_show_the_group(known[group_id]);
}

// ---------------------------------------------------------------------------
// Members and admins
// ---------------------------------------------------------------------------

proof fn lemma_none_refused(g: GroupModel, change: OwnersChange, owners: Seq<OwnerPubkey>)
    ensures
        owners_refusal(g, change, owners) is None <==> forall|o: OwnerPubkey| #[trigger]
            owners.contains(o) ==> owner_refusal(g, change, o) is None,
    decreases owners.len(),
{
    if owners.len() > 0 {
        let rest = owners.drop_first();
        lemma_none_refused(g, change, rest);
        assert forall|o: OwnerPubkey| #[trigger] owners.contains(o) <==> o == owners[0]
            || rest.contains(o) by {
            if owners.contains(o) && o != owners[0] {
                let i = choose|i: int| 0 <= i < owners.len() && owners[i] == o;
                assert(rest[i - 1] == o);
            }
            if rest.contains(o) {
                let i = choose|i: int| 0 <= i < rest.len() && rest[i] == o;
                assert(owners[i + 1] == o);
            }
        }
        assert(owners.contains(owners[0]));
        if forall|o: OwnerPubkey| #[trigger]
            owners.contains(o) ==> owner_refusal(g, change, o) is None {
            assert forall|o: OwnerPubkey| #[trigger] rest.contains(o) implies owner_refusal(
                g,
                change,
                o,
            ) is None by {
                assert(owners.contains(o));
            }
        }
        if owners_refusal(g, change, owners) is None {
            assert forall|o: OwnerPubkey| #[trigger] owners.contains(o) implies owner_refusal(
                g,
                change,
                o,
            ) is None by {
                if o != owners[0] {
                    assert(rest.contains(o));
                }
            }
        }
    }
}

/// Whether an owner can be added or removed as it is asked for.
pub open spec fn fits_change(g: GroupModel, change: OwnersChange, o: OwnerPubkey) -> bool {
    match change {
        OwnersChange::AddMembers => !g.members.contains(o),
        OwnersChange::RemoveMembers => g.members.contains(o),
        OwnersChange::AddAdmins => g.members.contains(o) && !g.admins.contains(o),
        OwnersChange::RemoveAdmins => g.admins.contains(o),
    }
}

proof fn lemma_change_allowed(
    g: GroupModel,
    actor: OwnerPubkey,
    change: OwnersChange,
    owners: Seq<OwnerPubkey>,
)
    requires
        well_formed(g),
        owners.no_duplicates(),
    ensures
        change_refusal(
            g,
            actor,
            change,
            owners.to_set(),
            g.revision,
            next_revision(g.revision),
        ) is None <==> {
            &&& g.admins.contains(actor)
            &&& g.revision < u64::MAX
            &&& owners.len() > 0
            &&& forall|o: OwnerPubkey| #[trigger] owners.contains(o) ==> fits_change(g, change, o)
            &&& change is RemoveMembers ==> !owners.contains(actor)
            &&& change is RemoveAdmins ==> owners.len() < g.admins.len()
        },
{
    let set = owners.to_set();
    let order = ordered::<OwnerPubkey>(set);
    owners.unique_seq_to_set();
    lemma_ordered(set);
    lemma_none_refused(g, change, order);
    assert forall|o: OwnerPubkey| #[trigger] owners.contains(o) <==> order.contains(o) by {
        assert(set.contains(o) <==> owners.contains(o));
    }
    assert forall|o: OwnerPubkey| owner_refusal(g, change, o) is None <==> #[trigger] fits_change(
        g,
        change,
        o,
    ) by {}
    assert((set =~= Set::empty()) == (owners.len() == 0)) by {
        if owners.len() > 0 {
            assert(set.contains(owners[0]));
        }
    }
    let allowed = forall|o: OwnerPubkey| #[trigger]
        owners.contains(o) ==> fits_change(g, change, o);
    assert(allowed == (owners_refusal(g, change, order) is None)) by {
        if allowed {
            assert forall|o: OwnerPubkey| #[trigger] order.contains(o) implies owner_refusal(
                g,
                change,
                o,
            ) is None by {
                assert(owners.contains(o));
                assert(fits_change(g, change, o));
            }
        }
        if owners_refusal(g, change, order) is None {
            assert forall|o: OwnerPubkey| #[trigger] owners.contains(o) implies fits_change(
                g,
                change,
                o,
            ) by {
                assert(order.contains(o));
            }
        }
    }
    if g.admins.contains(actor) && allowed {
        let next = changed(g, change, set, next_revision(g.revision), g.updated_at);
        match change {
            OwnersChange::RemoveMembers => {
                if !owners.contains(actor) {
                    assert(next.members.contains(actor));
                    assert(next.admins.contains(actor));
                    assert(next.admins.subset_of(next.members));
                }
            },
            OwnersChange::RemoveAdmins => {
                assert(set.subset_of(g.admins)) by {
                    assert forall|o: OwnerPubkey| set.contains(o) implies g.admins.contains(o) by {
                        assert(owners.contains(o));
                    }
                }
                vstd::set_lib::lemma_len_subset(set, g.admins);
                assert(next.members.contains(actor));
                if owners.len() < g.admins.len() {
                    if next.admins =~= Set::empty() {
                        assert forall|o: OwnerPubkey| g.admins.contains(o) implies set.contains(
                            o,
                        ) by {
                            if !set.contains(o) {
                                assert(next.admins.contains(o));
                            }
                        }
                        assert(g.admins =~= set);
                    }
                    assert(next.admins.subset_of(next.members));
                }
            },
            _ => {},
        }
    }
}

/// An admin can add members who are none yet, remove members other than itself,
/// make members admins who are none yet, and take that from admins as long as
/// one is left; nobody else can, nothing is done for an empty list or one that
/// names an owner twice, and there must be a next revision. Just the named
/// owners are then members or admins, or no longer; who is no member is no
/// admin. The group has the next revision and the time of the change and is as
/// before otherwise, and no other group changes.
pub proof fn changed_groups_have_the_owners(
    m: GroupsModel,
    group_id: Seq<char>,
    change: OwnersChange,
    owners: Seq<OwnerPubkey>,
    now: UnixSeconds,
)
    requires
        all_well_formed(m.groups),
    ensures
        change_plan(m, group_id, change, owners, now) is Ok <==> {
            let g = m.groups[group_id];
            &&& m.groups.contains_key(group_id)
            &&& g.admins.contains(m.owner)
            &&& g.revision < u64::MAX
            &&& owners.no_duplicates()
            &&& owners.len() > 0
            &&& forall|o: OwnerPubkey| #[trigger] owners.contains(o) ==> fits_change(g, change, o)
            &&& change is RemoveMembers ==> !owners.contains(m.owner)
            &&& change is RemoveAdmins ==> owners.len() < g.admins.len()
        },
        change_plan(m, group_id, change, owners, now) matches Ok((_, id, next)) ==> {
            let g = m.groups[group_id];
            &&& id == group_id
            &&& next.contains_key(group_id)
            &&& forall|o: OwnerPubkey| #[trigger]
                next[group_id].members.contains(o) <==> match change {
                    OwnersChange::AddMembers => g.members.contains(o) || owners.contains(o),
                    OwnersChange::RemoveMembers => g.members.contains(o) && !owners.contains(o),
                    _ => g.members.contains(o),
                }
            &&& forall|o: OwnerPubkey| #[trigger]
                next[group_id].admins.contains(o) <==> match change {
                    OwnersChange::AddMembers => g.admins.contains(o),
                    OwnersChange::AddAdmins => g.admins.contains(o) || owners.contains(o),
                    _ => g.admins.contains(o) && !owners.contains(o),
                }
            &&& next[group_id].revision == g.revision + 1
            &&& next[group_id].updated_at == now
            &&& next[group_id].name == g.name
            &&& next[group_id].group_id == g.group_id
            &&& next[group_id].created_by == g.created_by
            &&& next[group_id].created_at == g.created_at
            &&& forall|other: Seq<char>|
                other != group_id ==> next.contains_key(other) == m.groups.contains_key(other)
                    && #[trigger] next[other] == m.groups[other]
        },
{
    if m.groups.contains_key(group_id) && owners.no_duplicates() {
        lemma_change_allowed(m.groups[group_id], m.owner, change, owners);
    }
}

/// Of new members the old ones are told who came, and the new ones get the
/// group as it is now. Of removed members all who were members are told, those
/// who were removed too. Of admins all members are told. Each is told once, and
/// the one who changed the group is not.
pub proof fn members_are_told_who_came_and_went(
    m: GroupsModel,
    group_id: Seq<char>,
    change: OwnersChange,
    owners: Seq<OwnerPubkey>,
    now: UnixSeconds,
)
    requires
        all_well_formed(m.groups),
        change_plan(m, group_id, change, owners, now) is Ok,
    ensures
        ({
            let g = m.groups[group_id];
            let (letters, _, next) = change_plan(m, group_id, change, owners, now)->Ok_0;
            &&& reaches_each(
                letters,
                if change is AddMembers {
                    g.members.union(owners.to_set()).remove(m.owner)
                } else {
                    g.members.remove(m.owner)
                },
            )
            &&& forall|i: int|
                0 <= i < letters.len() ==> if change is AddMembers && owners.contains(
                    (#[trigger] letters[i]).0,
                ) {
                    letters[i].1 matches GroupPayloadModel::Create { base_revision, group }
                        && base_revision == 0 && is_shown_by(next[group_id], group)
                } else {
                    letters[i].1 matches GroupPayloadModel::Owners {
                        change: told,
                        group_id: id,
                        base_revision,
                        new_revision,
                        owners: named,
                    } && told == change && id == group_id && base_revision == g.revision
                        && new_revision == g.revision + 1 && named.no_duplicates()
                        && named.to_set() == owners.to_set()
                }
        }),
{
    let g = m.groups[group_id];
    let set = owners.to_set();
    let (letters, _, next) = change_plan(m, group_id, change, owners, now)->Ok_0;
    vstd::seq_lib::seq_to_set_is_finite(owners);
    lemma_ordered(set);
    changed_groups_have_the_owners(m, group_id, change, owners, now);
    super::changing_keeps_groups_well_formed(m, group_id, change, owners, now);
    snapshots_show_the_group(next[group_id]);
    let p = change_payload(g, change, set, g.revision, next_revision(g.revision));
    if change is AddMembers {
        let known = g.members.remove(m.owner).difference(set);
        let fresh = set.remove(m.owner);
        let first = letters_to(ordered::<OwnerPubkey>(known), p);
        let second = letters_to(ordered::<OwnerPubkey>(fresh), create_payload(next[group_id]));
        lemma_letters(known, p);
        lemma_letters(fresh, create_payload(next[group_id]));
        let all = g.members.union(set).remove(m.owner);
        assert(letters == first + second);
        assert forall|i: int| 0 <= i < letters.len() implies {
            let l = #[trigger] letters[i];
            &&& all.contains(l.0)
            &&& i < first.len() ==> l == first[i] && known.contains(l.0) && !set.contains(l.0)
            &&& i >= first.len() ==> l == second[i - first.len()] && set.contains(l.0)
        } by {
            if i < first.len() {
                assert(letters[i] == first[i]);
            } else {
                assert(letters[i] == second[i - first.len()]);
            }
        }
        assert forall|i: int, j: int| 0 <= i < j < letters.len() implies (#[trigger] letters[i]).0
            != (#[trigger] letters[j]).0 by {
            if j < first.len() {
                assert(first[i].0 != first[j].0);
            } else if i >= first.len() {
                assert(second[i - first.len()].0 != second[j - first.len()].0);
            } else {
                assert(!set.contains(letters[i].0) && set.contains(letters[j].0));
            }
        }
        assert forall|o: OwnerPubkey| #[trigger] all.contains(o) implies exists|i: int|
            0 <= i < letters.len() && (#[trigger] letters[i]).0 == o by {
            if set.contains(o) {
                assert(fresh.contains(o));
                let k = choose|k: int| 0 <= k < second.len() && (#[trigger] second[k]).0 == o;
                assert(letters[first.len() + k].0 == o);
            } else {
                assert(known.contains(o));
                let k = choose|k: int| 0 <= k < first.len() && (#[trigger] first[k]).0 == o;
                assert(letters[k].0 == o);
            }
        }
        assert forall|i: int| 0 <= i < letters.len() implies (owners.contains(
            (#[trigger] letters[i]).0,
        ) <==> i >= first.len()) by {
            assert(set.contains(letters[i].0) <==> owners.contains(letters[i].0));
        }
    } else {
        lemma_letters(g.members.remove(m.owner), p);
        assert(next[group_id].members == g.members || change is RemoveMembers);
    }
}

/// A member with the same group that hears of a change, and a newcomer that
/// gets the group, have it then as the one who changed it, but for the time at
/// which a member that knew it heard of it.
pub proof fn members_follow_a_change(
    m: GroupsModel,
    group_id: Seq<char>,
    change: OwnersChange,
    owners: Seq<OwnerPubkey>,
    now: UnixSeconds,
    i: int,
    groups: Map<Seq<char>, GroupModel>,
)
    requires
        all_well_formed(m.groups),
        change_plan(m, group_id, change, owners, now) matches Ok((letters, _, _)) && 0 <= i
            < letters.len(),
        ({
            let letters = change_plan(m, group_id, change, owners, now)->Ok_0.0;
            if change is AddMembers && owners.contains(letters[i].0) {
                !groups.contains_key(group_id) && m.groups[group_id].created_by == m.owner
            } else {
                groups.contains_key(group_id) && groups[group_id] == m.groups[group_id]
            }
        }),
    ensures
        ({
            let (letters, _, next) = change_plan(m, group_id, change, owners, now)->Ok_0;
            heard(groups, m.owner, letters[i].1) matches Ok((known, event)) && {
                &&& known.contains_key(group_id)
                &&& known[group_id].name == next[group_id].name
                &&& known[group_id].members == next[group_id].members
                &&& known[group_id].admins == next[group_id].admins
                &&& known[group_id].revision == next[group_id].revision
                &&& known[group_id].group_id == next[group_id].group_id
                &&& known[group_id].created_by == next[group_id].created_by
                &&& known[group_id].created_at == next[group_id].created_at
                &&& known.remove(group_id) == groups.remove(group_id)
                &&& (event matches GroupEventModel::Metadata(shown) && is_shown_by(
                    known[group_id],
                    shown,
                ))
            }
        }),
{
    let g = m.groups[group_id];
    let set = owners.to_set();
    let (letters, _, next) = change_plan(m, group_id, change, owners, now)->Ok_0;
    vstd::seq_lib::seq_to_set_is_finite(owners);
    changed_groups_have_the_owners(m, group_id, change, owners, now);
    members_are_told_who_came_and_went(m, group_id, change, owners, now);
    super::changing_keeps_groups_well_formed(m, group_id, change, owners, now);
    let mine = next[group_id];
    if change is AddMembers && owners.contains(letters[i].0) {
        assert(mine.admins.contains(m.owner));
        assert(letters[i].1 == create_payload(mine)) by {
            lemma_told_of_the_whole(m, group_id, owners, now, i);
        }
        super::new_groups_reach_members(groups, mine, m.owner);
        assert(groups.insert(group_id, mine).remove(group_id) =~= groups.remove(group_id));
        snapshots_show_the_group(mine);
    } else {
        let named = letters[i].1->Owners_owners;
        lemma_change_allowed(g, m.owner, change, owners);
        super::changes_reach_members(groups, m.owner, change, named, group_id);
        let known = heard(groups, m.owner, letters[i].1)->Ok_0.0;
        assert(known.remove(group_id) =~= groups.remove(group_id));
        super::hearing_keeps_groups_well_formed(m.groups, m.owner, letters[i].1);
        super::changes_reach_members(m.groups, m.owner, change, named, group_id);
        snapshots_show_the_group(known[group_id]);
    }
}

proof fn lemma_told_of_the_whole(
    m: GroupsModel,
    group_id: Seq<char>,
    owners: Seq<OwnerPubkey>,
    now: UnixSeconds,
    i: int,
)
    requires
        all_well_formed(m.groups),
        change_plan(m, group_id, OwnersChange::AddMembers, owners, now) matches Ok((letters, _, _))
            && 0 <= i < letters.len() && owners.contains(letters[i].0),
    ensures
        ({
            let (letters, _, next) = change_plan(
                m,
                group_id,
                OwnersChange::AddMembers,
                owners,
                now,
            )->Ok_0;
            letters[i].1 == create_payload(next[group_id])
        }),
{
    let g = m.groups[group_id];
    let set = owners.to_set();
    vstd::seq_lib::seq_to_set_is_finite(owners);
    let known = g.members.remove(m.owner).difference(set);
    let p = change_payload(
        g,
        OwnersChange::AddMembers,
        set,
        g.revision,
        next_revision(g.revision),
    );
    lemma_letters(known, p);
    let first = letters_to(ordered::<OwnerPubkey>(known), p);
    let letters = change_plan(m, group_id, OwnersChange::AddMembers, owners, now)->Ok_0.0;
    if i < first.len() {
        assert(letters[i] == first[i]);
        assert(known.contains(first[i].0));
        assert(set.contains(letters[i].0));
    }
}

// ---------------------------------------------------------------------------
// What is heard
// ---------------------------------------------------------------------------

/// Whether all but one of some groups are as before.
pub open spec fn only_differs_in(
    before: Map<Seq<char>, GroupModel>,
    after: Map<Seq<char>, GroupModel>,
    id: Seq<char>,
) -> bool {
    forall|other: Seq<char>|
        other != id ==> after.contains_key(other) == before.contains_key(other)
            && #[trigger] after[other] == before[other]
}

/// A new name is taken over from an admin that knows the group at the same
/// revision and makes it the next, and from nobody else; where the group has
/// that name at such a revision already, nothing happens. Nothing but the name
/// and the revision changes, and the group is shown as it is then.
pub proof fn heard_names_are_taken_over(
    groups: Map<Seq<char>, GroupModel>,
    sender: OwnerPubkey,
    id: Seq<char>,
    base_revision: u64,
    new_revision: u64,
    name: Seq<char>,
)
    requires
        all_well_formed(groups),
    ensures
        ({
            let p = GroupPayloadModel::Rename { group_id: id, base_revision, new_revision, name };
            let g = groups[id];
            let done = g.revision >= new_revision && g.name == name;
            &&& heard(groups, sender, p) is Ok <==> groups.contains_key(id) && (done || (
            g.admins.contains(sender) && base_revision == g.revision && new_revision
                == base_revision + 1))
            &&& heard(groups, sender, p) matches Ok((next, event)) ==> {
                &&& next.contains_key(id)
                &&& done ==> next[id] == g
                &&& !done ==> next[id].revision == g.revision + 1
                &&& next[id].name == name
                &&& next[id].members == g.members
                &&& next[id].admins == g.admins
                &&& next[id].created_by == g.created_by
                &&& next[id].created_at == g.created_at
                &&& next[id].group_id == id
                &&& only_differs_in(groups, next, id)
                &&& (event matches GroupEventModel::Metadata(shown) && is_shown_by(next[id], shown))
            }
        }),
{
    let p = GroupPayloadModel::Rename { group_id: id, base_revision, new_revision, name };
    if let Ok((next, _)) = heard(groups, sender, p) {
        super::hearing_keeps_groups_well_formed(groups, sender, p);
        snapshots_show_the_group(next[id]);
    }
}

/// Whether a group is already as a change makes it.
pub open spec fn is_done(
    g: GroupModel,
    change: OwnersChange,
    owners: Seq<OwnerPubkey>,
    new_revision: u64,
) -> bool {
    g.revision >= new_revision && forall|o: OwnerPubkey| #[trigger]
        owners.contains(o) ==> match change {
            OwnersChange::AddMembers => g.members.contains(o),
            OwnersChange::RemoveMembers => !g.members.contains(o),
            OwnersChange::AddAdmins => g.admins.contains(o),
            OwnersChange::RemoveAdmins => !g.admins.contains(o),
        }
}

/// A change of members or admins is taken over from an admin that may make it,
/// knows the group at the same revision and makes it the next, and from nobody
/// else; where the group is so already, nothing happens. Just the named owners
/// come or go, and the group is shown as it is then.
pub proof fn heard_changes_are_taken_over(
    groups: Map<Seq<char>, GroupModel>,
    sender: OwnerPubkey,
    id: Seq<char>,
    change: OwnersChange,
    base_revision: u64,
    new_revision: u64,
    owners: Seq<OwnerPubkey>,
)
    requires
        all_well_formed(groups),
    ensures
        ({
            let p = GroupPayloadModel::Owners {
                change,
                group_id: id,
                base_revision,
                new_revision,
                owners,
            };
            let g = groups[id];
            let done = is_done(g, change, owners, new_revision);
            &&& heard(groups, sender, p) is Ok <==> owners.no_duplicates() && groups.contains_key(
                id,
            ) && (done || {
                &&& g.admins.contains(sender)
                &&& base_revision == g.revision
                &&& new_revision == base_revision + 1
                &&& owners.len() > 0
                &&& forall|o: OwnerPubkey| #[trigger]
                    owners.contains(o) ==> fits_change(g, change, o)
                &&& change is RemoveMembers ==> !owners.contains(sender)
                &&& change is RemoveAdmins ==> owners.len() < g.admins.len()
            })
            &&& heard(groups, sender, p) matches Ok((next, event)) ==> {
                &&& next.contains_key(id)
                &&& done ==> next[id] == g
                &&& !done ==> {
                    &&& next[id].revision == g.revision + 1
                    &&& forall|o: OwnerPubkey| #[trigger]
                        next[id].members.contains(o) <==> match change {
                            OwnersChange::AddMembers => g.members.contains(o) || owners.contains(o),
                            OwnersChange::RemoveMembers => g.members.contains(o)
                                && !owners.contains(o),
                            _ => g.members.contains(o),
                        }
                    &&& forall|o: OwnerPubkey| #[trigger]
                        next[id].admins.contains(o) <==> match change {
                            OwnersChange::AddMembers => g.admins.contains(o),
                            OwnersChange::AddAdmins => g.admins.contains(o) || owners.contains(o),
                            _ => g.admins.contains(o) && !owners.contains(o),
                        }
                }
                &&& next[id].name == g.name
                &&& next[id].created_by == g.created_by
                &&& next[id].created_at == g.created_at
                &&& next[id].group_id == id
                &&& only_differs_in(groups, next, id)
                &&& (event matches GroupEventModel::Metadata(shown) && is_shown_by(next[id], shown))
            }
        }),
{
    let p = GroupPayloadModel::Owners { change, group_id: id, base_revision, new_revision, owners };
    let g = groups[id];
    if groups.contains_key(id) && owners.no_duplicates() {
        lemma_change_allowed(g, sender, change, owners);
        assert(super::reflects(g, change, owners.to_set(), new_revision) == is_done(
            g,
            change,
            owners,
            new_revision,
        )) by {
            let set = owners.to_set();
            assert forall|o: OwnerPubkey| set.contains(o) <==> #[trigger] owners.contains(o) by {}
            if is_done(g, change, owners, new_revision) {
                assert forall|o: OwnerPubkey| set.contains(o) implies match change {
                    OwnersChange::AddMembers => g.members.contains(o),
                    OwnersChange::RemoveMembers => !g.members.contains(o),
                    OwnersChange::AddAdmins => g.admins.contains(o),
                    OwnersChange::RemoveAdmins => !g.admins.contains(o),
                } by {
                    assert(owners.contains(o));
                }
            }
            if super::reflects(g, change, set, new_revision) {
                assert forall|o: OwnerPubkey| #[trigger] owners.contains(o) implies match change {
                    OwnersChange::AddMembers => g.members.contains(o),
                    OwnersChange::RemoveMembers => !g.members.contains(o),
                    OwnersChange::AddAdmins => g.admins.contains(o),
                    OwnersChange::RemoveAdmins => !g.admins.contains(o),
                } by {
                    assert(set.contains(o));
                }
            }
        }
        if let Ok((next, _)) = heard(groups, sender, p) {
            super::hearing_keeps_groups_well_formed(groups, sender, p);
            snapshots_show_the_group(next[id]);
        }
    }
}

/// A message to a group is shown if its sender is a member and knows the group
/// at the same revision, and only then: with its body, its sender and the
/// revision. It changes no group.
pub proof fn heard_messages_are_shown(
    groups: Map<Seq<char>, GroupModel>,
    sender: OwnerPubkey,
    id: Seq<char>,
    revision: u64,
    body: Seq<u8>,
)
    ensures
        ({
            let p = GroupPayloadModel::Message { group_id: id, revision, body };
            &&& heard(groups, sender, p) is Ok <==> groups.contains_key(id)
                && groups[id].members.contains(sender) && groups[id].revision == revision
            &&& heard(groups, sender, p) matches Ok((next, event)) ==> next == groups && event
                == (GroupEventModel::Message { group_id: id, sender, body, revision })
        }),
{
}

/// A new group is taken over as it is told, from the owner that made it and is
/// one of its admins, if it has members and admins, each named once, and no
/// admin who is no member. One that is known is not taken over, and is heard of
/// again only as it is known.
pub proof fn heard_groups_are_taken_over(
    groups: Map<Seq<char>, GroupModel>,
    sender: OwnerPubkey,
    base_revision: u64,
    s: GroupSnapshotModel,
)
    requires
        all_well_formed(groups),
    ensures
        ({
            let p = GroupPayloadModel::Create { base_revision, group: s };
            let sound = {
                &&& s.members.no_duplicates()
                &&& s.admins.no_duplicates()
                &&& s.created_by == sender
                &&& s.revision > 0
                &&& s.admins.contains(sender)
                &&& forall|o: OwnerPubkey| #[trigger] s.admins.contains(o) ==> s.members.contains(o)
            };
            &&& heard(groups, sender, p) is Ok ==> sound
            &&& sound && !groups.contains_key(s.group_id) && base_revision == 0 ==> heard(
                groups,
                sender,
                p,
            ) is Ok
            &&& !groups.contains_key(s.group_id) && base_revision != 0 ==> heard(
                groups,
                sender,
                p,
            ) is Err
            &&& groups.contains_key(s.group_id) && !is_shown_by(groups[s.group_id], s) ==> heard(
                groups,
                sender,
                p,
            ) is Err
            &&& heard(groups, sender, p) matches Ok((next, event)) ==> {
                &&& next.contains_key(s.group_id)
                &&& is_shown_by(next[s.group_id], s)
                &&& only_differs_in(groups, next, s.group_id)
                &&& (event matches GroupEventModel::Metadata(shown) && is_shown_by(
                    next[s.group_id],
                    shown,
                ))
            }
        }),
{
    let p = GroupPayloadModel::Create { base_revision, group: s };
    let members = s.members.to_set();
    let admins = s.admins.to_set();
    vstd::seq_lib::seq_to_set_is_finite(s.members);
    vstd::seq_lib::seq_to_set_is_finite(s.admins);
    assert forall|o: OwnerPubkey| admins.contains(o) <==> #[trigger] s.admins.contains(o) by {}
    assert forall|o: OwnerPubkey| members.contains(o) <==> #[trigger] s.members.contains(o) by {}
    if s.admins.contains(sender) {
        assert(admins.contains(sender));
        if forall|o: OwnerPubkey| #[trigger] s.admins.contains(o) ==> s.members.contains(o) {
            assert(s.members.contains(sender));
            assert(members.contains(sender));
            assert(admins.subset_of(members)) by {
                assert forall|o: OwnerPubkey| admins.contains(o) implies members.contains(o) by {
                    assert(s.admins.contains(o));
                }
            }
        }
    }
    if admins.subset_of(members) {
        assert forall|o: OwnerPubkey| #[trigger] s.admins.contains(o) implies s.members.contains(
            o,
        ) by {
            assert(admins.contains(o));
            assert(members.contains(o));
        }
    }
    if let Ok((next, _)) = heard(groups, sender, p) {
        super::hearing_keeps_groups_well_formed(groups, sender, p);
        snapshots_show_the_group(next[s.group_id]);
        assert(next[s.group_id] == group_of(s));
    }
}

// ---------------------------------------------------------------------------
// Telling again
// ---------------------------------------------------------------------------

proof fn lemma_first_outside(owners: Seq<OwnerPubkey>, set: Set<OwnerPubkey>)
    ensures
        super::first_outside(owners, set) is None <==> forall|o: OwnerPubkey| #[trigger]
            owners.contains(o) ==> set.contains(o),
        super::first_inside(owners, set) is None <==> forall|o: OwnerPubkey| #[trigger]
            owners.contains(o) ==> !set.contains(o),
    decreases owners.len(),
{
    if owners.len() > 0 {
        let rest = owners.drop_first();
        lemma_first_outside(rest, set);
        assert forall|o: OwnerPubkey| #[trigger] owners.contains(o) <==> o == owners[0]
            || rest.contains(o) by {
            if owners.contains(o) && o != owners[0] {
                let i = choose|i: int| 0 <= i < owners.len() && owners[i] == o;
                assert(rest[i - 1] == o);
            }
            if rest.contains(o) {
                let i = choose|i: int| 0 <= i < rest.len() && rest[i] == o;
                assert(owners[i + 1] == o);
            }
        }
        assert(owners.contains(owners[0]));
        assert((forall|o: OwnerPubkey| #[trigger] owners.contains(o) ==> set.contains(o)) == (
        set.contains(owners[0]) && forall|o: OwnerPubkey| #[trigger]
            rest.contains(o) ==> set.contains(o))) by {
            if forall|o: OwnerPubkey| #[trigger] owners.contains(o) ==> set.contains(o) {
                assert forall|o: OwnerPubkey| #[trigger] rest.contains(o) implies set.contains(
                    o,
                ) by {
                    assert(owners.contains(o));
                }
            }
        }
        assert((forall|o: OwnerPubkey| #[trigger] owners.contains(o) ==> !set.contains(o)) == (
        !set.contains(owners[0]) && forall|o: OwnerPubkey| #[trigger]
            rest.contains(o) ==> !set.contains(o))) by {
            if forall|o: OwnerPubkey| #[trigger] owners.contains(o) ==> !set.contains(o) {
                assert forall|o: OwnerPubkey| #[trigger] rest.contains(o) implies !set.contains(
                    o,
                ) by {
                    assert(owners.contains(o));
                }
            }
        }
    }
}

/// An admin can tell members of a group of it again, and nobody else can: each
/// of those that are named, but not itself, gets the group as it is. No group
/// changes.
pub proof fn groups_can_be_told_again(
    m: GroupsModel,
    group_id: Seq<char>,
    recipients: Seq<OwnerPubkey>,
)
    requires
        all_well_formed(m.groups),
    ensures
        retry_create_plan(m, group_id, recipients) is Ok <==> {
            &&& m.groups.contains_key(group_id)
            &&& m.groups[group_id].admins.contains(m.owner)
            &&& recipients.no_duplicates()
            &&& forall|o: OwnerPubkey| #[trigger]
                recipients.contains(o) ==> o == m.owner || m.groups[group_id].members.contains(o)
        },
        retry_create_plan(m, group_id, recipients) matches Ok((letters, id, next)) ==> {
            &&& id == group_id
            &&& next == m.groups
            &&& reaches_each(letters, recipients.to_set().remove(m.owner))
            &&& forall|i: int|
                0 <= i < letters.len() ==> ((#[trigger] letters[i]).1
                    matches GroupPayloadModel::Create { base_revision, group } && base_revision == 0
                    && is_shown_by(m.groups[group_id], group))
        },
{
    vstd::seq_lib::seq_to_set_is_finite(recipients);
    let told = recipients.to_set().remove(m.owner);
    let order = ordered::<OwnerPubkey>(told);
    lemma_ordered(told);
    if m.groups.contains_key(group_id) {
        let g = m.groups[group_id];
        lemma_first_outside(order, g.members);
        if forall|o: OwnerPubkey| #[trigger]
            recipients.contains(o) ==> o == m.owner || g.members.contains(o) {
            assert forall|o: OwnerPubkey| #[trigger] order.contains(o) implies g.members.contains(
                o,
            ) by {
                assert(told.contains(o));
                assert(recipients.contains(o));
            }
        }
        if forall|o: OwnerPubkey| #[trigger] order.contains(o) ==> g.members.contains(o) {
            assert forall|o: OwnerPubkey| #[trigger] recipients.contains(o) implies o == m.owner
                || g.members.contains(o) by {
                if o != m.owner {
                    assert(told.contains(o));
                    assert(order.contains(o));
                }
            }
        }
        lemma_letters(told, create_payload(g));
        snapshots_show_the_group(g);
    }
}

/// The last name of a group, and who came or went with its last revision, can
/// be told again by an admin, and by nobody else, once there was a change. The
/// members get what they were told then; who came gets the group as it is, and
/// who went is told too. No group changes.
pub proof fn changes_can_be_told_again(
    m: GroupsModel,
    group_id: Seq<char>,
    owners: Seq<OwnerPubkey>,
)
    requires
        all_well_formed(m.groups),
    ensures
        ({
            let g = m.groups[group_id];
            let may = m.groups.contains_key(group_id) && g.admins.contains(m.owner) && g.revision
                >= 2;
            let base = (g.revision - 1) as u64;
            &&& retry_rename_plan(m, group_id) is Ok <==> may
            &&& retry_rename_plan(m, group_id) matches Ok((letters, id, next)) ==> {
                &&& id == group_id && next == m.groups
                &&& reaches_each(letters, g.members.remove(m.owner))
                &&& all_say(
                    letters,
                    GroupPayloadModel::Rename {
                        group_id,
                        base_revision: base,
                        new_revision: g.revision,
                        name: g.name,
                    },
                )
            }
            &&& retry_add_plan(m, group_id, owners) is Ok <==> may && owners.no_duplicates()
                && forall|o: OwnerPubkey| #[trigger] owners.contains(o) ==> g.members.contains(o)
            &&& retry_add_plan(m, group_id, owners) matches Ok((letters, id, next)) ==> {
                &&& id == group_id && next == m.groups
                &&& reaches_each(letters, g.members.remove(m.owner))
                &&& forall|i: int|
                    0 <= i < letters.len() ==> if owners.contains((#[trigger] letters[i]).0) {
                        letters[i].1 matches GroupPayloadModel::Create { base_revision, group }
                            && base_revision == 0 && is_shown_by(g, group)
                    } else {
                        tells_change(
                            letters[i].1,
                            OwnersChange::AddMembers,
                            group_id,
                            base,
                            g.revision,
                            owners,
                        )
                    }
            }
            &&& retry_remove_plan(m, group_id, owners) is Ok <==> may && owners.no_duplicates()
                && forall|o: OwnerPubkey| #[trigger] owners.contains(o) ==> !g.members.contains(o)
            &&& retry_remove_plan(m, group_id, owners) matches Ok((letters, id, next)) ==> {
                &&& id == group_id && next == m.groups
                &&& reaches_each(letters, g.members.union(owners.to_set()).remove(m.owner))
                &&& forall|i: int|
                    0 <= i < letters.len() ==> tells_change(
                        (#[trigger] letters[i]).1,
                        OwnersChange::RemoveMembers,
                        group_id,
                        base,
                        g.revision,
                        owners,
                    )
            }
        }),
{
    let g = m.groups[group_id];
    if m.groups.contains_key(group_id) && g.admins.contains(m.owner) && g.revision >= 2 {
        let base = (g.revision - 1) as u64;
        let set = owners.to_set();
        vstd::seq_lib::seq_to_set_is_finite(owners);
        lemma_ordered(set);
        let order = ordered::<OwnerPubkey>(set);
        assert forall|o: OwnerPubkey| #[trigger] order.contains(o) <==> owners.contains(o) by {
            assert(set.contains(o) <==> owners.contains(o));
        }
        lemma_first_outside(order, g.members);
        lemma_same_members(order, owners, g.members);
        lemma_letters(
            g.members.remove(m.owner),
            GroupPayloadModel::Rename {
                group_id,
                base_revision: base,
                new_revision: g.revision,
                name: g.name,
            },
        );
        snapshots_show_the_group(g);
        let add = change_payload(g, OwnersChange::AddMembers, set, base, g.revision);
        let remove = change_payload(g, OwnersChange::RemoveMembers, set, base, g.revision);
        lemma_letters(g.members.union(set).remove(m.owner), remove);
        if let Ok((letters, _, _)) = retry_add_plan(m, group_id, owners) {
            let known = g.members.remove(m.owner).difference(set);
            let fresh = set.remove(m.owner);
            let first = letters_to(ordered::<OwnerPubkey>(known), add);
            let second = letters_to(ordered::<OwnerPubkey>(fresh), create_payload(g));
            lemma_letters(known, add);
            lemma_letters(fresh, create_payload(g));
            let all = g.members.remove(m.owner);
            lemma_two_parts(first, second, known, fresh, all);
            assert forall|i: int| 0 <= i < letters.len() implies (owners.contains(
                (#[trigger] letters[i]).0,
            ) <==> i >= first.len()) by {
                assert(set.contains(letters[i].0) <==> owners.contains(letters[i].0));
                if i < first.len() {
                    assert(letters[i] == first[i]);
                    assert(known.contains(first[i].0));
                } else {
                    assert(letters[i] == second[i - first.len()]);
                    assert(fresh.contains(second[i - first.len()].0));
                }
            }
        }
    }
}

/// Whether a payload tells that owners came or went.
pub open spec fn tells_change(
    p: GroupPayloadModel,
    change: OwnersChange,
    group_id: Seq<char>,
    base_revision: u64,
    new_revision: u64,
    owners: Seq<OwnerPubkey>,
) -> bool {
    p matches GroupPayloadModel::Owners {
        change: told,
        group_id: id,
        base_revision: base,
        new_revision: next,
        owners: named,
    } && told == change && id == group_id && base == base_revision && next == new_revision
        && named.no_duplicates() && named.to_set() == owners.to_set()
}

proof fn lemma_same_members(a: Seq<OwnerPubkey>, b: Seq<OwnerPubkey>, set: Set<OwnerPubkey>)
    requires
        forall|o: OwnerPubkey| #[trigger] a.contains(o) <==> b.contains(o),
    ensures
        (forall|o: OwnerPubkey| #[trigger] a.contains(o) ==> set.contains(o)) <==> (forall|
            o: OwnerPubkey,
        | #[trigger]
            b.contains(o) ==> set.contains(o)),
        (forall|o: OwnerPubkey| #[trigger] a.contains(o) ==> !set.contains(o)) <==> (forall|
            o: OwnerPubkey,
        | #[trigger]
            b.contains(o) ==> !set.contains(o)),
{
    if forall|o: OwnerPubkey| #[trigger] a.contains(o) ==> set.contains(o) {
        assert forall|o: OwnerPubkey| #[trigger] b.contains(o) implies set.contains(o) by {
            assert(a.contains(o));
        }
    }
    if forall|o: OwnerPubkey| #[trigger] a.contains(o) ==> !set.contains(o) {
        assert forall|o: OwnerPubkey| #[trigger] b.contains(o) implies !set.contains(o) by {
            assert(a.contains(o));
        }
    }
}

proof fn lemma_two_parts(
    first: Seq<(OwnerPubkey, GroupPayloadModel)>,
    second: Seq<(OwnerPubkey, GroupPayloadModel)>,
    some: Set<OwnerPubkey>,
    others: Set<OwnerPubkey>,
    all: Set<OwnerPubkey>,
)
    requires
        reaches_each(first, some),
        reaches_each(second, others),
        forall|o: OwnerPubkey| #[trigger] some.contains(o) ==> !others.contains(o),
        forall|o: OwnerPubkey| #[trigger]
            all.contains(o) <==> some.contains(o) || others.contains(o),
    ensures
        reaches_each(first + second, all),
{
    let letters = first + second;
    assert forall|i: int| 0 <= i < letters.len() implies all.contains((#[trigger] letters[i]).0) by {
        if i < first.len() {
            assert(letters[i] == first[i]);
        } else {
            assert(letters[i] == second[i - first.len()]);
            assert(others.contains(second[i - first.len()].0));
        }
    }
    assert forall|i: int, j: int| 0 <= i < j < letters.len() implies (#[trigger] letters[i]).0 != (
    #[trigger] letters[j]).0 by {
        if j < first.len() {
            assert(first[i].0 != first[j].0);
        } else if i >= first.len() {
            assert(second[i - first.len()].0 != second[j - first.len()].0);
        } else {
            assert(some.contains(first[i].0));
            assert(others.contains(second[j - first.len()].0));
        }
    }
    assert forall|o: OwnerPubkey| #[trigger] all.contains(o) implies exists|i: int|
        0 <= i < letters.len() && (#[trigger] letters[i]).0 == o by {
        if some.contains(o) {
            let k = choose|k: int| 0 <= k < first.len() && (#[trigger] first[k]).0 == o;
            assert(letters[k].0 == o);
        } else {
            assert(others.contains(o));
            let k = choose|k: int| 0 <= k < second.len() && (#[trigger] second[k]).0 == o;
            assert(letters[first.len() + k].0 == o);
        }
    }
}

// ---------------------------------------------------------------------------
// Carrying out
// ---------------------------------------------------------------------------

/// Whether a prepared message for a group holds all that was prepared for one
/// of its members.
pub open spec fn holds_all_of(whole: GroupPreparedSend, part: PreparedSend) -> bool {
    &&& forall|k: int|
        0 <= k < part.deliveries@.len() ==> whole.deliveries@.contains(
            #[trigger] part.deliveries@[k],
        )
    &&& forall|k: int|
        0 <= k < part.invite_responses@.len() ==> whole.invite_responses@.contains(
            #[trigger] part.invite_responses@[k],
        )
    &&& forall|k: int|
        0 <= k < part.relay_gaps@.len() ==> gap_models(whole.relay_gaps@).contains(
            (#[trigger] part.relay_gaps@[k])@,
        )
}

/// Whether an owner was written to: something was prepared for all its devices
/// and is part of the whole.
pub open spec fn written_to(
    whole: GroupPreparedSend,
    part: PreparedSend,
    owner: OwnerPubkey,
    p: GroupPayloadModel,
    before: ManagerModel,
    after: ManagerModel,
    now: UnixSeconds,
) -> bool {
    &&& prepares(before, after, now, owner, audience(before, owner), payload_bytes(p), Ok(part))
    &&& part.recipient_owner == owner
    &&& part.payload@ == payload_bytes(p)
    &&& holds_all_of(whole, part)
}

/// Whether an owner was written to with the state of the sessions at some time.
pub open spec fn gets_letter(
    whole: GroupPreparedSend,
    owner: OwnerPubkey,
    p: GroupPayloadModel,
    now: UnixSeconds,
) -> bool {
    exists|part: PreparedSend, before: ManagerModel, after: ManagerModel| #[trigger]
        written_to(whole, part, owner, p, before, after, now)
}

proof fn lemma_all_parts(sends: Seq<PreparedSend>, i: int)
    requires
        0 <= i < sends.len(),
    ensures
        forall|k: int|
            0 <= k < sends[i].deliveries@.len() ==> all_deliveries(sends).contains(
                #[trigger] sends[i].deliveries@[k],
            ),
        forall|k: int|
            0 <= k < sends[i].invite_responses@.len() ==> all_responses(sends).contains(
                #[trigger] sends[i].invite_responses@[k],
            ),
        forall|k: int|
            0 <= k < sends[i].relay_gaps@.len() ==> all_gaps(sends).contains(
                (#[trigger] sends[i].relay_gaps@[k])@,
            ),
    decreases sends.len(),
{
    let fewer = sends.drop_last();
    let last = sends.last();
    let a = all_deliveries(fewer);
    let b = all_responses(fewer);
    if i < fewer.len() {
        lemma_all_parts(fewer, i);
        assert(fewer[i] == sends[i]);
        assert forall|k: int| 0 <= k < sends[i].deliveries@.len() implies all_deliveries(
            sends,
        ).contains(#[trigger] sends[i].deliveries@[k]) by {
            let j = choose|j: int| 0 <= j < a.len() && a[j] == sends[i].deliveries@[k];
            assert(all_deliveries(sends)[j] == sends[i].deliveries@[k]);
        }
        assert forall|k: int| 0 <= k < sends[i].invite_responses@.len() implies all_responses(
            sends,
        ).contains(#[trigger] sends[i].invite_responses@[k]) by {
            let j = choose|j: int| 0 <= j < b.len() && b[j] == sends[i].invite_responses@[k];
            assert(all_responses(sends)[j] == sends[i].invite_responses@[k]);
        }
    } else {
        assert forall|k: int| 0 <= k < last.deliveries@.len() implies all_deliveries(
            sends,
        ).contains(#[trigger] last.deliveries@[k]) by {
            assert(all_deliveries(sends)[a.len() + k] == last.deliveries@[k]);
        }
        assert forall|k: int| 0 <= k < last.invite_responses@.len() implies all_responses(
            sends,
        ).contains(#[trigger] last.invite_responses@[k]) by {
            assert(all_responses(sends)[b.len() + k] == last.invite_responses@[k]);
        }
        assert forall|k: int| 0 <= k < last.relay_gaps@.len() implies all_gaps(sends).contains(
            (#[trigger] last.relay_gaps@[k])@,
        ) by {
            assert(gap_models(last.relay_gaps@)[k] == last.relay_gaps@[k]@);
            assert(gap_models(last.relay_gaps@).to_set().contains(last.relay_gaps@[k]@));
        }
    }
}

proof fn lemma_gaps_finite(sends: Seq<PreparedSend>)
    ensures
        all_gaps(sends).finite(),
    decreases sends.len(),
{
    if sends.len() > 0 {
        lemma_gaps_finite(sends.drop_last());
        vstd::seq_lib::seq_to_set_is_finite(gap_models(sends.last().relay_gaps@));
    }
}

/// What is planned is carried out in full: every owner to whom a letter goes is
/// written to with it, and what was prepared for it, its messages, its
/// responses and what is missing, is part of what comes out. The groups are
/// then as planned. Where something fails, or is refused, they stay as they
/// are.
pub proof fn plans_are_carried_out_in_full(
    groups: GroupsModel,
    groups_after: GroupsModel,
    sessions: ManagerModel,
    sessions_after: ManagerModel,
    now: UnixSeconds,
    plan: GroupPlan,
    r: Result<GroupPreparedSend, Error>,
)
    requires
        performs(groups, groups_after, sessions, sessions_after, now, plan, r),
    ensures
        groups_after.owner == groups.owner,
        r is Err ==> groups_after == groups,
        plan is Err ==> r is Err && sessions_after == sessions,
        r matches Ok(whole) ==> {
            let (letters, id, next) = plan->Ok_0;
            &&& plan is Ok
            &&& groups_after.groups == next
            &&& whole.group_id@ == id
            &&& forall|i: int|
                0 <= i < letters.len() ==> gets_letter(
                    whole,
                    (#[trigger] letters[i]).0,
                    letters[i].1,
                    now,
                )
        },
{
    if r is Ok {
        let whole = r->Ok_0;
        let (letters, id, next) = plan->Ok_0;
        let (states, sends) = choose|states: Seq<ManagerModel>, sends: Seq<PreparedSend>| #[trigger]
            gathers(sessions, sessions_after, now, letters, states, sends, id, whole);
        lemma_gaps_finite(sends);
        crate::collections::ordered_lists::<RelayGap>(all_gaps(sends));
        let order = ordered::<RelayGap>(all_gaps(sends));
        assert forall|i: int| 0 <= i < letters.len() implies gets_letter(
            whole,
            (#[trigger] letters[i]).0,
            letters[i].1,
            now,
        ) by {
            assert(step_carried(now, letters, states, sends, i));
            lemma_all_parts(sends, i);
            assert forall|k: int| 0 <= k < sends[i].relay_gaps@.len() implies gap_models(
                whole.relay_gaps@,
            ).contains((#[trigger] sends[i].relay_gaps@[k])@) by {
                assert(all_gaps(sends).contains(sends[i].relay_gaps@[k]@));
                assert(order.contains(sends[i].relay_gaps@[k]@));
            }
            assert(holds_all_of(whole, sends[i]));
            assert(written_to(
                whole,
                sends[i],
                letters[i].0,
                letters[i].1,
                states[i],
                states[i + 1],
                now,
            ));
        }
    }
}

/// What a member tells is heard as it stands in its bytes: what takes effect is
/// shown, what is refused changes nothing, and what does not speak of a group is
/// passed over.
pub proof fn what_members_tell_is_heard(
    before: GroupsModel,
    after: GroupsModel,
    sender: OwnerPubkey,
    payload: Seq<u8>,
    r: Result<Option<GroupIncomingEvent>, Error>,
)
    requires
        handles(before, after, sender, payload, r),
    ensures
        after.owner == before.owner,
        payload_of_bytes(payload) is None ==> after == before && r is Ok && r->Ok_0 is None,
        payload_of_bytes(payload) matches Some(p) ==> {
            &&& heard(before.groups, sender, p) is Err ==> after == before && r is Err
            &&& heard(before.groups, sender, p) matches Ok((groups, event)) ==> after.groups
                == groups && r is Ok && r->Ok_0 is Some && r->Ok_0->Some_0@ == event
        },
{
}

} // verus!
