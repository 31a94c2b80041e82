//! Making and changing groups, and writing to them.
use vstd::prelude::*;
use super::effects::RuntimePublishResult;
use super::groups::{
    goals, pending_goals, tells, RuntimeGroupCreateResult, RuntimeGroupSnapshotResult,
};
use super::outbox::{moment, CoreModel, Moment, RuntimeCore};
use super::store::{copy_bytes, FanoutGoal, GroupPendingFanout, StateModel};
use crate::collections::{views, VecSet};
use crate::encoding::hex_text;
use crate::error::{DomainError, Error};
use crate::group::{copy_owners, GroupCreateResult, GroupPreparedSend};
use crate::group_manager::{
    change_payload, change_plan, create_payload, creates, message_plan, new_group, next_revision,
    performs, rename_plan, snapshot_of, GroupModel, GroupPlan,
};
use crate::group_wire::{payload_bytes, GroupPayload, GroupPayloadModel, OwnersChange};
use crate::ids::OwnerPubkey;
use crate::rumor::text_of;
use crate::session_manager::{gap_models, listed_owners};
use crate::types::ProtocolContext;

verus! {

/// Whether a plan was carried out on sessions and groups, and on nothing else.
pub open spec fn carries_out(
    before: CoreModel,
    mid: CoreModel,
    at: Moment,
    plan: GroupPlan,
    sent: Result<GroupPreparedSend, Error>,
) -> bool {
    &&& performs(
        before.state.groups,
        mid.state.groups,
        before.state.core,
        mid.state.core,
        at.secs,
        plan,
        sent,
    )
    &&& only_groups(before, mid)
}

/// Whether nothing but sessions and groups differs.
pub open spec fn only_groups(before: CoreModel, mid: CoreModel) -> bool {
    mid == (CoreModel {
        state: StateModel {
            core: mid.state.core,
            groups: mid.state.groups,
            ..before.state
        },
        ..before
    })
}

/// What is to be told once more when a message to a group could not reach all:
/// the own devices and the members get the same.
pub open spec fn same_for_all(
    c: CoreModel,
    sent: GroupPreparedSend,
    p: GroupPayloadModel,
) -> Seq<FanoutGoal> {
    goals(
        gap_models(sent.relay_gaps@),
        c.state.core.owner,
        Set::empty(),
        payload_bytes(p),
        payload_bytes(p),
    )
}

/// Whether a group was changed and its members were told.
pub open spec fn told_of_change(
    mid: CoreModel,
    after: CoreModel,
    at: Moment,
    group_id: Seq<char>,
    sent: GroupPreparedSend,
    pending: Seq<FanoutGoal>,
    listens: bool,
    r: Result<RuntimeGroupSnapshotResult, Error>,
) -> bool {
    exists|t: Result<RuntimePublishResult, Error>| #[trigger]
        tells(mid, after, at.millis, sent, pending, None, listens, t) && match t {
            Err(e) => r == Err::<RuntimeGroupSnapshotResult, Error>(e),
            Ok(published) => r matches Ok(result) && result.snapshot@ == snapshot_of(
                mid.state.groups.groups[group_id],
            ) && views(result.effects@) == published@.effects,
        }
}

/// What members are told of a new name.
pub open spec fn name_payload(g: GroupModel, name: Seq<char>) -> GroupPayloadModel {
    GroupPayloadModel::Rename {
        group_id: g.group_id,
        base_revision: g.revision,
        new_revision: next_revision(g.revision),
        name,
    }
}

/// Whether a group was given a name.
pub open spec fn renames(
    before: CoreModel,
    after: CoreModel,
    at: Moment,
    group_id: Seq<char>,
    name: Seq<char>,
    r: Result<RuntimeGroupSnapshotResult, Error>,
) -> bool {
    exists|mid: CoreModel, sent: Result<GroupPreparedSend, Error>| #[trigger]
        carries_out(
            before,
            mid,
            at,
            rename_plan(before.state.groups, group_id, name, at.secs),
            sent,
        ) && match sent {
            Err(e) => after == mid && r == Err::<RuntimeGroupSnapshotResult, Error>(e),
            Ok(prepared) => told_of_change(
                mid,
                after,
                at,
                group_id,
                prepared,
                same_for_all(
                    mid,
                    prepared,
                    name_payload(before.state.groups.groups[group_id], name),
                ),
                false,
                r,
            ),
        }
}

/// What has still to be told of new or former members and admins. Newcomers are
/// told of the whole group.
pub open spec fn change_goals(
    before: CoreModel,
    mid: CoreModel,
    at: Moment,
    group_id: Seq<char>,
    change: OwnersChange,
    owners: Seq<OwnerPubkey>,
    sent: GroupPreparedSend,
) -> Seq<FanoutGoal> {
    let g = before.state.groups.groups[group_id];
    let set = owners.to_set();
    let revision = next_revision(g.revision);
    goals(
        gap_models(sent.relay_gaps@),
        mid.state.core.owner,
        if change is AddMembers {
            set
        } else {
            Set::empty()
        },
        payload_bytes(create_payload(mid.state.groups.groups[group_id])),
        payload_bytes(change_payload(g, change, set, g.revision, revision)),
    )
}

/// Whether the members or admins of a group were changed.
pub open spec fn changes_owners(
    before: CoreModel,
    after: CoreModel,
    at: Moment,
    group_id: Seq<char>,
    change: OwnersChange,
    owners: Seq<OwnerPubkey>,
    r: Result<RuntimeGroupSnapshotResult, Error>,
) -> bool {
    exists|mid: CoreModel, sent: Result<GroupPreparedSend, Error>| #[trigger]
        carries_out(
            before,
            mid,
            at,
            change_plan(before.state.groups, group_id, change, owners, at.secs),
            sent,
        ) && match sent {
            Err(e) => after == mid && r == Err::<RuntimeGroupSnapshotResult, Error>(e),
            Ok(prepared) => told_of_change(
                mid,
                after,
                at,
                group_id,
                prepared,
                change_goals(before, mid, at, group_id, change, owners, prepared),
                change is AddMembers,
                r,
            ),
        }
}

/// Whether a message was written to a group.
pub open spec fn writes_to_group(
    before: CoreModel,
    after: CoreModel,
    at: Moment,
    group_id: Seq<char>,
    body: Seq<u8>,
    inner: Option<Seq<char>>,
    r: Result<RuntimePublishResult, Error>,
) -> bool {
    exists|mid: CoreModel, sent: Result<GroupPreparedSend, Error>| #[trigger]
        carries_out(before, mid, at, message_plan(before.state.groups, group_id, body), sent)
            && match sent {
            Err(e) => after == mid && r == Err::<RuntimePublishResult, Error>(e),
            Ok(prepared) => {
                let g = before.state.groups.groups[group_id];
                tells(
                    mid,
                    after,
                    at.millis,
                    prepared,
                    same_for_all(
                        mid,
                        prepared,
                        GroupPayloadModel::Message {
                            group_id: g.group_id,
                            revision: g.revision,
                            body,
                        },
                    ),
                    inner,
                    true,
                    r,
                )
            },
        }
}

/// Whether a group was made, under an identifier.
pub open spec fn made_as(
    before: CoreModel,
    mid: CoreModel,
    at: Moment,
    group_id: Seq<char>,
    name: Seq<char>,
    members: Seq<OwnerPubkey>,
    made: Result<GroupCreateResult, Error>,
) -> bool {
    &&& creates(
        before.state.groups,
        mid.state.groups,
        before.state.core,
        mid.state.core,
        at.secs,
        group_id,
        name,
        members,
        made,
    )
    &&& only_groups(before, mid)
}

/// Whether a group was made and its members were told. Its identifier is left
/// to chance.
pub open spec fn makes_group(
    before: CoreModel,
    after: CoreModel,
    at: Moment,
    name: Seq<char>,
    members: Seq<OwnerPubkey>,
    r: Result<RuntimeGroupCreateResult, Error>,
) -> bool {
    exists|mid: CoreModel, bytes: [u8; 16], made: Result<GroupCreateResult, Error>| #[trigger]
        made_as(before, mid, at, hex_text(bytes@), name, members, made) && match made {
            Err(e) => after == mid && r == Err::<RuntimeGroupCreateResult, Error>(e),
            Ok(outcome) => told_of_group(
                mid,
                after,
                at,
                new_group(before.state.groups, hex_text(bytes@), name, members, at.secs),
                outcome,
                r,
            ),
        }
}

pub open spec fn told_of_group(
    mid: CoreModel,
    after: CoreModel,
    at: Moment,
    g: GroupModel,
    outcome: GroupCreateResult,
    r: Result<RuntimeGroupCreateResult, Error>,
) -> bool {
    exists|t: Result<RuntimePublishResult, Error>| #[trigger]
        tells(
            mid,
            after,
            at.millis,
            outcome.prepared,
            same_for_all(mid, outcome.prepared, create_payload(g)),
            None,
            true,
            t,
        ) && match t {
            Err(e) => r == Err::<RuntimeGroupCreateResult, Error>(e),
            Ok(published) => r matches Ok(result) && result.outcome == outcome && views(
                result.effects@,
            ) == published@.effects,
        }
}

impl RuntimeCore {
    /// Tells of a change and shows the group as it is now.
    fn tell_of_change(
        &mut self,
        ctx: &mut ProtocolContext<'_>,
        group_id: &str,
        sent: &GroupPreparedSend,
        pending: Vec<GroupPendingFanout>,
        listens: bool,
    ) -> (r: Result<RuntimeGroupSnapshotResult, Error>)
        requires
            old(self)@.state.groups.groups.contains_key(group_id@),
        ensures
            moment(*final(ctx)) == moment(*old(ctx)),
            told_of_change(
                old(self)@,
                final(self)@,
                moment(*old(ctx)),
                group_id@,
                *sent,
                views(pending@),
                listens,
                r,
            ),
    {
        let snapshot = match self.state.group_manager.group(group_id) {
            Some(snapshot) => snapshot,
            None => {
                assert(false);
                return Err(Error::Domain(DomainError::InvalidState("unknown group".to_string())));
            },
        };
        let none: Option<String> = None;
        let now_millis = ctx.now_millis;
        let t = self.tell(sent, &pending, &none, now_millis, listens);
        let ghost whole = t;
        assert(tells(
            old(self)@,
            self@,
            moment(*old(ctx)).millis,
            *sent,
            views(pending@),
            None,
            listens,
            whole,
        ));
        match t {
            Err(e) => Err(e),
            Ok(published) => Ok(
                RuntimeGroupSnapshotResult { snapshot, effects: published.effects },
            ),
        }
    }

    fn goals_for_all(&self, sent: &GroupPreparedSend, payload: &GroupPayload) -> (r: Vec<
        GroupPendingFanout,
    >)
        ensures
            views(r@) == same_for_all(self@, *sent, payload@),
    {
        let nobody: VecSet<OwnerPubkey> = VecSet::new();
        let bytes = payload.to_bytes();
        pending_goals(
            &sent.relay_gaps,
            self.state.core.local_owner_pubkey(),
            &nobody,
            &bytes,
            &bytes,
        )
    }

    pub fn update_group_name(
        &mut self,
        ctx: &mut ProtocolContext<'_>,
        group_id: &str,
        name: String,
    ) -> (r: Result<RuntimeGroupSnapshotResult, Error>)
        ensures
            moment(*final(ctx)) == moment(*old(ctx)),
            renames(old(self)@, final(self)@, moment(*old(ctx)), group_id@, name@, r),
    {
        let ghost before = self@;
        let ghost at = moment(*ctx);
        let known = self.state.group_manager.group(group_id);
        let sent = self.state.group_manager.update_name(
            &mut self.state.core,
            ctx,
            group_id,
            name.clone(),
        );
        let ghost whole = sent;
        let ghost mid = self@;
        assert(carries_out(
            before,
            mid,
            at,
            rename_plan(before.state.groups, group_id@, name@, at.secs),
            whole,
        ));
        let prepared = match sent {
            Ok(prepared) => prepared,
            Err(e) => {
                return Err(e);
            },
        };
        let (own_id, base_revision) = match known {
            Some(group) => (group.group_id, group.revision),
            None => {
                assert(false);
                vstd::pervasive::unreached()
            },
        };
        let new_revision: u64 = if base_revision < u64::MAX {
            base_revision + 1
        } else {
            base_revision
        };
        let payload = GroupPayload::Rename { group_id: own_id, base_revision, new_revision, name };
        assert(payload@ == name_payload(before.state.groups.groups[group_id@], name@));
        let pending = self.goals_for_all(&prepared, &payload);
        self.tell_of_change(ctx, group_id, &prepared, pending, false)
    }

    /// Changes the members or the admins of a group.
    pub fn change_group_owners(
        &mut self,
        ctx: &mut ProtocolContext<'_>,
        group_id: &str,
        change: OwnersChange,
        owners: Vec<OwnerPubkey>,
    ) -> (r: Result<RuntimeGroupSnapshotResult, Error>)
        ensures
            moment(*final(ctx)) == moment(*old(ctx)),
            changes_owners(
                old(self)@,
                final(self)@,
                moment(*old(ctx)),
                group_id@,
                change,
                owners@,
                r,
            ),
    {
        let ghost before = self@;
        let ghost at = moment(*ctx);
        let known = self.state.group_manager.group(group_id);
        let list = copy_owners(&owners);
        let sent = match change {
            OwnersChange::AddMembers => self.state.group_manager.add_members(
                &mut self.state.core,
                ctx,
                group_id,
                list,
            ),
            OwnersChange::RemoveMembers => self.state.group_manager.remove_members(
                &mut self.state.core,
                ctx,
                group_id,
                list,
            ),
            OwnersChange::AddAdmins => self.state.group_manager.add_admins(
                &mut self.state.core,
                ctx,
                group_id,
                list,
            ),
            OwnersChange::RemoveAdmins => self.state.group_manager.remove_admins(
                &mut self.state.core,
                ctx,
                group_id,
                list,
            ),
        };
        let ghost whole = sent;
        let ghost mid = self@;
        assert(carries_out(
            before,
            mid,
            at,
            change_plan(before.state.groups, group_id@, change, owners@, at.secs),
            whole,
        ));
        let prepared = match sent {
            Ok(prepared) => prepared,
            Err(e) => {
                return Err(e);
            },
        };
        let (own_id, base_revision) = match known {
            Some(group) => (group.group_id, group.revision),
            None => {
                assert(false);
                vstd::pervasive::unreached()
            },
        };
        let new_revision: u64 = if base_revision < u64::MAX {
            base_revision + 1
        } else {
            base_revision
        };
        let set = set_of(&owners);
        let payload = GroupPayload::Owners {
            change,
            group_id: own_id,
            base_revision,
            new_revision,
            owners: listed_owners(&set),
        };
        let ghost g = before.state.groups.groups[group_id@];
        assert(payload@ == change_payload(
            g,
            change,
            owners@.to_set(),
            g.revision,
            next_revision(g.revision),
        ));
        let group = match self.state.group_manager.group(group_id) {
            Some(group) => group,
            None => {
                assert(false);
                vstd::pervasive::unreached()
            },
        };
        let whole_group = GroupPayload::Create { base_revision: 0, group };
        assert(whole_group@ == create_payload(mid.state.groups.groups[group_id@]));
        let newcomers = match change {
            OwnersChange::AddMembers => set,
            _ => VecSet::new(),
        };
        let pending = pending_goals(
            &prepared.relay_gaps,
            self.state.core.local_owner_pubkey(),
            &newcomers,
            &whole_group.to_bytes(),
            &payload.to_bytes(),
        );
        assert(views(pending@) == change_goals(
            before,
            mid,
            at,
            group_id@,
            change,
            owners@,
            prepared,
        ));
        let listens = match change {
            OwnersChange::AddMembers => true,
            _ => false,
        };
        self.tell_of_change(ctx, group_id, &prepared, pending, listens)
    }

    pub fn send_group_message(
        &mut self,
        ctx: &mut ProtocolContext<'_>,
        group_id: &str,
        payload: Vec<u8>,
        inner_event_id: Option<String>,
    ) -> (r: Result<RuntimePublishResult, Error>)
        ensures
            moment(*final(ctx)) == moment(*old(ctx)),
            writes_to_group(
                old(self)@,
                final(self)@,
                moment(*old(ctx)),
                group_id@,
                payload@,
                text_of(inner_event_id),
                r,
            ),
    {
        let ghost before = self@;
        let ghost at = moment(*ctx);
        let known = self.state.group_manager.group(group_id);
        let sent = self.state.group_manager.send_message(
            &mut self.state.core,
            ctx,
            group_id,
            copy_bytes(&payload),
        );
        let ghost whole = sent;
        let ghost mid = self@;
        assert(carries_out(
            before,
            mid,
            at,
            message_plan(before.state.groups, group_id@, payload@),
            whole,
        ));
        let prepared = match sent {
            Ok(prepared) => prepared,
            Err(e) => {
                return Err(e);
            },
        };
        let (own_id, revision) = match known {
            Some(group) => (group.group_id, group.revision),
            None => {
                assert(false);
                vstd::pervasive::unreached()
            },
        };
        let message = GroupPayload::Message { group_id: own_id, revision, body: payload };
        let pending = self.goals_for_all(&prepared, &message);
        let now_millis = ctx.now_millis;
        self.tell(&prepared, &pending, &inner_event_id, now_millis, true)
    }

    pub fn create_group(
        &mut self,
        ctx: &mut ProtocolContext<'_>,
        name: String,
        member_owners: Vec<OwnerPubkey>,
    ) -> (r: Result<RuntimeGroupCreateResult, Error>)
        ensures
            moment(*final(ctx)) == moment(*old(ctx)),
            makes_group(
                old(self)@,
                final(self)@,
                moment(*old(ctx)),
                name@,
                member_owners@,
                r,
            ),
    {
        let ghost before = self@;
        let ghost at = moment(*ctx);
        let made = self.state.group_manager.create_group(
            &mut self.state.core,
            ctx,
            name,
            member_owners,
        );
        let ghost whole = made;
        let ghost mid = self@;
        let ghost bytes = choose|bytes: [u8; 16]|
            creates(
                before.state.groups,
                mid.state.groups,
                before.state.core,
                mid.state.core,
                at.secs,
                #[trigger] hex_text(bytes@),
                name@,
                member_owners@,
                whole,
            );
        assert(made_as(before, mid, at, hex_text(bytes@), name@, member_owners@, whole));
        let outcome = match made {
            Ok(outcome) => outcome,
            Err(e) => {
                return Err(e);
            },
        };
        let ghost g = new_group(
            before.state.groups,
            hex_text(bytes@),
            name@,
            member_owners@,
            at.secs,
        );
        let payload = GroupPayload::Create { base_revision: 0, group: outcome.group.clone() };
        assert(payload@ == create_payload(g));
        let pending = self.goals_for_all(&outcome.prepared, &payload);
        let none: Option<String> = None;
        let now_millis = ctx.now_millis;
        let t = self.tell(&outcome.prepared, &pending, &none, now_millis, true);
        let ghost published = t;
        let ghost done = outcome;
        assert(tells(
            mid,
            self@,
            at.millis,
            outcome.prepared,
            same_for_all(mid, outcome.prepared, create_payload(g)),
            None,
            true,
            published,
        ));
        let r: Result<RuntimeGroupCreateResult, Error> = match t {
            Err(e) => Err(e),
            Ok(published) => Ok(
                RuntimeGroupCreateResult { outcome, effects: published.effects },
            ),
        };
        assert(told_of_group(mid, self@, at, g, done, r));
        r
    }
}

fn set_of(owners: &Vec<OwnerPubkey>) -> (r: VecSet<OwnerPubkey>)
    ensures
        r@ == owners@.to_set(),
{
    let mut set: VecSet<OwnerPubkey> = VecSet::new();
    let mut i: usize = 0;
    while i < owners.len()
        invariant
            i <= owners@.len(),
            forall|k: OwnerPubkey| #[trigger]
                set@.contains(k) <==> exists|j: int| 0 <= j < i && owners@[j] == k,
        decreases owners@.len() - i,
    {
        set.insert(owners[i]);
        i = i + 1;
    }
    assert(set@ =~= owners@.to_set());
    set
}

} // verus!
