//! Groups: hearing of them, telling their members, and what waits until a
//! group or a sender is known.
use vstd::prelude::*;
use super::effects::{
    persist, staging, with_staged, EffectModel, PublishResultModel, RuntimeEffect,
    RuntimePublishResult,
};
use super::outbox::{
    prepared_publishes, published_as, refresh_core, sync_core, sync_effects, unsignable, CoreModel,
    RuntimeCore,
};
use super::store::{
    copy_bytes, FanoutGoal, FanoutModel, GroupPendingFanout, GroupSenderKeyMessage, PairwiseModel,
    PendingGroupFanout, PendingGroupPairwisePayload, PublishModel, SenderKeyModel, StateModel,
};
use crate::collections::{holds, push_item, push_items, views, Replica, VecSet};
use crate::error::{fault, DomainError, Error, Fault};
use crate::event::texts;
use crate::group::{
    GroupCreateResult, GroupEventModel, GroupIncomingEvent, GroupPreparedSend, GroupSnapshot,
};
use crate::group_manager::{heard, GroupsModel};
use crate::group_wire::{payload_of_bytes, GroupPayload};
use crate::ids::{DevicePubkey, OwnerPubkey, UnixMillis};
use crate::rumor::text_of;
use crate::session_manager::{gap_models, GapModel, RelayGap};
use crate::text::{after_prefix, without_prefix};

verus! {

/// What hearing of a group came to, and whether it was of a group at all.
#[derive(Debug)]
pub struct GroupPairwiseHandleOutcome {
    pub events: Vec<GroupIncomingEvent>,
    pub consumed: bool,
    pub effects: Vec<RuntimeEffect>,
}

#[derive(Debug)]
pub struct RuntimeGroupIncomingResult {
    pub events: Vec<GroupIncomingEvent>,
    pub effects: Vec<RuntimeEffect>,
}

#[verifier::ext_equal]
pub struct IncomingResultModel {
    pub events: Seq<GroupEventModel>,
    pub effects: Seq<EffectModel>,
}

impl View for RuntimeGroupIncomingResult {
    type V = IncomingResultModel;

    open spec fn view(&self) -> IncomingResultModel {
        IncomingResultModel { events: views(self.events@), effects: views(self.effects@) }
    }
}

#[derive(Debug)]
pub struct RuntimeGroupCreateResult {
    pub outcome: GroupCreateResult,
    pub effects: Vec<RuntimeEffect>,
}

#[derive(Debug)]
pub struct RuntimeGroupSnapshotResult {
    pub snapshot: GroupSnapshot,
    pub effects: Vec<RuntimeEffect>,
}

/// What became of a message that was encrypted with its sender's own key.
#[derive(Debug)]
pub enum SenderKeyOutcome {
    Event(GroupIncomingEvent),
    PendingDistribution,
    PendingRevision,
    Ignored,
    Failed,
}

#[verifier::ext_equal]
pub enum SenderKeyOutcomeModel {
    Event(GroupEventModel),
    Pending,
    Gone,
}

impl View for SenderKeyOutcome {
    type V = SenderKeyOutcomeModel;

    open spec fn view(&self) -> SenderKeyOutcomeModel {
        match *self {
            SenderKeyOutcome::Event(event) => SenderKeyOutcomeModel::Event(event@),
            SenderKeyOutcome::PendingDistribution | SenderKeyOutcome::PendingRevision =>
                SenderKeyOutcomeModel::Pending,
            SenderKeyOutcome::Ignored | SenderKeyOutcome::Failed => SenderKeyOutcomeModel::Gone,
        }
    }
}

// ---------------------------------------------------------------------------
// Hearing of groups
// ---------------------------------------------------------------------------

/// Whether a refusal may be lifted when more of the group is known.
pub open spec fn may_pass_later(e: Error) -> bool {
    match e {
        Error::Domain(DomainError::PendingGroupRevision { .. }) => true,
        Error::Domain(DomainError::InvalidGroupOperation(text)) => of_unknown_group(text@),
        _ => false,
    }
}

pub open spec fn of_unknown_group(text: Seq<char>) -> bool {
    after_prefix(text, "unknown group `"@) is Some
}

fn should_queue_group_pairwise_payload(e: &Error) -> (r: bool)
    ensures
        r == may_pass_later(*e),
{
    match e {
        Error::Domain(DomainError::PendingGroupRevision { .. }) => true,
        Error::Domain(DomainError::InvalidGroupOperation(text)) => without_prefix(
            text.as_str(),
            "unknown group `",
        ).is_some(),
        _ => false,
    }
}

/// What hearing something comes to.
#[verifier::ext_equal]
pub enum Hearing {
    Nothing,
    Event(GroupsModel, GroupEventModel),
    Later,
    Never,
}

pub open spec fn hearing(m: GroupsModel, sender: OwnerPubkey, payload: Seq<u8>) -> Hearing {
    match payload_of_bytes(payload) {
        None => Hearing::Nothing,
        Some(p) => match heard(m.groups, sender, p) {
            Ok((groups, event)) => Hearing::Event(GroupsModel { groups, ..m }, event),
            Err(text) => if of_unknown_group(text) {
                Hearing::Later
            } else {
                Hearing::Never
            },
        },
    }
}

/// The groups after something was heard.
pub open spec fn groups_after(m: GroupsModel, h: Hearing) -> GroupsModel {
    match h {
        Hearing::Event(next, _) => next,
        _ => m,
    }
}

/// How far hearing once more what waits has come.
#[verifier::ext_equal]
pub struct Retelling {
    pub groups: GroupsModel,
    pub waiting: Seq<PairwiseModel>,
    pub events: Seq<GroupEventModel>,
}

/// What waits is heard once more, one after the other.
pub open spec fn retold(m: GroupsModel, pending: Seq<PairwiseModel>) -> Retelling
    decreases pending.len(),
{
    if pending.len() == 0 {
        Retelling { groups: m, waiting: Seq::empty(), events: Seq::empty() }
    } else {
        let rest = retold(m, pending.drop_last());
        let next = pending.last();
        match hearing(rest.groups, next.sender, next.payload) {
            Hearing::Event(groups, event) => Retelling {
                groups,
                waiting: rest.waiting,
                events: rest.events.push(event),
            },
            Hearing::Later => Retelling { waiting: rest.waiting.push(next), ..rest },
            _ => rest,
        }
    }
}

/// How far trying messages once more has come that were encrypted with their
/// senders' own keys.
#[verifier::ext_equal]
pub struct Resumption {
    pub waiting: Seq<SenderKeyModel>,
    pub events: Seq<GroupEventModel>,
}

/// Messages whose senders are not known wait on, and so do those of which
/// nothing is heard.
pub open spec fn resumed(
    senders: Map<DevicePubkey, Seq<char>>,
    pending: Seq<SenderKeyModel>,
    outcomes: Seq<SenderKeyOutcomeModel>,
) -> Resumption
    decreases pending.len(),
{
    if pending.len() == 0 {
        Resumption { waiting: Seq::empty(), events: Seq::empty() }
    } else {
        let rest = resumed(senders, pending.drop_last(), outcomes);
        let next = pending.last();
        let i = pending.len() - 1;
        if !senders.contains_key(next.sender) || i >= outcomes.len() {
            Resumption { waiting: rest.waiting.push(next), ..rest }
        } else {
            match outcomes[i] {
                SenderKeyOutcomeModel::Event(event) => Resumption {
                    events: rest.events.push(event),
                    ..rest
                },
                SenderKeyOutcomeModel::Pending => Resumption {
                    waiting: rest.waiting.push(next),
                    ..rest
                },
                SenderKeyOutcomeModel::Gone => rest,
            }
        }
    }
}

/// Something that waits.
pub open spec fn told_by(
    sender: OwnerPubkey,
    device: Option<DevicePubkey>,
    payload: Seq<u8>,
    at: UnixMillis,
) -> PairwiseModel {
    PairwiseModel { sender, device, payload, created_at_ms: at.0 }
}

/// What is known when something was heard, and all that waits was heard once
/// more.
pub open spec fn told(
    c: CoreModel,
    groups: GroupsModel,
    event: GroupEventModel,
    outcomes: Seq<SenderKeyOutcomeModel>,
) -> (CoreModel, Seq<GroupEventModel>) {
    let again = retold(groups, c.state.payloads);
    let more = resumed(c.state.senders, c.state.sender_keys, outcomes);
    (
        CoreModel {
            state: StateModel {
                groups: again.groups,
                payloads: again.waiting,
                sender_keys: more.waiting,
                ..c.state
            },
            ..c
        },
        seq![event] + again.events + more.events,
    )
}

/// What hearing from a member comes to.
pub open spec fn incoming(
    c: CoreModel,
    sender: OwnerPubkey,
    device: Option<DevicePubkey>,
    payload: Seq<u8>,
    at: UnixMillis,
    outcomes: Seq<SenderKeyOutcomeModel>,
) -> (CoreModel, IncomingResultModel) {
    let nothing = IncomingResultModel { events: Seq::empty(), effects: Seq::empty() };
    match hearing(c.state.groups, sender, payload) {
        Hearing::Nothing | Hearing::Never => (c, nothing),
        Hearing::Later => {
            let next = told_by(sender, device, payload, at);
            if c.state.payloads.contains(next) {
                (c, nothing)
            } else {
                let after = CoreModel {
                    state: StateModel { payloads: c.state.payloads.push(next), ..c.state },
                    ..c
                };
                (
                    after,
                    IncomingResultModel {
                        events: Seq::empty(),
                        effects: seq![persist(after.state)],
                    },
                )
            }
        },
        Hearing::Event(groups, event) => {
            let (after, events) = told(c, groups, event, outcomes);
            (
                after,
                IncomingResultModel {
                    events,
                    effects: seq![persist(after.state), refresh_core(after)],
                },
            )
        },
    }
}

/// What is known when a message waits that was encrypted with its sender's own
/// key.
pub open spec fn with_sender_key(c: CoreModel, message: SenderKeyModel) -> CoreModel {
    if c.state.sender_keys.contains(message) {
        c
    } else {
        CoreModel {
            state: StateModel { sender_keys: c.state.sender_keys.push(message), ..c.state },
            ..c
        }
    }
}

/// What a message comes to that was encrypted with its sender's own key.
pub open spec fn outer(
    c: CoreModel,
    message: Option<SenderKeyModel>,
    outcome: SenderKeyOutcomeModel,
) -> (CoreModel, IncomingResultModel) {
    let nothing = IncomingResultModel { events: Seq::empty(), effects: Seq::empty() };
    match message {
        None => (c, nothing),
        Some(message) => {
            let after = with_sender_key(c, message);
            let waits = IncomingResultModel {
                events: Seq::empty(),
                effects: seq![persist(after.state)],
            };
            if !c.state.senders.contains_key(message.sender) {
                (after, waits)
            } else {
                match outcome {
                    SenderKeyOutcomeModel::Event(event) => (
                        c,
                        IncomingResultModel {
                            events: seq![event],
                            effects: seq![persist(c.state), refresh_core(c)],
                        },
                    ),
                    SenderKeyOutcomeModel::Pending => (after, waits),
                    SenderKeyOutcomeModel::Gone => (c, nothing),
                }
            }
        },
    }
}

impl RuntimeCore {
    /// Hears something of a member.
    fn hear(&mut self, sender_owner: OwnerPubkey, payload: &[u8]) -> (r: (
        Option<GroupIncomingEvent>,
        bool,
    ))
        ensures
            ({
                let h = hearing(old(self)@.state.groups, sender_owner, payload@);
                &&& final(self)@ == (CoreModel {
                    state: StateModel {
                        groups: groups_after(old(self)@.state.groups, h),
                        ..old(self)@.state
                    },
                    ..old(self)@
                })
                &&& match r.0 {
                    Some(event) => h is Event && h->Event_1 == event@,
                    None => !(h is Event),
                }
                &&& r.1 == (h is Later)
            }),
    {
        let ghost before = self@;
        match self.state.group_manager.handle_incoming(sender_owner, payload) {
            Ok(event) => (event, false),
            Err(e) => (None, should_queue_group_pairwise_payload(&e)),
        }
    }

    /// Hears once more what waits.
    fn retry_pending_group_pairwise_payloads(&mut self) -> (r: Vec<GroupIncomingEvent>)
        ensures
            ({
                let again = retold(old(self)@.state.groups, old(self)@.state.payloads);
                &&& final(self)@ == (CoreModel {
                    state: StateModel {
                        groups: again.groups,
                        payloads: again.waiting,
                        ..old(self)@.state
                    },
                    ..old(self)@
                })
                &&& views(r@) == again.events
            }),
    {
        let ghost before = self@;
        let ghost all = before.state.payloads;
        let mut pending: Vec<PendingGroupPairwisePayload> = Vec::new();
        std::mem::swap(&mut pending, &mut self.state.pending_group_pairwise_payloads);
        let mut waiting: Vec<PendingGroupPairwisePayload> = Vec::new();
        let mut events: Vec<GroupIncomingEvent> = Vec::new();
        assert(views(waiting@) =~= Seq::empty());
        assert(views(events@) =~= Seq::empty());
        assert(all.take(0) =~= Seq::empty());
        let ghost cleared = self@;
        assert(cleared == CoreModel {
            state: StateModel { payloads: cleared.state.payloads, ..before.state },
            ..before
        });
        let mut i: usize = 0;
        while i < pending.len()
            invariant
                i <= pending@.len(),
                all == views(pending@),
                retold(before.state.groups, all.take(i as int)) == (Retelling {
                    groups: self@.state.groups,
                    waiting: views(waiting@),
                    events: views(events@),
                }),
                self@ == (CoreModel {
                    state: StateModel {
                        groups: self@.state.groups,
                        payloads: cleared.state.payloads,
                        ..before.state
                    },
                    ..before
                }),
            decreases pending@.len() - i,
        {
            assert(all.take(i + 1).drop_last() =~= all.take(i as int));
            assert(all.take(i + 1).last() == pending@[i as int]@);
            let (event, later) = self.hear(
                pending[i].sender_owner,
                pending[i].payload.as_slice(),
            );
            if let Some(event) = event {
                push_item(&mut events, event);
            } else if later {
                push_item(&mut waiting, pending[i].replica());
            }
            i = i + 1;
        }
        assert(all.take(i as int) =~= all);
        self.state.pending_group_pairwise_payloads = waiting;
        events
    }

    /// Tries messages once more that were encrypted with their senders' own
    /// keys, now that this became of them.
    fn retry_pending_group_sender_key_messages(&mut self, outcomes: Vec<SenderKeyOutcome>) -> (r:
        Vec<GroupIncomingEvent>)
        ensures
            ({
                let more = resumed(
                    old(self)@.state.senders,
                    old(self)@.state.sender_keys,
                    views(outcomes@),
                );
                &&& final(self)@ == (CoreModel {
                    state: StateModel { sender_keys: more.waiting, ..old(self)@.state },
                    ..old(self)@
                })
                &&& views(r@) == more.events
            }),
    {
        let ghost before = self@;
        let ghost all = before.state.sender_keys;
        let ghost said = views(outcomes@);
        let mut outcomes = outcomes;
        let mut pending: Vec<GroupSenderKeyMessage> = Vec::new();
        std::mem::swap(&mut pending, &mut self.state.pending_group_sender_key_messages);
        let mut waiting: Vec<GroupSenderKeyMessage> = Vec::new();
        let mut events: Vec<GroupIncomingEvent> = Vec::new();
        assert(views(waiting@) =~= Seq::empty());
        assert(views(events@) =~= Seq::empty());
        assert(all.take(0) =~= Seq::empty());
        assert(said.skip(0) =~= said);
        let mut i: usize = 0;
        while i < pending.len()
            invariant
                i <= pending@.len(),
                all == views(pending@),
                views(outcomes@) == said.skip(
                    if i <= said.len() {
                        i as int
                    } else {
                        said.len() as int
                    },
                ),
                self@.state.senders == before.state.senders,
                resumed(before.state.senders, all.take(i as int), said) == (Resumption {
                    waiting: views(waiting@),
                    events: views(events@),
                }),
            decreases pending@.len() - i,
        {
            assert(all.take(i + 1).drop_last() =~= all.take(i as int));
            assert(all.take(i + 1).last() == pending@[i as int]@);
            let known = self.state.group_senders.contains_key(&pending[i].sender_event_pubkey);
            let ghost left = views(outcomes@);
            assert(left.len() == outcomes@.len());
            if outcomes.len() == 0 {
                assert(i >= said.len());
                push_item(&mut waiting, pending[i].replica());
            } else {
                assert(left[0] == said[i as int]);
                let outcome = outcomes.remove(0);
                assert(outcome@ == left[0]);
                assert(views(outcomes@) =~= left.skip(1));
                assert(views(outcomes@) =~= said.skip(i + 1));
                if !known {
                    push_item(&mut waiting, pending[i].replica());
                } else {
                    match outcome {
                        SenderKeyOutcome::Event(event) => {
                            push_item(&mut events, event);
                        },
                        SenderKeyOutcome::PendingDistribution
                        | SenderKeyOutcome::PendingRevision => {
                            push_item(&mut waiting, pending[i].replica());
                        },
                        SenderKeyOutcome::Ignored | SenderKeyOutcome::Failed => {},
                    }
                }
            }
            i = i + 1;
        }
        assert(all.take(i as int) =~= all);
        self.state.pending_group_sender_key_messages = waiting;
        events
    }

    /// Hears from a member. What is told of a group that is not known yet
    /// waits; once something is heard, all that waits is heard once more.
    pub fn handle_group_payload(
        &mut self,
        payload: &[u8],
        sender_owner: OwnerPubkey,
        sender_device: Option<DevicePubkey>,
        now_millis: UnixMillis,
        outcomes: Vec<SenderKeyOutcome>,
    ) -> (r: GroupPairwiseHandleOutcome)
        ensures
            ({
                let (after, result) = incoming(
                    old(self)@,
                    sender_owner,
                    sender_device,
                    payload@,
                    now_millis,
                    views(outcomes@),
                );
                &&& final(self)@ == after
                &&& views(r.events@) == result.events
                &&& views(r.effects@) == result.effects
                &&& r.consumed == payload_of_bytes(payload@) is Some
            }),
    {
        let ghost before = self@;
        let consumed = GroupPayload::from_bytes(payload).is_some();
        let (event, later) = self.hear(sender_owner, payload);
        let mut events: Vec<GroupIncomingEvent> = Vec::new();
        let mut effects: Vec<RuntimeEffect> = Vec::new();
        assert(views(events@) =~= Seq::empty());
        assert(views(effects@) =~= Seq::empty());
        match event {
            Some(event) => {
                let ghost groups = self@.state.groups;
                push_item(&mut events, event);
                let again = self.retry_pending_group_pairwise_payloads();
                push_items(&mut events, again);
                let more = self.retry_pending_group_sender_key_messages(outcomes);
                push_items(&mut events, more);
                proof {
                    let (after, all) = told(before, groups, event@, views(outcomes@));
                    assert(self@ =~= after);
                    assert(views(events@) =~= all);
                }
                self.push_persist(&mut effects);
                self.push_refresh(&mut effects);
                assert(views(effects@) =~= seq![persist(self@.state), refresh_core(self@)]);
            },
            None => {
                if later {
                    let pending = PendingGroupPairwisePayload {
                        sender_owner,
                        sender_device,
                        payload: vstd::slice::slice_to_vec(payload),
                        created_at_ms: now_millis.0,
                    };
                    if !holds(&self.state.pending_group_pairwise_payloads, &pending) {
                        push_item(&mut self.state.pending_group_pairwise_payloads, pending);
                        self.push_persist(&mut effects);
                        assert(views(effects@) =~= seq![persist(self@.state)]);
                    }
                }
            },
        }
        GroupPairwiseHandleOutcome { events, consumed, effects }
    }

    fn keep_sender_key_message(&mut self, message: GroupSenderKeyMessage)
        ensures
            final(self)@ == with_sender_key(old(self)@, message@),
    {
        if !holds(&self.state.pending_group_sender_key_messages, &message) {
            push_item(&mut self.state.pending_group_sender_key_messages, message);
        }
    }

    /// Takes in a message that was encrypted with its sender's own key, where
    /// it was one, and what became of it.
    pub fn handle_group_outer_event(
        &mut self,
        message: Option<GroupSenderKeyMessage>,
        outcome: SenderKeyOutcome,
    ) -> (r: RuntimeGroupIncomingResult)
        ensures
            ({
                let said = match message {
                    Some(message) => Some(message@),
                    None => None,
                };
                let (after, result) = outer(old(self)@, said, outcome@);
                final(self)@ == after && r@ == result
            }),
    {
        let ghost before = self@;
        let mut events: Vec<GroupIncomingEvent> = Vec::new();
        let mut effects: Vec<RuntimeEffect> = Vec::new();
        assert(views(events@) =~= Seq::empty());
        assert(views(effects@) =~= Seq::empty());
        let message = match message {
            Some(message) => message,
            None => {
                return RuntimeGroupIncomingResult { events, effects };
            },
        };
        if !self.state.group_senders.contains_key(&message.sender_event_pubkey) {
            self.keep_sender_key_message(message);
            self.push_persist(&mut effects);
            assert(views(effects@) =~= seq![persist(self@.state)]);
            return RuntimeGroupIncomingResult { events, effects };
        }
        match outcome {
            SenderKeyOutcome::Event(event) => {
                push_item(&mut events, event);
                assert(views(events@) =~= seq![event@]);
                self.push_persist(&mut effects);
                self.push_refresh(&mut effects);
                assert(views(effects@) =~= seq![persist(self@.state), refresh_core(self@)]);
            },
            SenderKeyOutcome::PendingDistribution | SenderKeyOutcome::PendingRevision => {
                self.keep_sender_key_message(message);
                self.push_persist(&mut effects);
                assert(views(effects@) =~= seq![persist(self@.state)]);
            },
            SenderKeyOutcome::Ignored | SenderKeyOutcome::Failed => {},
        }
        RuntimeGroupIncomingResult { events, effects }
    }
}

// ---------------------------------------------------------------------------
// Telling the members
// ---------------------------------------------------------------------------

/// Something of a group that has still to reach some.
pub open spec fn fanout_to(
    group_id: Seq<char>,
    goal: FanoutGoal,
    inner: Option<Seq<char>>,
    at: UnixMillis,
) -> FanoutModel {
    FanoutModel { group_id, goal, inner, created_at_ms: at.0 }
}

/// What has still to reach some, with more of a group. What is there already
/// is not taken twice.
pub open spec fn fanned(
    known: Seq<FanoutModel>,
    group_id: Seq<char>,
    goals: Seq<FanoutGoal>,
    inner: Option<Seq<char>>,
    at: UnixMillis,
) -> Seq<FanoutModel>
    decreases goals.len(),
{
    if goals.len() == 0 {
        known
    } else {
        let rest = fanned(known, group_id, goals.drop_last(), inner, at);
        let next = fanout_to(group_id, goals.last(), inner, at);
        if rest.contains(next) {
            rest
        } else {
            rest.push(next)
        }
    }
}

pub open spec fn gap_owner(gap: GapModel) -> OwnerPubkey {
    match gap {
        GapModel::Roster(owner) => owner,
        GapModel::DeviceInvite(owner, _, _) => owner,
    }
}

/// What an owner has still to be told, of whom something is missing. The own
/// devices and those who know the group get one thing, newcomers another.
pub open spec fn goal_for(
    owner: OwnerPubkey,
    own: OwnerPubkey,
    newcomers: Set<OwnerPubkey>,
    to_newcomers: Seq<u8>,
    to_others: Seq<u8>,
) -> FanoutGoal {
    if owner == own {
        FanoutGoal::LocalSiblings(to_others)
    } else if newcomers.contains(owner) {
        FanoutGoal::Remote(owner, to_newcomers)
    } else {
        FanoutGoal::Remote(owner, to_others)
    }
}

/// Whom something of a group has still to reach: each owner of whom something
/// is missing, once.
pub open spec fn goals(
    gaps: Seq<GapModel>,
    own: OwnerPubkey,
    newcomers: Set<OwnerPubkey>,
    to_newcomers: Seq<u8>,
    to_others: Seq<u8>,
) -> Seq<FanoutGoal>
    decreases gaps.len(),
{
    if gaps.len() == 0 {
        Seq::empty()
    } else {
        let rest = goals(gaps.drop_last(), own, newcomers, to_newcomers, to_others);
        let next = goal_for(gap_owner(gaps.last()), own, newcomers, to_newcomers, to_others);
        if rest.contains(next) {
            rest
        } else {
            rest.push(next)
        }
    }
}

pub(crate) fn pending_goals(
    gaps: &Vec<RelayGap>,
    own: OwnerPubkey,
    newcomers: &VecSet<OwnerPubkey>,
    to_newcomers: &Vec<u8>,
    to_others: &Vec<u8>,
) -> (r: Vec<GroupPendingFanout>)
    ensures
        views(r@) == goals(gap_models(gaps@), own, newcomers@, to_newcomers@, to_others@),
{
    let ghost all = gap_models(gaps@);
    let mut r: Vec<GroupPendingFanout> = Vec::new();
    assert(views(r@) =~= Seq::empty());
    assert(all.take(0) =~= Seq::empty());
    let mut i: usize = 0;
    while i < gaps.len()
        invariant
            i <= gaps@.len(),
            all == gap_models(gaps@),
            views(r@) == goals(
                all.take(i as int),
                own,
                newcomers@,
                to_newcomers@,
                to_others@,
            ),
        decreases gaps@.len() - i,
    {
        assert(all.take(i + 1).drop_last() =~= all.take(i as int));
        assert(all.take(i + 1).last() == gaps@[i as int]@);
        let owner = match &gaps[i] {
            RelayGap::MissingRoster { owner_pubkey } => *owner_pubkey,
            RelayGap::MissingDeviceInvite { owner_pubkey, .. } => *owner_pubkey,
        };
        let next = if owner == own {
            GroupPendingFanout::LocalSiblings { payload: copy_bytes(to_others) }
        } else if newcomers.contains(&owner) {
            GroupPendingFanout::Remote {
                recipient_owner: owner,
                payload: copy_bytes(to_newcomers),
            }
        } else {
            GroupPendingFanout::Remote { recipient_owner: owner, payload: copy_bytes(to_others) }
        };
        assert(next@ == goal_for(owner, own, newcomers@, to_newcomers@, to_others@));
        if !holds(&r, &next) {
            push_item(&mut r, next);
        }
        i = i + 1;
    }
    assert(all.take(i as int) =~= all);
    r
}

/// What is known when something of a group has still to reach some.
pub open spec fn with_fanned(
    c: CoreModel,
    group_id: Seq<char>,
    goals: Seq<FanoutGoal>,
    inner: Option<Seq<char>>,
    at: UnixMillis,
) -> CoreModel {
    CoreModel {
        state: StateModel {
            fanouts: fanned(c.state.fanouts, group_id, goals, inner, at),
            ..c.state
        },
        ..c
    }
}

/// The events of what the members are told.
pub struct GroupPublished {
    pub pending: Seq<PublishModel>,
    pub ids: Seq<Seq<char>>,
}

/// What telling the members asks for, whose events are these.
pub open spec fn telling(before: CoreModel, mid: CoreModel, p: GroupPublished) -> (
    CoreModel,
    PublishResultModel,
) {
    let queued = if mid.state.fanouts.len() > before.state.fanouts.len() {
        seq![persist(mid.state)]
    } else {
        Seq::empty()
    };
    (
        CoreModel { state: with_staged(mid.state, p.pending), ..mid },
        PublishResultModel { event_ids: p.ids, effects: queued + staging(mid.state, p.pending) },
    )
}

/// Whether what the members are told was published, and what could not reach
/// all waits.
pub open spec fn publishes_group(
    before: CoreModel,
    after: CoreModel,
    at: UnixMillis,
    prepared: GroupPreparedSend,
    goals: Seq<FanoutGoal>,
    inner: Option<Seq<char>>,
    r: Result<RuntimePublishResult, Error>,
) -> bool {
    let mid = with_fanned(before, prepared.group_id@, goals, inner, at);
    match r {
        Ok(result) => exists|p: GroupPublished| #[trigger]
            group_published(prepared, inner, p) && telling(before, mid, p) == (after, result@),
        Err(e) => after == mid && fault(e) == Fault::InvalidEvent && unsignable(
            prepared.deliveries@,
            prepared.invite_responses@,
        ),
    }
}

pub open spec fn group_published(
    prepared: GroupPreparedSend,
    inner: Option<Seq<char>>,
    p: GroupPublished,
) -> bool {
    published_as(prepared.deliveries@, prepared.invite_responses@, inner, p.pending, p.ids)
}

/// Whether the members were told, and the state was stored afterwards.
pub open spec fn tells(
    before: CoreModel,
    after: CoreModel,
    at: UnixMillis,
    prepared: GroupPreparedSend,
    goals: Seq<FanoutGoal>,
    inner: Option<Seq<char>>,
    listens: bool,
    r: Result<RuntimePublishResult, Error>,
) -> bool {
    exists|mid: CoreModel, first: Result<RuntimePublishResult, Error>| #[trigger]
        publishes_group(before, mid, at, prepared, goals, inner, first) && match first {
            Err(e) => after == mid && r == Err::<RuntimePublishResult, Error>(e),
            Ok(published) => {
                &&& after == if listens {
                    sync_core(mid)
                } else {
                    mid
                }
                &&& r matches Ok(result) && result@ == (PublishResultModel {
                    event_ids: published@.event_ids,
                    effects: published@.effects + seq![persist(mid.state), refresh_core(mid)]
                        + if listens {
                        sync_effects(mid)
                    } else {
                        Seq::empty()
                    },
                })
            },
        }
}

impl RuntimeCore {
    /// Keeps what has still to reach some.
    fn queue_group_pending_fanouts(
        &mut self,
        group_id: &str,
        pending_fanouts: &Vec<GroupPendingFanout>,
        inner_event_id: &Option<String>,
        now_millis: UnixMillis,
    ) -> (r: bool)
        ensures
            final(self)@ == with_fanned(
                old(self)@,
                group_id@,
                views(pending_fanouts@),
                text_of(*inner_event_id),
                now_millis,
            ),
            r == (final(self)@.state.fanouts.len() > old(self)@.state.fanouts.len()),
    {
        let ghost before = self@;
        let ghost all = views(pending_fanouts@);
        let ghost inner = text_of(*inner_event_id);
        let mut changed = false;
        assert(all.take(0) =~= Seq::empty());
        assert(self@ =~= with_fanned(before, group_id@, all.take(0), inner, now_millis));
        let mut i: usize = 0;
        while i < pending_fanouts.len()
            invariant
                i <= pending_fanouts@.len(),
                all == views(pending_fanouts@),
                inner == text_of(*inner_event_id),
                self@ == with_fanned(before, group_id@, all.take(i as int), inner, now_millis),
                self@.state.fanouts.len() >= before.state.fanouts.len(),
                changed == (self@.state.fanouts.len() > before.state.fanouts.len()),
            decreases pending_fanouts@.len() - i,
        {
            assert(all.take(i + 1).drop_last() =~= all.take(i as int));
            assert(all.take(i + 1).last() == pending_fanouts@[i as int]@);
            let pending = PendingGroupFanout {
                group_id: group_id.to_string(),
                fanout: pending_fanouts[i].replica(),
                inner_event_id: inner_event_id.clone(),
                created_at_ms: now_millis.0,
            };
            if !holds(&self.state.pending_group_fanouts, &pending) {
                push_item(&mut self.state.pending_group_fanouts, pending);
                changed = true;
            }
            i = i + 1;
        }
        assert(all.take(i as int) =~= all);
        changed
    }

    /// Publishes what the members are told, and keeps what cannot reach all.
    pub fn publish_group_prepared_send(
        &mut self,
        prepared: &GroupPreparedSend,
        pending_fanouts: &Vec<GroupPendingFanout>,
        inner_event_id: &Option<String>,
        now_millis: UnixMillis,
    ) -> (r: Result<RuntimePublishResult, Error>)
        ensures
            publishes_group(
                old(self)@,
                final(self)@,
                now_millis,
                *prepared,
                views(pending_fanouts@),
                text_of(*inner_event_id),
                r,
            ),
    {
        let ghost before = self@;
        let mut effects: Vec<RuntimeEffect> = Vec::new();
        assert(views(effects@) =~= Seq::empty());
        let queued = self.queue_group_pending_fanouts(
            prepared.group_id.as_str(),
            pending_fanouts,
            inner_event_id,
            now_millis,
        );
        let ghost mid = self@;
        if queued {
            self.push_persist(&mut effects);
        }
        let (pending, event_ids) = match prepared_publishes(
            &prepared.deliveries,
            &prepared.invite_responses,
            inner_event_id,
        ) {
            Ok(made) => made,
            Err(e) => {
                return Err(e);
            },
        };
        let ghost p = GroupPublished { pending: views(pending@), ids: texts(event_ids@) };
        assert(group_published(*prepared, text_of(*inner_event_id), p));
        let more = self.state.stage_prepared_publishes(pending);
        push_items(&mut effects, more);
        let result = RuntimePublishResult { event_ids, effects };
        assert(result@ =~= telling(before, mid, p).1);
        let r: Result<RuntimePublishResult, Error> = Ok(result);
        assert(telling(before, mid, p) == (self@, r->Ok_0@));
        r
    }

    /// Tells the members and stores the state afterwards.
    pub fn tell(
        &mut self,
        prepared: &GroupPreparedSend,
        pending_fanouts: &Vec<GroupPendingFanout>,
        inner_event_id: &Option<String>,
        now_millis: UnixMillis,
        listens: bool,
    ) -> (r: Result<RuntimePublishResult, Error>)
        ensures
            tells(
                old(self)@,
                final(self)@,
                now_millis,
                *prepared,
                views(pending_fanouts@),
                text_of(*inner_event_id),
                listens,
                r,
            ),
    {
        let ghost before = self@;
        let first = self.publish_group_prepared_send(
            prepared,
            pending_fanouts,
            inner_event_id,
            now_millis,
        );
        let ghost whole = first;
        let ghost mid = self@;
        assert(publishes_group(
            before,
            mid,
            now_millis,
            *prepared,
            views(pending_fanouts@),
            text_of(*inner_event_id),
            whole,
        ));
        match first {
            Err(e) => Err(e),
            Ok(published) => {
                let mut effects = published.effects;
                self.push_persist(&mut effects);
                self.push_refresh(&mut effects);
                if listens {
                    self.sync(&mut effects);
                }
                let result = RuntimePublishResult { event_ids: published.event_ids, effects };
                let ghost told_effects = published@.effects + seq![
                    persist(mid.state),
                    refresh_core(mid),
                ] + if listens {
                    sync_effects(mid)
                } else {
                    Seq::empty()
                };
                assert(result@.effects =~= told_effects);
                let r: Result<RuntimePublishResult, Error> = Ok(result);
                r
            },
        }
    }
}

} // verus!
