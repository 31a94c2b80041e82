//! Trying again what could not be sent.
use vstd::prelude::*;
use super::effects::{persist, staging, with_staged, EffectModel, RuntimeEffect, RuntimePublishResult};
use super::outbox::{
    dispatches, effects_of, letter_of, moment, prepared_publishes, published_as, refresh_core,
    sync_core, sync_effects, unsignable, with_core, CoreModel, Moment, RuntimeCore,
};
use super::store::{
    copy_bytes, copy_optional_bytes, FanoutGoal, FanoutModel, GroupPendingFanout, OutboundModel,
    PendingGroupFanout, PendingOutbound, PublishModel, StateModel,
};
use crate::collections::{push_item, push_items, views, Replica};
use crate::error::{fault, Error, Fault};
use crate::event::texts;
use crate::session_manager::{
    prepares, remote_audience, sibling_audience, ManagerModel, PreparedSend,
};
use crate::types::ProtocolContext;

verus! {

// ---------------------------------------------------------------------------
// Messages to owners
// ---------------------------------------------------------------------------

/// How far trying again has come: what is there, what failed, and what is to
/// be done.
pub struct RetryTrace {
    pub core: CoreModel,
    pub failed: Seq<OutboundModel>,
    pub effects: Seq<EffectModel>,
}

/// Whether one more message was tried.
pub open spec fn retry_step(
    at: Moment,
    message: OutboundModel,
    prev: RetryTrace,
    next: RetryTrace,
    r: Result<RuntimePublishResult, Error>,
) -> bool {
    &&& dispatches(prev.core, next.core, at, letter_of(message), r)
    &&& match r {
        Ok(result) => next.failed == prev.failed && next.effects == prev.effects + result@.effects,
        Err(_) => next.failed == prev.failed.push(message) && next.effects == prev.effects,
    }
}

/// Whether messages were tried one after the other.
pub open spec fn retries(
    start: CoreModel,
    at: Moment,
    messages: Seq<OutboundModel>,
    t: RetryTrace,
) -> bool
    decreases messages.len(),
{
    if messages.len() == 0 {
        t == (RetryTrace { core: start, failed: Seq::empty(), effects: Seq::empty() })
    } else {
        exists|prev: RetryTrace, r: Result<RuntimePublishResult, Error>| #[trigger]
            retry_step(at, messages.last(), prev, t, r) && retries(
                start,
                at,
                messages.drop_last(),
                prev,
            )
    }
}

pub open spec fn without_outbound(c: CoreModel) -> CoreModel {
    CoreModel { state: StateModel { outbound: Seq::empty(), ..c.state }, ..c }
}

/// What is there when the messages that failed are put back.
pub open spec fn with_failed(t: RetryTrace) -> CoreModel {
    CoreModel {
        state: StateModel { outbound: t.core.state.outbound + t.failed, ..t.core.state },
        ..t.core
    }
}

/// Whether all waiting messages were tried again. Those that cannot be sent
/// wait again.
pub open spec fn retries_outbound(
    before: CoreModel,
    after: CoreModel,
    at: Moment,
    effects: Seq<EffectModel>,
) -> bool {
    exists|t: RetryTrace| #[trigger]
        retries(without_outbound(before), at, before.state.outbound, t) && after == with_failed(t)
            && effects == t.effects.push(persist(after.state))
}

// ---------------------------------------------------------------------------
// What groups have still to be told
// ---------------------------------------------------------------------------

/// Whether something of a group was encrypted for those it has still to reach.
pub open spec fn reaches_out(
    before: ManagerModel,
    after: ManagerModel,
    at: Moment,
    goal: FanoutGoal,
    r: Result<PreparedSend, Error>,
) -> bool {
    match goal {
        FanoutGoal::Remote(recipient, payload) => prepares(
            before,
            after,
            at.secs,
            recipient,
            remote_audience(before, recipient),
            payload,
            r,
        ),
        FanoutGoal::LocalSiblings(payload) => prepares(
            before,
            after,
            at.secs,
            before.owner,
            sibling_audience(before),
            payload,
            r,
        ),
    }
}

pub struct FanoutTrace {
    pub core: CoreModel,
    pub failed: Seq<FanoutModel>,
    pub effects: Seq<EffectModel>,
}

/// What trying one of them came to, and the events of it.
pub struct FanoutOutcome {
    pub sent: Result<PreparedSend, Error>,
    pub pending: Seq<PublishModel>,
    pub ids: Seq<Seq<char>>,
}

/// Whether one more was tried. As long as something is missing it waits on.
pub open spec fn fanout_step(
    at: Moment,
    f: FanoutModel,
    prev: FanoutTrace,
    next: FanoutTrace,
    o: FanoutOutcome,
) -> bool {
    let mid = with_core(prev.core, next.core.state.core);
    &&& reaches_out(prev.core.state.core, next.core.state.core, at, f.goal, o.sent)
    &&& match o.sent {
        Err(_) => next.core == mid && next.failed == prev.failed.push(f) && next.effects
            == prev.effects,
        Ok(prepared) => {
            &&& published_as(
                prepared.deliveries@,
                prepared.invite_responses@,
                f.inner,
                o.pending,
                o.ids,
            )
            &&& next.core == (CoreModel { state: with_staged(mid.state, o.pending), ..mid })
            &&& next.effects == prev.effects + staging(mid.state, o.pending)
            &&& next.failed == if prepared.relay_gaps@.len() > 0 {
                prev.failed.push(f)
            } else {
                prev.failed
            }
        },
    }
}

pub open spec fn fans_out_again(
    start: CoreModel,
    at: Moment,
    fanouts: Seq<FanoutModel>,
    t: FanoutTrace,
) -> bool
    decreases fanouts.len(),
{
    if fanouts.len() == 0 {
        t == (FanoutTrace { core: start, failed: Seq::empty(), effects: Seq::empty() })
    } else {
        exists|prev: FanoutTrace, o: FanoutOutcome| #[trigger]
            fanout_step(at, fanouts.last(), prev, t, o) && fans_out_again(
                start,
                at,
                fanouts.drop_last(),
                prev,
            )
    }
}

/// Whether trying one ended everything: what was encrypted cannot be signed.
pub open spec fn fanout_breaks(
    at: Moment,
    f: FanoutModel,
    prev: FanoutTrace,
    after: CoreModel,
    sent: PreparedSend,
) -> bool {
    &&& reaches_out(
        prev.core.state.core,
        after.state.core,
        at,
        f.goal,
        Ok::<PreparedSend, Error>(sent),
    )
    &&& unsignable(sent.deliveries@, sent.invite_responses@)
    &&& after == with_core(prev.core, after.state.core)
}

pub open spec fn without_fanouts(c: CoreModel) -> CoreModel {
    CoreModel { state: StateModel { fanouts: Seq::empty(), ..c.state }, ..c }
}

pub open spec fn with_failed_fanouts(t: FanoutTrace) -> CoreModel {
    CoreModel {
        state: StateModel { fanouts: t.core.state.fanouts + t.failed, ..t.core.state },
        ..t.core
    }
}

/// What is to be done once all were tried.
pub open spec fn fanout_effects(t: FanoutTrace) -> Seq<EffectModel> {
    let mid = with_failed_fanouts(t);
    t.effects + seq![persist(mid.state), refresh_core(mid)] + sync_effects(mid)
}

/// Whether the first of them were tried, and the next one ended everything.
pub open spec fn breaks_at(
    before: CoreModel,
    after: CoreModel,
    at: Moment,
    n: int,
    t: FanoutTrace,
    sent: PreparedSend,
) -> bool {
    &&& 0 <= n < before.state.fanouts.len()
    &&& fans_out_again(without_fanouts(before), at, before.state.fanouts.take(n), t)
    &&& fanout_breaks(at, before.state.fanouts[n], t, after, sent)
}

/// Whether all that groups have still to be told was tried again.
pub open spec fn retries_fanouts(
    before: CoreModel,
    after: CoreModel,
    at: Moment,
    r: Result<Seq<EffectModel>, Error>,
) -> bool {
    if before.state.fanouts.len() == 0 {
        after == before && r == Ok::<Seq<EffectModel>, Error>(Seq::empty())
    } else {
        match r {
            Ok(effects) => exists|t: FanoutTrace| #[trigger]
                fans_out_again(without_fanouts(before), at, before.state.fanouts, t) && after
                    == sync_core(with_failed_fanouts(t)) && effects == fanout_effects(t),
            Err(e) => fault(e) == Fault::InvalidEvent && exists|
                n: int,
                t: FanoutTrace,
                sent: PreparedSend,
            | #[trigger]
                breaks_at(before, after, at, n, t, sent),
        }
    }
}

// ---------------------------------------------------------------------------
// After something became known
// ---------------------------------------------------------------------------

/// Whether everything that waits was tried again, after the state was stored.
pub open spec fn reacts(
    before: CoreModel,
    after: CoreModel,
    at: Moment,
    r: Result<Seq<EffectModel>, Error>,
) -> bool {
    exists|mid: CoreModel, first: Seq<EffectModel>, second: Result<Seq<EffectModel>, Error>| #[trigger]
        reacts_by(before, mid, after, at, first, second) && r == match second {
            Ok(more) => Ok::<Seq<EffectModel>, Error>(seq![persist(before.state)] + first + more),
            Err(e) => Err(e),
        }
}

pub open spec fn reacts_by(
    before: CoreModel,
    mid: CoreModel,
    after: CoreModel,
    at: Moment,
    first: Seq<EffectModel>,
    second: Result<Seq<EffectModel>, Error>,
) -> bool {
    retries_outbound(before, mid, at, first) && retries_fanouts(mid, after, at, second)
}

/// Whether everything that waits was tried again, and relays are asked for what
/// is of use now.
pub open spec fn reacts_and_asks(
    before: CoreModel,
    after: CoreModel,
    at: Moment,
    r: Result<Seq<EffectModel>, Error>,
) -> bool {
    exists|mid: CoreModel, first: Result<Seq<EffectModel>, Error>| #[trigger]
        reacts(before, mid, at, first) && match first {
            Ok(effects) => after == sync_core(mid) && r == Ok::<Seq<EffectModel>, Error>(
                effects.push(refresh_core(mid)) + sync_effects(mid),
            ),
            Err(e) => after == mid && r == Err::<Seq<EffectModel>, Error>(e),
        }
}

impl RuntimeCore {
    /// Tries all waiting messages again.
    pub fn retry_pending_outbound(&mut self, ctx: &mut ProtocolContext<'_>) -> (r: Vec<
        RuntimeEffect,
    >)
        ensures
            moment(*final(ctx)) == moment(*old(ctx)),
            retries_outbound(old(self)@, final(self)@, moment(*old(ctx)), views(r@)),
    {
        let ghost before = self@;
        let ghost at = moment(*ctx);
        let mut pending: Vec<PendingOutbound> = Vec::new();
        std::mem::swap(&mut pending, &mut self.state.pending_outbound);
        let ghost all = before.state.outbound;
        let mut failed: Vec<PendingOutbound> = Vec::new();
        let mut effects: Vec<RuntimeEffect> = Vec::new();
        assert(views(failed@) =~= Seq::empty());
        assert(views(effects@) =~= Seq::empty());
        assert(self@ =~= without_outbound(before));
        let mut i: usize = 0;
        assert(all.take(0) =~= Seq::empty());
        let ghost start = RetryTrace { core: self@, failed: Seq::empty(), effects: Seq::empty() };
        assert(retries(without_outbound(before), at, all.take(0), start));
        while i < pending.len()
            invariant
                i <= pending@.len(),
                all == views(pending@),
                moment(*ctx) == at,
                retries(
                    without_outbound(before),
                    at,
                    all.take(i as int),
                    (RetryTrace {
                        core: self@,
                        failed: views(failed@),
                        effects: views(effects@),
                    }),
                ),
            decreases pending@.len() - i,
        {
            let ghost prev = RetryTrace {
                core: self@,
                failed: views(failed@),
                effects: views(effects@),
            };
            assert(all.take(i + 1).drop_last() =~= all.take(i as int));
            assert(all.take(i + 1).last() == pending@[i as int]@);
            let result = self.prepare_and_publish(
                ctx,
                pending[i].recipient_owner,
                copy_bytes(&pending[i].remote_payload),
                copy_optional_bytes(&pending[i].local_sibling_payload),
                pending[i].inner_event_id.clone(),
            );
            let ghost tried = result;
            match result {
                Ok(result) => {
                    push_items(&mut effects, result.effects);
                },
                Err(_) => {
                    push_item(&mut failed, pending[i].replica());
                },
            }
            proof {
                let next = RetryTrace {
                    core: self@,
                    failed: views(failed@),
                    effects: views(effects@),
                };
                assert(retry_step(at, all.take(i + 1).last(), prev, next, tried));
            }
            i = i + 1;
        }
        assert(all.take(i as int) =~= all);
        let ghost t = RetryTrace { core: self@, failed: views(failed@), effects: views(effects@) };
        push_items(&mut self.state.pending_outbound, failed);
        assert(self@ =~= with_failed(t));
        self.push_persist(&mut effects);
        assert(retries(without_outbound(before), at, before.state.outbound, t));
        effects
    }

    /// Encrypts something of a group for those it has still to reach.
    fn reach_out(&mut self, ctx: &mut ProtocolContext<'_>, fanout: &GroupPendingFanout) -> (r: Result<
        PreparedSend,
        Error,
    >)
        ensures
            moment(*final(ctx)) == moment(*old(ctx)),
            final(self)@ == with_core(old(self)@, final(self)@.state.core),
            reaches_out(
                old(self)@.state.core,
                final(self)@.state.core,
                moment(*old(ctx)),
                fanout@,
                r,
            ),
    {
        match fanout {
            GroupPendingFanout::Remote { recipient_owner, payload } =>
                self.state.core.prepare_remote_send(ctx, *recipient_owner, copy_bytes(payload)),
            GroupPendingFanout::LocalSiblings { payload } =>
                self.state.core.prepare_local_sibling_send(ctx, copy_bytes(payload)),
        }
    }

    /// Tries all again that groups have still to be told.
    pub fn retry_pending_group_fanouts(&mut self, ctx: &mut ProtocolContext<'_>) -> (r: Result<
        Vec<RuntimeEffect>,
        Error,
    >)
        ensures
            moment(*final(ctx)) == moment(*old(ctx)),
            retries_fanouts(old(self)@, final(self)@, moment(*old(ctx)), effects_of(r)),
    {
        let ghost before = self@;
        let ghost at = moment(*ctx);
        let mut effects: Vec<RuntimeEffect> = Vec::new();
        assert(views(effects@) =~= Seq::empty());
        if self.state.pending_group_fanouts.len() == 0 {
            return Ok(effects);
        }
        let mut pending: Vec<PendingGroupFanout> = Vec::new();
        std::mem::swap(&mut pending, &mut self.state.pending_group_fanouts);
        let ghost all = before.state.fanouts;
        let mut failed: Vec<PendingGroupFanout> = Vec::new();
        assert(views(failed@) =~= Seq::empty());
        assert(self@ =~= without_fanouts(before));
        let mut i: usize = 0;
        assert(all.take(0) =~= Seq::empty());
        let ghost start = FanoutTrace { core: self@, failed: Seq::empty(), effects: Seq::empty() };
        assert(fans_out_again(without_fanouts(before), at, all.take(0), start));
        while i < pending.len()
            invariant
                i <= pending@.len(),
                all == views(pending@),
                all == before.state.fanouts,
                all.len() > 0,
                before == old(self)@,
                at == moment(*old(ctx)),
                moment(*ctx) == at,
                fans_out_again(
                    without_fanouts(before),
                    at,
                    all.take(i as int),
                    (FanoutTrace {
                        core: self@,
                        failed: views(failed@),
                        effects: views(effects@),
                    }),
                ),
            decreases pending@.len() - i,
        {
            let ghost prev = FanoutTrace {
                core: self@,
                failed: views(failed@),
                effects: views(effects@),
            };
            let ghost f = pending@[i as int]@;
            assert(all.take(i + 1).drop_last() =~= all.take(i as int));
            assert(all.take(i + 1).last() == f);
            let sent = self.reach_out(ctx, &pending[i].fanout);
            match sent {
                Err(e) => {
                    push_item(&mut failed, pending[i].replica());
                    proof {
                        let o = FanoutOutcome {
                            sent: Err(e),
                            pending: Seq::empty(),
                            ids: Seq::empty(),
                        };
                        let next = FanoutTrace {
                            core: self@,
                            failed: views(failed@),
                            effects: views(effects@),
                        };
                        assert(fanout_step(at, f, prev, next, o));
                    }
                },
                Ok(prepared) => {
                    let ghost mid = self@;
                    let (publishes, ids) = match prepared_publishes(
                        &prepared.deliveries,
                        &prepared.invite_responses,
                        &pending[i].inner_event_id,
                    ) {
                        Ok(made) => made,
                        Err(e) => {
                            assert(breaks_at(before, self@, at, i as int, prev, prepared));
                            return Err(e);
                        },
                    };
                    let ghost o = FanoutOutcome {
                        sent: Ok(prepared),
                        pending: views(publishes@),
                        ids: texts(ids@),
                    };
                    let more = self.state.stage_prepared_publishes(publishes);
                    push_items(&mut effects, more);
                    if prepared.relay_gaps.len() > 0 {
                        push_item(&mut failed, pending[i].replica());
                    }
                    proof {
                        let next = FanoutTrace {
                            core: self@,
                            failed: views(failed@),
                            effects: views(effects@),
                        };
                        assert(fanout_step(at, f, prev, next, o));
                    }
                },
            }
            i = i + 1;
        }
        assert(all.take(i as int) =~= all);
        let ghost t = FanoutTrace { core: self@, failed: views(failed@), effects: views(effects@) };
        push_items(&mut self.state.pending_group_fanouts, failed);
        let ghost mid = with_failed_fanouts(t);
        assert(self@ =~= mid);
        self.push_persist(&mut effects);
        self.push_refresh(&mut effects);
        self.sync(&mut effects);
        assert(views(effects@) =~= fanout_effects(t));
        assert(fans_out_again(without_fanouts(before), at, before.state.fanouts, t));
        Ok(effects)
    }

    /// Stores the state and tries everything again that waits.
    pub fn react(&mut self, ctx: &mut ProtocolContext<'_>) -> (r: Result<Vec<RuntimeEffect>, Error>)
        ensures
            moment(*final(ctx)) == moment(*old(ctx)),
            reacts(old(self)@, final(self)@, moment(*old(ctx)), effects_of(r)),
    {
        let ghost before = self@;
        let ghost at = moment(*ctx);
        let mut effects: Vec<RuntimeEffect> = Vec::new();
        assert(views(effects@) =~= Seq::empty());
        self.push_persist(&mut effects);
        let first = self.retry_pending_outbound(ctx);
        let ghost first_effects = views(first@);
        let ghost mid = self@;
        push_items(&mut effects, first);
        let second = self.retry_pending_group_fanouts(ctx);
        let ghost second_effects = effects_of(second);
        assert(reacts_by(before, mid, self@, at, first_effects, second_effects));
        match second {
            Ok(more) => {
                push_items(&mut effects, more);
                assert(views(effects@) =~= seq![persist(before.state)] + first_effects
                    + second_effects->Ok_0);
                Ok(effects)
            },
            Err(e) => Err(e),
        }
    }

    /// Stores the state, tries everything again that waits, and asks relays for
    /// what is of use now.
    pub fn react_and_ask(&mut self, ctx: &mut ProtocolContext<'_>) -> (r: Result<
        Vec<RuntimeEffect>,
        Error,
    >)
        ensures
            moment(*final(ctx)) == moment(*old(ctx)),
            reacts_and_asks(old(self)@, final(self)@, moment(*old(ctx)), effects_of(r)),
    {
        let ghost before = self@;
        let ghost at = moment(*ctx);
        let first = self.react(ctx);
        let ghost first_effects = effects_of(first);
        let ghost mid = self@;
        assert(reacts(before, mid, at, first_effects));
        match first {
            Ok(mut effects) => {
                self.push_refresh(&mut effects);
                self.sync(&mut effects);
                Ok(effects)
            },
            Err(e) => Err(e),
        }
    }
}

} // verus!
