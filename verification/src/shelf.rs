//! The sessions with one device: one that is active, and some that are not.
use vstd::prelude::*;
use crate::error::{fault, Error};
use crate::ids::{DevicePubkey, UnixSeconds};
use crate::peer_book::{
    below, contains_state, distinct, first_expecting, is_active, is_below, lemma_first_expecting,
    optional_session, priority, session_models, session_priority, MAX_INACTIVE,
};
use crate::session::domain::{after_send, carries, expects, may_send, send_refusal};
use crate::session::{
    sent_by, IncomingDirectMessageEnvelope, OutgoingDirectMessageEnvelope, Session, SessionModel, SessionState,
};

verus! {

#[derive(Debug)]
pub struct Shelf {
    pub active: Option<Session>,
    pub inactive: Vec<Session>,
}

#[verifier::ext_equal]
pub struct ShelfModel {
    pub active: Option<SessionModel>,
    pub inactive: Seq<SessionModel>,
}

impl View for Shelf {
    type V = ShelfModel;

    open spec fn view(&self) -> ShelfModel {
        ShelfModel {
            active: optional_session(self.active),
            inactive: session_models(self.inactive@),
        }
    }
}

pub open spec fn empty_shelf() -> ShelfModel {
    ShelfModel { active: None, inactive: Seq::empty() }
}

/// Whether a session is on a shelf.
pub open spec fn shelved(m: ShelfModel, session: SessionModel) -> bool {
    m.active == Some(session) || m.inactive.contains(session)
}

/// A shelf on which no session is there twice.
pub open spec fn tidied(m: ShelfModel) -> ShelfModel {
    ShelfModel { active: m.active, inactive: distinct(m.inactive, m.active) }
}

/// A shelf that holds no more sessions than fit.
pub open spec fn cut(m: ShelfModel) -> ShelfModel {
    if m.inactive.len() > MAX_INACTIVE {
        ShelfModel { active: m.active, inactive: m.inactive.take(MAX_INACTIVE as int) }
    } else {
        m
    }
}

/// A shelf with a session more. The better one of the new and the active one
/// is active then; the active one stays if they are equally good.
pub open spec fn stocked(m: ShelfModel, session: SessionModel) -> ShelfModel {
    match m.active {
        None => ShelfModel { active: Some(session), inactive: m.inactive },
        Some(active) => if below(priority(active), priority(session)) {
            ShelfModel { active: Some(session), inactive: m.inactive.push(active) }
        } else {
            ShelfModel { active: Some(active), inactive: m.inactive.push(session) }
        },
    }
}

/// A shelf that has got a session, which it may have had before.
pub open spec fn upserted_shelf(m: ShelfModel, session: SessionModel) -> ShelfModel {
    if shelved(m, session) {
        tidied(m)
    } else {
        cut(tidied(stocked(m, session)))
    }
}

/// The session at a place: the active one, or one of the others.
pub open spec fn shelf_session(m: ShelfModel, place: Option<int>) -> SessionModel {
    match place {
        None => m.active->Some_0,
        Some(i) => m.inactive[i],
    }
}

/// Whether there is a session at a place.
pub open spec fn occupied(m: ShelfModel, place: Option<int>) -> bool {
    match place {
        None => m.active is Some,
        Some(i) => 0 <= i < m.inactive.len(),
    }
}

/// Whether a place comes before another.
pub open spec fn place_before(a: Option<int>, b: Option<int>) -> bool {
    match (a, b) {
        (None, Some(_)) => true,
        (Some(i), Some(j)) => i < j,
        _ => false,
    }
}

/// Whether a place is the one to send from: its session can send, and no other
/// that can is better, nor as good and before it.
pub open spec fn best_place(m: ShelfModel, place: Option<int>) -> bool {
    &&& occupied(m, place)
    &&& may_send(shelf_session(m, place))
    &&& forall|other: Option<int>| #[trigger]
        occupied(m, other) && may_send(shelf_session(m, other)) ==> {
            ||| other == place
            ||| below(priority(shelf_session(m, other)), priority(shelf_session(m, place)))
            ||| priority(shelf_session(m, other)) == priority(shelf_session(m, place))
                && place_before(place, other)
        }
}

/// Where to send from, if a session can send.
pub open spec fn send_place(m: ShelfModel) -> Option<Option<int>> {
    if exists|place: Option<int>| #[trigger] best_place(m, place) {
        Some(choose|place: Option<int>| #[trigger] best_place(m, place))
    } else {
        None
    }
}

/// A shelf whose session at a place has sent.
pub open spec fn sent_shelf(m: ShelfModel, place: Option<int>) -> ShelfModel {
    let next = after_send(shelf_session(m, place));
    match place {
        None => ShelfModel { active: Some(next), inactive: m.inactive },
        Some(i) => upserted_shelf(
            ShelfModel { active: m.active, inactive: m.inactive.remove(i) },
            next,
        ),
    }
}

/// Where the first session stands that listens to a sender.
pub open spec fn listening_place(m: ShelfModel, sender: DevicePubkey) -> Option<Option<int>> {
    if m.active is Some && expects(m.active->Some_0, sender) {
        Some(None)
    } else {
        match first_expecting(m.inactive, sender) {
            Some(i) => Some(Some(i)),
            None => None,
        }
    }
}

/// A shelf whose session at a place has received. One that was not active
/// becomes so if it is better than the active one.
pub open spec fn received_shelf(m: ShelfModel, place: Option<int>, next: SessionModel) -> ShelfModel {
    match place {
        None => ShelfModel { active: Some(next), inactive: m.inactive },
        Some(i) => cut(
            tidied(
                stocked(ShelfModel { active: m.active, inactive: m.inactive.remove(i) }, next),
            ),
        ),
    }
}

proof fn lemma_below_total(a: (u8, u32, u32), b: (u8, u32, u32))
    ensures
        a == b || below(a, b) || below(b, a),
        !(below(a, b) && below(b, a)),
        !below(a, a),
{
}

/// There is only one best place.
proof fn lemma_best_place(m: ShelfModel, place: Option<int>)
    requires
        best_place(m, place),
    ensures
        send_place(m) == Some(place),
{
    let other = send_place(m)->Some_0;
    assert(best_place(m, other));
    assert(occupied(m, place) && occupied(m, other));
    lemma_below_total(priority(shelf_session(m, place)), priority(shelf_session(m, other)));
}

proof fn lemma_no_place(m: ShelfModel)
    requires
        forall|other: Option<int>| #[trigger]
            occupied(m, other) ==> !may_send(shelf_session(m, other)),
    ensures
        send_place(m) is None,
{
    assert forall|place: Option<int>| !(#[trigger] best_place(m, place)) by {
        if best_place(m, place) {
            assert(occupied(m, place));
        }
    }
}

/// What becomes of a session that sends a payload: a message that carries it,
/// or a refusal.
pub open spec fn sends_payload(
    session: SessionModel,
    now: UnixSeconds,
    payload: Seq<u8>,
    r: Result<OutgoingDirectMessageEnvelope, Error>,
) -> bool {
    match r {
        Ok(envelope) => {
            &&& send_refusal(session, payload.len() as int) is None
            &&& sent_by(session, envelope)
            &&& envelope.created_at == now
            &&& carries(session, envelope.encrypted_header@, envelope.ciphertext@, payload)
        },
        Err(e) => send_refusal(session, payload.len() as int) == Some(fault(e)),
    }
}

/// Sends a payload on a session. Where it is refused the session stays as it
/// is.
pub fn send_payload(session: &mut Session, payload: &[u8], now: UnixSeconds) -> (r: Result<
    OutgoingDirectMessageEnvelope,
    Error,
>)
    ensures
        sends_payload(old(session)@, now, payload@, r),
        r is Ok ==> final(session)@ == after_send(old(session)@),
        r is Err ==> *final(session) == *old(session),
{
    match session.plan_send_payload(payload, now) {
        Err(e) => Err(e),
        Ok((next_state, envelope)) => {
            session.state = next_state;
            Ok(envelope)
        },
    }
}

pub open spec fn place_of(place: Option<usize>) -> Option<int> {
    match place {
        Some(i) => Some(i as int),
        None => None,
    }
}

impl Shelf {
    pub fn new() -> (r: Self)
        ensures
            r@ == empty_shelf(),
    {
        let r = Shelf { active: None, inactive: Vec::new() };
        assert(r@.inactive =~= Seq::empty());
        r
    }

    /// Where to send from.
    pub fn best_send_place(&self) -> (r: Option<Option<usize>>)
        ensures
            match r {
                Some(place) => send_place(self@) == Some(place_of(place)) && occupied(
                    self@,
                    place_of(place),
                ),
                None => send_place(self@) is None,
            },
    {
        let mut best: Option<Option<usize>> = None;
        let mut best_priority: (u8, u32, u32) = (0, 0, 0);
        if let Some(session) = &self.active {
            if session.can_send() {
                best = Some(None);
                best_priority = session_priority(session);
            }
        }
        let mut i: usize = 0;
        while i < self.inactive.len()
            invariant
                i <= self.inactive@.len(),
                match best {
                    None => forall|other: Option<int>| #[trigger]
                        occupied(self@, other) && place_before(other, Some(i as int)) ==> !may_send(
                            shelf_session(self@, other),
                        ),
                    Some(place) => {
                        &&& occupied(self@, place_of(place))
                        &&& place_before(place_of(place), Some(i as int))
                        &&& may_send(shelf_session(self@, place_of(place)))
                        &&& best_priority == priority(shelf_session(self@, place_of(place)))
                        &&& forall|other: Option<int>| #[trigger]
                            occupied(self@, other) && place_before(other, Some(i as int))
                                && may_send(shelf_session(self@, other)) ==> {
                                ||| other == place_of(place)
                                ||| below(priority(shelf_session(self@, other)), best_priority)
                                ||| priority(shelf_session(self@, other)) == best_priority
                                    && place_before(place_of(place), other)
                            }
                    },
                },
            decreases self.inactive@.len() - i,
        {
            assert(shelf_session(self@, Some(i as int)) == self.inactive@[i as int]@);
            if self.inactive[i].can_send() {
                let p = session_priority(&self.inactive[i]);
                let better: bool = match best {
                    None => true,
                    Some(_) => is_below(best_priority, p),
                };
                if better {
                    best = Some(Some(i));
                    best_priority = p;
                }
            }
            assert forall|other: Option<int>| #[trigger] occupied(self@, other) && place_before(
                other,
                Some(i + 1),
            ) implies other == Some(i as int) || place_before(other, Some(i as int)) by {}
            i = i + 1;
        }
        proof {
            assert forall|other: Option<int>| #[trigger] occupied(self@, other) implies place_before(
                other,
                Some(i as int),
            ) by {}
            match best {
                None => lemma_no_place(self@),
                Some(place) => {
                    assert(best_place(self@, place_of(place)));
                    lemma_best_place(self@, place_of(place));
                },
            }
        }
        best
    }

    /// Which session listens to a sender.
    pub fn find_listener(&self, sender: DevicePubkey) -> (r: Option<Option<usize>>)
        ensures
            match r {
                None => listening_place(self@, sender) is None,
                Some(place) => listening_place(self@, sender) == Some(place_of(place)) && occupied(
                    self@,
                    place_of(place),
                ),
            },
    {
        if let Some(session) = &self.active {
            if session.matches_sender(sender) {
                return Some(None);
            }
        }
        let mut i: usize = 0;
        while i < self.inactive.len()
            invariant
                i <= self.inactive@.len(),
                !(self@.active is Some && expects(self@.active->Some_0, sender)),
                forall|j: int| 0 <= j < i ==> !expects(#[trigger] self@.inactive[j], sender),
            decreases self.inactive@.len() - i,
        {
            assert(self@.inactive[i as int] == self.inactive@[i as int]@);
            if self.inactive[i].matches_sender(sender) {
                proof {
                    lemma_first_expecting(self@.inactive, sender, i as int);
                }
                return Some(Some(i));
            }
            i = i + 1;
        }
        None
    }

    /// Decrypts with the session at a place.
    pub fn plan_receive(
        &self,
        ctx: &mut crate::types::ProtocolContext<'_>,
        place: Option<usize>,
        envelope: &IncomingDirectMessageEnvelope,
    ) -> (r: Result<(SessionState, Vec<u8>), Error>)
        requires
            occupied(self@, place_of(place)),
        ensures
            final(ctx).now_secs == old(ctx).now_secs,
            final(ctx).now_millis == old(ctx).now_millis,
            crate::session::drawn_payload(
                shelf_session(self@, place_of(place)),
                envelope.sender,
                envelope.encrypted_header@,
                envelope.ciphertext@,
                r,
            ),
    {
        match place {
            None => match &self.active {
                Some(session) => session.plan_receive_payload(
                    ctx,
                    envelope.sender,
                    envelope.encrypted_header.as_str(),
                    envelope.ciphertext.as_str(),
                ),
                None => {
                    assert(false);
                    Err(Error::Domain(crate::error::DomainError::UnexpectedSender))
                },
            },
            Some(i) => self.inactive[i].plan_receive_payload(
                ctx,
                envelope.sender,
                envelope.encrypted_header.as_str(),
                envelope.ciphertext.as_str(),
            ),
        }
    }

    /// Removes sessions that are there twice.
    fn tidy(&mut self)
        ensures
            final(self)@ == tidied(old(self)@),
    {
        let mut kept: Vec<Session> = Vec::new();
        let ghost all = old(self)@.inactive;
        let ghost active = old(self)@.active;
        let mut sessions: Vec<Session> = Vec::new();
        std::mem::swap(&mut sessions, &mut self.inactive);
        let mut i: usize = 0;
        assert(all.take(0) =~= Seq::empty());
        assert(session_models(kept@) =~= Seq::empty());
        while i < sessions.len()
            invariant
                i <= sessions@.len(),
                all == session_models(sessions@),
                active == optional_session(self.active),
                session_models(kept@) == distinct(all.take(i as int), active),
            decreases sessions@.len() - i,
        {
            let ghost before = session_models(kept@);
            assert(all.take(i + 1).drop_last() =~= all.take(i as int));
            assert(all.take(i + 1).last() == sessions@[i as int]@);
            if !is_active(&self.active, &sessions[i].state) && !contains_state(
                &kept,
                &sessions[i].state,
            ) {
                kept.push(sessions[i].clone());
                assert(session_models(kept@) =~= before.push(sessions@[i as int]@));
            }
            i = i + 1;
        }
        assert(all.take(i as int) =~= all);
        self.inactive = kept;
    }

    fn limit(&mut self)
        ensures
            final(self)@ == cut(old(self)@),
    {
        let ghost before = self@;
        if self.inactive.len() > MAX_INACTIVE {
            self.inactive.truncate(MAX_INACTIVE);
            assert(self@.inactive =~= before.inactive.take(MAX_INACTIVE as int));
        }
    }

    fn stock(&mut self, session: Session)
        ensures
            final(self)@ == stocked(old(self)@, session@),
    {
        let ghost before = self@;
        let ghost new = session@;
        match self.active.take() {
            None => {
                self.active = Some(session);
            },
            Some(old_session) => {
                if is_below(session_priority(&old_session), session_priority(&session)) {
                    self.inactive.push(old_session);
                    self.active = Some(session);
                    assert(self@.inactive =~= before.inactive.push(before.active->Some_0));
                } else {
                    self.inactive.push(session);
                    self.active = Some(old_session);
                    assert(self@.inactive =~= before.inactive.push(new));
                }
            },
        }
    }

    /// Takes a session in.
    pub fn upsert(&mut self, session: Session)
        ensures
            final(self)@ == upserted_shelf(old(self)@, session@),
    {
        if is_active(&self.active, &session.state) || contains_state(
            &self.inactive,
            &session.state,
        ) {
            self.tidy();
            return;
        }
        self.stock(session);
        self.tidy();
        self.limit();
    }

    /// Sends a payload from a place. Where it is refused the shelf stays as it
    /// is.
    pub fn send_from(&mut self, place: Option<usize>, payload: &[u8], now: UnixSeconds) -> (r: Result<
        OutgoingDirectMessageEnvelope,
        Error,
    >)
        requires
            occupied(old(self)@, place_of(place)),
        ensures
            sends_payload(shelf_session(old(self)@, place_of(place)), now, payload@, r),
            r is Ok ==> final(self)@ == sent_shelf(old(self)@, place_of(place)),
            r is Err ==> final(self)@ == old(self)@,
    {
        let ghost before = self@;
        match place {
            None => {
                let mut session = match self.active.take() {
                    Some(session) => session,
                    None => {
                        assert(false);
                        return Err(Error::Domain(crate::error::DomainError::UnexpectedSender));
                    },
                };
                let r = send_payload(&mut session, payload, now);
                self.active = Some(session);
                r
            },
            Some(i) => {
                let mut session = self.inactive.remove(i);
                let ghost others = self@;
                assert(others.inactive =~= before.inactive.remove(i as int));
                let r = send_payload(&mut session, payload, now);
                match r {
                    Ok(envelope) => {
                        self.upsert(session);
                        Ok(envelope)
                    },
                    Err(e) => {
                        self.inactive.insert(i, session);
                        assert(self@.inactive =~= before.inactive);
                        Err(e)
                    },
                }
            },
        }
    }

    /// Takes over what the session at a place has received.
    pub fn take_over(&mut self, place: Option<usize>, state: SessionState)
        requires
            occupied(old(self)@, place_of(place)),
        ensures
            final(self)@ == received_shelf(old(self)@, place_of(place), state@),
    {
        let ghost before = self@;
        match place {
            None => {
                if let Some(mut session) = self.active.take() {
                    session.state = state;
                    self.active = Some(session);
                }
            },
            Some(i) => {
                let mut session = self.inactive.remove(i);
                assert(self@.inactive =~= before.inactive.remove(i as int));
                session.state = state;
                self.stock(session);
                self.tidy();
                self.limit();
            },
        }
    }
}

impl Clone for Shelf {
    fn clone(&self) -> (r: Self)
        ensures
            r@ == self@,
    {
        let active = match &self.active {
            Some(session) => Some(session.clone()),
            None => None,
        };
        let mut inactive: Vec<Session> = Vec::new();
        let mut i: usize = 0;
        while i < self.inactive.len()
            invariant
                i <= self.inactive@.len(),
                inactive@.len() == i,
                forall|j: int| 0 <= j < i ==> (#[trigger] inactive@[j])@ == self.inactive@[j]@,
            decreases self.inactive@.len() - i,
        {
            inactive.push(self.inactive[i].clone());
            i = i + 1;
        }
        let r = Shelf { active, inactive };
        assert(r@.inactive =~= self@.inactive);
        r
    }
}

} // verus!
