//! The sessions that are kept with the devices of a peer.
use vstd::prelude::*;
use crate::collections::{lists, ordered, ordered_values, OrderedKey, VecMap, VecSet};
use crate::error::{fault, DomainError, Error, Fault};
use crate::ids::{DeviceId, DevicePubkey, UnixSeconds};
use crate::rumor::{identified, Rumor, RumorModel};
use crate::session::domain::{after_send, carries, expects, may_send, send_refusal};
use crate::session::{
    drawn_receive, rumor_bytes, rumor_of_bytes, sent_by, EnvelopeModel,
    IncomingDirectMessageEnvelope, ReceiveOutcome, ReceivePlan, SendOutcome, Session,
    SessionModel, SessionState,
};
use crate::types::ProtocolContext;

verus! {

/// How many sessions a device has at most beside the active one.
pub const MAX_INACTIVE: usize = 10;

#[derive(Debug)]
pub struct StoredPeerDevice {
    pub device_id: DeviceId,
    pub active_session: Option<SessionState>,
    pub inactive_sessions: Vec<SessionState>,
    pub created_at: UnixSeconds,
    pub is_stale: bool,
    pub stale_timestamp: Option<UnixSeconds>,
    pub last_activity: Option<UnixSeconds>,
}

#[derive(Debug)]
pub struct StoredPeerBook {
    pub devices: Vec<StoredPeerDevice>,
}

/// The sessions with a peer, by device.
#[derive(Debug)]
pub struct PeerBook {
    device_records: VecMap<DeviceId, PeerDeviceState>,
}

#[derive(Debug)]
struct PeerDeviceState {
    device_id: DeviceId,
    active_session: Option<Session>,
    inactive_sessions: Vec<Session>,
    created_at: UnixSeconds,
    is_stale: bool,
    stale_timestamp: Option<UnixSeconds>,
    last_activity: Option<UnixSeconds>,
}

#[derive(Debug)]
pub struct PeerBookSendPlan {
    pub device_id: DeviceId,
}

#[derive(Debug)]
pub struct PeerBookReceivePlan {
    pub device_id: DeviceId,
    pub active_match: bool,
    pub inactive_index: Option<usize>,
    pub session_plan: ReceivePlan,
}

/// What is kept of a device.
#[verifier::ext_equal]
pub struct PeerDeviceModel {
    pub device_id: Seq<char>,
    pub active: Option<SessionModel>,
    pub inactive: Seq<SessionModel>,
    pub created_at: UnixSeconds,
    pub is_stale: bool,
    pub stale_timestamp: Option<UnixSeconds>,
    pub last_activity: Option<UnixSeconds>,
}

pub open spec fn optional_session(session: Option<Session>) -> Option<SessionModel> {
    match session {
        Some(session) => Some(session@),
        None => None,
    }
}

pub open spec fn session_models(sessions: Seq<Session>) -> Seq<SessionModel> {
    Seq::new(sessions.len(), |i: int| sessions[i]@)
}

impl View for PeerDeviceState {
    type V = PeerDeviceModel;

    closed spec fn view(&self) -> PeerDeviceModel {
        PeerDeviceModel {
            device_id: self.device_id@,
            active: optional_session(self.active_session),
            inactive: session_models(self.inactive_sessions@),
            created_at: self.created_at,
            is_stale: self.is_stale,
            stale_timestamp: self.stale_timestamp,
            last_activity: self.last_activity,
        }
    }
}

spec fn device_models(records: Map<Seq<char>, PeerDeviceState>) -> Map<Seq<char>, PeerDeviceModel> {
    Map::new(|k: Seq<char>| records.contains_key(k), |k: Seq<char>| records[k]@)
}

impl View for PeerBook {
    type V = Map<Seq<char>, PeerDeviceModel>;

    closed spec fn view(&self) -> Map<Seq<char>, PeerDeviceModel> {
        device_models(self.device_records@)
    }
}

// ---------------------------------------------------------------------------
// Which session is better
// ---------------------------------------------------------------------------

/// How good a session is to use: first whether it can send and has received,
/// then how far it has received and how far it has sent.
pub open spec fn priority(m: SessionModel) -> (u8, u32, u32) {
    let receives = m.receiving_chain_key is Some || m.their_current is Some || m.receiving_number
        > 0;
    (
        if may_send(m) {
            if receives {
                3u8
            } else {
                2u8
            }
        } else if receives {
            1u8
        } else {
            0u8
        },
        m.receiving_number,
        m.sending_number,
    )
}

pub open spec fn active_priority(active: Option<SessionModel>) -> (u8, u32, u32) {
    match active {
        Some(m) => priority(m),
        None => (0u8, 0u32, 0u32),
    }
}

/// Whether a priority is below another.
pub open spec fn below(a: (u8, u32, u32), b: (u8, u32, u32)) -> bool {
    a.0 < b.0 || (a.0 == b.0 && (a.1 < b.1 || (a.1 == b.1 && a.2 < b.2)))
}

pub(crate) fn session_priority(session: &Session) -> (r: (u8, u32, u32))
    ensures
        r == priority(session@),
{
    let can_send: bool = session.can_send();
    let can_receive: bool = session.state.receiving_chain_key.is_some()
        || session.state.their_current_nostr_public_key.is_some()
        || session.state.receiving_chain_message_number > 0;
    let directionality: u8 = match (can_send, can_receive) {
        (true, true) => 3,
        (true, false) => 2,
        (false, true) => 1,
        (false, false) => 0,
    };
    (
        directionality,
        session.state.receiving_chain_message_number,
        session.state.sending_chain_message_number,
    )
}

pub(crate) fn optional_priority(session: &Option<Session>) -> (r: (u8, u32, u32))
    ensures
        r == active_priority(optional_session(*session)),
{
    match session {
        Some(session) => session_priority(session),
        None => (0, 0, 0),
    }
}

pub(crate) fn is_below(a: (u8, u32, u32), b: (u8, u32, u32)) -> (r: bool)
    ensures
        r == below(a, b),
{
    a.0 < b.0 || (a.0 == b.0 && (a.1 < b.1 || (a.1 == b.1 && a.2 < b.2)))
}

/// A device and how good its active session is. The better one comes first,
/// and of two that are equally good the one with the first name.
#[derive(Debug)]
pub struct ScoredDevice {
    pub score: (u8, u32, u32),
    pub device_id: DeviceId,
}

impl OrderedKey for ScoredDevice {
    type Id = ((u8, u32, u32), Seq<char>);

    open spec fn id(&self) -> ((u8, u32, u32), Seq<char>) {
        (self.score, self.device_id@)
    }

    open spec fn before(a: ((u8, u32, u32), Seq<char>), b: ((u8, u32, u32), Seq<char>)) -> bool {
        ranks_before(a, b)
    }

    proof fn before_irreflexive(a: ((u8, u32, u32), Seq<char>)) {
        <DeviceId as OrderedKey>::before_irreflexive(a.1);
    }

    proof fn before_transitive(
        a: ((u8, u32, u32), Seq<char>),
        b: ((u8, u32, u32), Seq<char>),
        c: ((u8, u32, u32), Seq<char>),
    ) {
        if a.0 == b.0 && b.0 == c.0 {
            <DeviceId as OrderedKey>::before_transitive(a.1, b.1, c.1);
        }
    }

    proof fn before_total(a: ((u8, u32, u32), Seq<char>), b: ((u8, u32, u32), Seq<char>)) {
        <DeviceId as OrderedKey>::before_total(a.1, b.1);
    }

    fn precedes(&self, other: &ScoredDevice) -> (r: bool) {
        is_below(other.score, self.score) || (!is_below(self.score, other.score)
            && self.device_id.precedes(&other.device_id))
    }

    fn duplicate(&self) -> (r: ScoredDevice) {
        ScoredDevice { score: self.score, device_id: self.device_id.clone() }
    }
}

/// Whether a device with a score comes before another.
pub open spec fn ranks_before(
    a: ((u8, u32, u32), Seq<char>),
    b: ((u8, u32, u32), Seq<char>),
) -> bool {
    below(b.0, a.0) || (a.0 == b.0 && <DeviceId as OrderedKey>::before(a.1, b.1))
}

// ---------------------------------------------------------------------------
// Keeping sessions
// ---------------------------------------------------------------------------

/// Sessions without those that are the active one or that occur before.
pub open spec fn distinct(sessions: Seq<SessionModel>, active: Option<SessionModel>) -> Seq<
    SessionModel,
>
    decreases sessions.len(),
{
    if sessions.len() == 0 {
        Seq::empty()
    } else {
        let rest = distinct(sessions.drop_last(), active);
        if active == Some(sessions.last()) || rest.contains(sessions.last()) {
            rest
        } else {
            rest.push(sessions.last())
        }
    }
}

pub open spec fn compacted(device: PeerDeviceModel) -> PeerDeviceModel {
    PeerDeviceModel { inactive: distinct(device.inactive, device.active), ..device }
}

/// A device of which nothing is known yet.
pub open spec fn fresh_device(device_id: Seq<char>, now: UnixSeconds) -> PeerDeviceModel {
    PeerDeviceModel {
        device_id,
        active: None,
        inactive: Seq::empty(),
        created_at: now,
        is_stale: false,
        stale_timestamp: None,
        last_activity: Some(now),
    }
}

/// A device with a session more. The better one of the new and the active one
/// is active then; the active one stays if they are equally good.
pub open spec fn with_session(device: PeerDeviceModel, session: SessionModel) -> PeerDeviceModel {
    match device.active {
        None => PeerDeviceModel { active: Some(session), ..device },
        Some(active) => if below(priority(active), priority(session)) {
            PeerDeviceModel {
                active: Some(session),
                inactive: device.inactive.push(active),
                ..device
            }
        } else {
            PeerDeviceModel { inactive: device.inactive.push(session), ..device }
        },
    }
}

/// A device that has got a session, which it may have had before.
pub open spec fn upserted(device: PeerDeviceModel, session: SessionModel, now: UnixSeconds) -> PeerDeviceModel {
    if device.active == Some(session) || device.inactive.contains(session) {
        PeerDeviceModel { last_activity: Some(now), ..compacted(device) }
    } else {
        let more = compacted(with_session(device, session));
        PeerDeviceModel {
            inactive: if more.inactive.len() > MAX_INACTIVE {
                more.inactive.take(MAX_INACTIVE as int)
            } else {
                more.inactive
            },
            last_activity: Some(now),
            ..more
        }
    }
}

/// The name of a device that may have none.
pub open spec fn known_name(device_id: Option<DeviceId>) -> Seq<char> {
    match device_id {
        Some(id) => id@,
        None => "unknown"@,
    }
}

/// What is known of a device.
pub open spec fn device_or_fresh(
    book: Map<Seq<char>, PeerDeviceModel>,
    device_id: Seq<char>,
    now: UnixSeconds,
) -> PeerDeviceModel {
    if book.contains_key(device_id) {
        book[device_id]
    } else {
        fresh_device(device_id, now)
    }
}

/// Whether a state is among those of sessions.
pub(crate) fn contains_state(sessions: &Vec<Session>, state: &SessionState) -> (r: bool)
    ensures
        r == session_models(sessions@).contains(state@),
{
    let mut i: usize = 0;
    while i < sessions.len()
        invariant
            i <= sessions@.len(),
            forall|j: int| 0 <= j < i ==> session_models(sessions@)[j] != state@,
        decreases sessions@.len() - i,
    {
        if sessions[i].state.same(state) {
            assert(session_models(sessions@)[i as int] == state@);
            return true;
        }
        i = i + 1;
    }
    false
}

pub(crate) fn is_active(active: &Option<Session>, state: &SessionState) -> (r: bool)
    ensures
        r == (optional_session(*active) == Some(state@)),
{
    match active {
        Some(session) => session.state.same(state),
        None => false,
    }
}

impl PeerDeviceState {
    fn contains_session_state(&self, state: &SessionState) -> (r: bool)
        ensures
            r == (self@.active == Some(state@) || self@.inactive.contains(state@)),
    {
        is_active(&self.active_session, state) || contains_state(&self.inactive_sessions, state)
    }

    fn compact_duplicate_sessions(&mut self)
        ensures
            final(self)@ == compacted(old(self)@),
    {
        let mut kept: Vec<Session> = Vec::new();
        let ghost all = old(self)@.inactive;
        let ghost active = old(self)@.active;
        let mut sessions: Vec<Session> = Vec::new();
        std::mem::swap(&mut sessions, &mut self.inactive_sessions);
        let mut i: usize = 0;
        assert(all.take(0) =~= Seq::empty());
        assert(session_models(kept@) =~= Seq::empty());
        while i < sessions.len()
            invariant
                i <= sessions@.len(),
                all == session_models(sessions@),
                active == optional_session(self.active_session),
                session_models(kept@) == distinct(all.take(i as int), active),
            decreases sessions@.len() - i,
        {
            let ghost before = session_models(kept@);
            assert(all.take(i + 1).drop_last() =~= all.take(i as int));
            assert(all.take(i + 1).last() == sessions@[i as int]@);
            if !is_active(&self.active_session, &sessions[i].state) && !contains_state(
                &kept,
                &sessions[i].state,
            ) {
                kept.push(sessions[i].clone());
                assert(session_models(kept@) =~= before.push(sessions@[i as int]@));
            }
            i = i + 1;
        }
        assert(all.take(i as int) =~= all);
        self.inactive_sessions = kept;
    }

    fn add_session(&mut self, session: Session)
        ensures
            final(self)@ == with_session(old(self)@, session@),
    {
        let ghost before = self@;
        let ghost new = session@;
        match self.active_session.take() {
            None => {
                self.active_session = Some(session);
            },
            Some(old_session) => {
                if is_below(session_priority(&old_session), session_priority(&session)) {
                    self.inactive_sessions.push(old_session);
                    self.active_session = Some(session);
                    assert(self@.inactive =~= before.inactive.push(before.active->Some_0));
                } else {
                    self.inactive_sessions.push(session);
                    self.active_session = Some(old_session);
                    assert(self@.inactive =~= before.inactive.push(new));
                }
            },
        }
    }

    fn upsert(&mut self, session: Session, now: UnixSeconds)
        ensures
            final(self)@ == upserted(old(self)@, session@, now),
    {
        if self.contains_session_state(&session.state) {
            self.compact_duplicate_sessions();
            self.last_activity = Some(now);
            return;
        }
        self.add_session(session);
        self.compact_duplicate_sessions();
        let ghost more = self@;
        if self.inactive_sessions.len() > MAX_INACTIVE {
            self.inactive_sessions.truncate(MAX_INACTIVE);
            assert(self@.inactive =~= more.inactive.take(MAX_INACTIVE as int));
        }
        self.last_activity = Some(now);
    }
}

// ---------------------------------------------------------------------------
// Choosing a session
// ---------------------------------------------------------------------------

/// Whether something can be sent to a device.
pub open spec fn sendable_to(device: PeerDeviceModel) -> bool {
    !device.is_stale && device.active is Some && may_send(device.active->Some_0)
}

/// Whether a device is the one to send to: none has a better session, and of
/// those whose sessions are equally good it is the last by name.
pub open spec fn send_choice(book: Map<Seq<char>, PeerDeviceModel>, name: Seq<char>) -> bool {
    &&& book.contains_key(name)
    &&& sendable_to(book[name])
    &&& forall|other: Seq<char>| #[trigger]
        book.contains_key(other) && sendable_to(book[other]) ==> {
            ||| other == name
            ||| below(active_priority(book[other].active), active_priority(book[name].active))
            ||| active_priority(book[other].active) == active_priority(book[name].active)
                && <DeviceId as OrderedKey>::before(other, name)
        }
}

/// The devices that are in use, with the priorities of their sessions.
pub open spec fn live(book: Map<Seq<char>, PeerDeviceModel>) -> Set<((u8, u32, u32), Seq<char>)> {
    Set::new(
        |x: ((u8, u32, u32), Seq<char>)|
            book.contains_key(x.1) && !book[x.1].is_stale && x.0 == active_priority(
                book[x.1].active,
            ),
    )
}

/// The devices that are in use, the best first.
pub open spec fn ranked(book: Map<Seq<char>, PeerDeviceModel>) -> Seq<Seq<char>> {
    Seq::new(
        ordered::<ScoredDevice>(live(book)).len(),
        |i: int| ordered::<ScoredDevice>(live(book))[i].1,
    )
}

/// Names with one of them moved to the front, if it is among them.
pub open spec fn preferred_first(names: Seq<Seq<char>>, preferred: Option<Seq<char>>) -> Seq<
    Seq<char>,
> {
    match preferred {
        Some(name) => if names.contains(name) {
            seq![name] + names.remove(names.index_of_first(name)->Some_0)
        } else {
            names
        },
        None => names,
    }
}

/// Where the first of some sessions stands that listens to a sender.
pub open spec fn first_expecting(sessions: Seq<SessionModel>, sender: DevicePubkey) -> Option<int> {
    if exists|i: int| 0 <= i < sessions.len() && expects(#[trigger] sessions[i], sender) {
        Some(
            choose|i: int|
                0 <= i < sessions.len() && expects(#[trigger] sessions[i], sender) && forall|j: int|
                    0 <= j < i ==> !expects(#[trigger] sessions[j], sender),
        )
    } else {
        None
    }
}

/// Which session of a device listens to a sender: the active one, or one at a
/// place among the others.
pub open spec fn listener(device: PeerDeviceModel, sender: DevicePubkey) -> Option<Option<int>> {
    if device.active is Some && expects(device.active->Some_0, sender) {
        Some(None)
    } else {
        match first_expecting(device.inactive, sender) {
            Some(i) => Some(Some(i)),
            None => None,
        }
    }
}

/// The first device, in some order, with a session that listens to a sender.
pub open spec fn receive_choice(
    book: Map<Seq<char>, PeerDeviceModel>,
    names: Seq<Seq<char>>,
    sender: DevicePubkey,
) -> Option<(Seq<char>, Option<int>)>
    decreases names.len(),
{
    if names.len() == 0 {
        None
    } else {
        match listener(book[names[0]], sender) {
            Some(at) => Some((names[0], at)),
            None => receive_choice(book, names.drop_first(), sender),
        }
    }
}

/// The session of a device at a place.
pub open spec fn session_at(device: PeerDeviceModel, at: Option<int>) -> SessionModel {
    match at {
        None => device.active->Some_0,
        Some(i) => device.inactive[i],
    }
}

pub open spec fn device_names(ids: Seq<DeviceId>) -> Seq<Seq<char>> {
    Seq::new(ids.len(), |i: int| ids[i]@)
}

pub proof fn lemma_first_expecting(sessions: Seq<SessionModel>, sender: DevicePubkey, n: int)
    requires
        0 <= n < sessions.len(),
        expects(sessions[n], sender),
        forall|j: int| 0 <= j < n ==> !expects(#[trigger] sessions[j], sender),
    ensures
        first_expecting(sessions, sender) == Some(n),
{
    let i = first_expecting(sessions, sender)->Some_0;
    assert(expects(sessions[i], sender));
    if i < n {
        assert(!expects(sessions[i], sender));
    }
    if n < i {
        assert(!expects(sessions[n], sender));
    }
}

impl PeerDeviceState {
    /// Which session listens to a sender.
    fn find_listener(&self, sender: DevicePubkey) -> (r: Option<Option<usize>>)
        ensures
            match r {
                None => listener(self@, sender) is None,
                Some(None) => listener(self@, sender) == Some(None::<int>),
                Some(Some(i)) => listener(self@, sender) == Some(Some(i as int)) && i
                    < self.inactive_sessions@.len(),
            },
    {
        if let Some(session) = &self.active_session {
            if session.matches_sender(sender) {
                return Some(None);
            }
        }
        let mut i: usize = 0;
        while i < self.inactive_sessions.len()
            invariant
                i <= self.inactive_sessions@.len(),
                !(self@.active is Some && expects(self@.active->Some_0, sender)),
                forall|j: int| 0 <= j < i ==> !expects(#[trigger] self@.inactive[j], sender),
            decreases self.inactive_sessions@.len() - i,
        {
            assert(self@.inactive[i as int] == self.inactive_sessions@[i as int]@);
            if self.inactive_sessions[i].matches_sender(sender) {
                proof {
                    lemma_first_expecting(self@.inactive, sender, i as int);
                }
                return Some(Some(i));
            }
            i = i + 1;
        }
        None
    }
}

/// What receiving makes of a device whose inactive session has received: that
/// session becomes active if it is no worse than the active one.
pub open spec fn promoted(device: PeerDeviceModel, index: int, next: SessionModel) -> PeerDeviceModel {
    let others = device.inactive.remove(index);
    compacted(
        match device.active {
            None => PeerDeviceModel { active: Some(next), inactive: others, ..device },
            Some(active) => if below(priority(next), priority(active)) {
                PeerDeviceModel { inactive: others.push(next), ..device }
            } else {
                PeerDeviceModel { active: Some(next), inactive: others.push(active), ..device }
            },
        },
    )
}

/// Why a received message cannot be taken over, if it cannot.
pub open spec fn commit_fault(
    book: Map<Seq<char>, PeerDeviceModel>,
    name: Seq<char>,
    active_match: bool,
    index: Option<usize>,
) -> bool {
    ||| !book.contains_key(name)
    ||| active_match && book[name].active is None
    ||| !active_match && (index is None || index->Some_0 >= book[name].inactive.len())
}

/// A device that has taken over a received message.
pub open spec fn received(
    device: PeerDeviceModel,
    active_match: bool,
    index: Option<usize>,
    next: SessionModel,
    now: UnixSeconds,
) -> PeerDeviceModel {
    let after = if active_match {
        PeerDeviceModel { active: Some(next), ..device }
    } else {
        promoted(device, index->Some_0 as int, next)
    };
    PeerDeviceModel { last_activity: Some(now), ..after }
}

fn invalid_state(text: &str) -> (r: Error)
    ensures
        fault(r) == Fault::InvalidState,
{
    Error::Domain(DomainError::InvalidState(text.to_string()))
}

impl PeerBook {
    pub fn new() -> (r: Self)
        ensures
            r@ == Map::<Seq<char>, PeerDeviceModel>::empty(),
    {
        let r = PeerBook { device_records: VecMap::new() };
        assert(r@ =~= Map::<Seq<char>, PeerDeviceModel>::empty());
        r
    }

    /// Takes a session in, under its device.
    pub fn upsert_session(
        &mut self,
        device_id: Option<DeviceId>,
        session: Session,
        now: UnixSeconds,
    )
        ensures
            final(self)@ == old(self)@.insert(
                known_name(device_id),
                upserted(
                    device_or_fresh(old(self)@, known_name(device_id), now),
                    session@,
                    now,
                ),
            ),
    {
        let ghost before = self@;
        let ghost new = session@;
        let device_id: DeviceId = match device_id {
            Some(id) => id,
            None => DeviceId::new("unknown"),
        };
        let mut device = match self.device_records.remove(&device_id) {
            Some(device) => device,
            None => PeerDeviceState {
                device_id: device_id.clone(),
                active_session: None,
                inactive_sessions: Vec::new(),
                created_at: now,
                is_stale: false,
                stale_timestamp: None,
                last_activity: Some(now),
            },
        };
        assert(device@ == device_or_fresh(before, device_id@, now)) by {
            assert(!before.contains_key(device_id@) ==> device@.inactive =~= Seq::empty());
        }
        device.upsert(session, now);
        let ghost after = device@;
        self.device_records.insert(device_id, device);
        assert(self@ =~= before.insert(device_id@, after));
    }

    /// The device to send to, if there is one.
    pub fn plan_send(&self) -> (r: Option<PeerBookSendPlan>)
        ensures
            match r {
                Some(plan) => send_choice(self@, plan.device_id@),
                None => forall|name: Seq<char>| #[trigger]
                    self@.contains_key(name) ==> !sendable_to(self@[name]),
            },
    {
        let n: usize = self.device_records.len();
        let ghost order = self.device_records.order();
        let mut best: Option<usize> = None;
        let mut best_score: (u8, u32, u32) = (0, 0, 0);
        let mut i: usize = 0;
        while i < n
            invariant
                i <= n,
                n == order.len(),
                order == self.device_records.order(),
                lists::<DeviceId>(order, self.device_records@.dom()),
                match best {
                    None => forall|j: int|
                        0 <= j < i ==> !sendable_to(self@[#[trigger] order[j]]),
                    Some(b) => {
                        &&& b < i
                        &&& sendable_to(self@[order[b as int]])
                        &&& best_score == active_priority(self@[order[b as int]].active)
                        &&& forall|j: int|
                            0 <= j < i && j != b && sendable_to(self@[#[trigger] order[j]]) ==> {
                                ||| below(active_priority(self@[order[j]].active), best_score)
                                ||| active_priority(self@[order[j]].active) == best_score && j < b
                            }
                    },
                },
            decreases n - i,
        {
            let device = self.device_records.value_at(i);
            assert(self.device_records@.contains_key(order[i as int]));
            assert(device@ == self@[order[i as int]]);
            let sendable: bool = match &device.active_session {
                Some(session) => !device.is_stale && session.can_send(),
                None => false,
            };
            if sendable {
                let score = optional_priority(&device.active_session);
                let better: bool = match best {
                    None => true,
                    Some(_) => !is_below(score, best_score),
                };
                if better {
                    best = Some(i);
                    best_score = score;
                }
            }
            i = i + 1;
        }
        proof {
            assert forall|name: Seq<char>| #[trigger] self@.contains_key(name) implies exists|j: int|
                0 <= j < order.len() && #[trigger] order[j] == name by {
                assert(self.device_records@.dom().contains(name));
                assert(order.contains(name));
            }
        }
        match best {
            None => None,
            Some(b) => {
                let device_id = self.device_records.key_at(b).clone();
                proof {
                    let name = device_id@;
                    assert forall|other: Seq<char>| #[trigger]
                        self@.contains_key(other) && sendable_to(self@[other]) implies {
                        ||| other == name
                        ||| below(
                            active_priority(self@[other].active),
                            active_priority(self@[name].active),
                        )
                        ||| active_priority(self@[other].active) == active_priority(
                            self@[name].active,
                        ) && <DeviceId as OrderedKey>::before(other, name)
                    } by {
                        let j = choose|j: int| 0 <= j < order.len() && #[trigger] order[j] == other;
                        if j < b {
                            assert(<DeviceId as OrderedKey>::before(order[j], order[b as int]));
                        }
                    }
                }
                Some(PeerBookSendPlan { device_id })
            },
        }
    }

    /// Sends a rumor on the active session of a device.
    pub fn apply_send(&mut self, now: UnixSeconds, plan: &PeerBookSendPlan, rumor: &Rumor) -> (r:
        Result<SendOutcome, Error>)
        ensures
            sends(old(self)@, final(self)@, plan.device_id@, rumor@, now, r),
    {
        let ghost before = self@;
        let mut device = match self.device_records.remove(&plan.device_id) {
            Some(device) => device,
            None => {
                assert(self@ =~= before);
                return Err(invalid_state("missing send device"));
            },
        };
        let ghost known = device@;
        let mut session = match device.active_session.take() {
            Some(session) => session,
            None => {
                assert(device@ =~= known);
                self.device_records.insert(plan.device_id.clone(), device);
                assert(self@ =~= before);
                return Err(invalid_state("missing active session"));
            },
        };
        let planned = session.plan_send(rumor, now);
        match planned {
            Err(e) => {
                device.active_session = Some(session);
                assert(device@ =~= known);
                self.device_records.insert(plan.device_id.clone(), device);
                assert(self@ =~= before);
                Err(e)
            },
            Ok(send_plan) => {
                let outcome = session.apply_send(send_plan);
                let ghost next = session@;
                device.active_session = Some(session);
                device.last_activity = Some(now);
                let ghost after = device@;
                assert(after =~= (PeerDeviceModel {
                    active: Some(next),
                    last_activity: Some(now),
                    ..known
                }));
                self.device_records.insert(plan.device_id.clone(), device);
                assert(self@ =~= before.insert(plan.device_id@, after));
                Ok(outcome)
            },
        }
    }

    /// The devices in the order in which they are asked for a session.
    fn prioritized_device_ids(&self, preferred_device_id: Option<&DeviceId>) -> (r: Vec<DeviceId>)
        ensures
            device_names(r@) == preferred_first(
                ranked(self@),
                match preferred_device_id {
                    Some(id) => Some(id@),
                    None => None,
                },
            ),
            forall|i: int|
                0 <= i < r@.len() ==> self@.contains_key((#[trigger] r@[i])@)
                    && !self@[r@[i]@].is_stale,
    {
        let mut scored: VecSet<ScoredDevice> = VecSet::new();
        let n: usize = self.device_records.len();
        let ghost order = self.device_records.order();
        let mut i: usize = 0;
        while i < n
            invariant
                i <= n,
                n == order.len(),
                order == self.device_records.order(),
                lists::<DeviceId>(order, self.device_records@.dom()),
                forall|x: ((u8, u32, u32), Seq<char>)| #[trigger]
                    scored@.contains(x) <==> live(self@).contains(x) && exists|j: int|
                        0 <= j < i && #[trigger] order[j] == x.1,
            decreases n - i,
        {
            let device = self.device_records.value_at(i);
            let ghost before = scored@;
            assert(device@ == self@[order[i as int]]);
            assert(self.device_records@.contains_key(order[i as int]));
            if !device.is_stale {
                scored.insert(
                    ScoredDevice {
                        score: optional_priority(&device.active_session),
                        device_id: self.device_records.key_at(i).clone(),
                    },
                );
            }
            proof {
                assert forall|x: ((u8, u32, u32), Seq<char>)| #[trigger]
                    scored@.contains(x) <==> live(self@).contains(x) && exists|j: int|
                    0 <= j < i + 1 && #[trigger] order[j] == x.1 by {
                    if scored@.contains(x) {
                        if before.contains(x) {
                            let j = choose|j: int| 0 <= j < i && #[trigger] order[j] == x.1;
                            assert(order[j] == x.1);
                        } else {
                            assert(order[i as int] == x.1);
                        }
                    }
                    if live(self@).contains(x) && (exists|j: int|
                        0 <= j < i + 1 && #[trigger] order[j] == x.1) {
                        let j = choose|j: int| 0 <= j < i + 1 && #[trigger] order[j] == x.1;
                        if j < i {
                            assert(before.contains(x));
                        }
                    }
                }
            }
            i = i + 1;
        }
        proof {
            assert forall|x: ((u8, u32, u32), Seq<char>)| #[trigger] scored@.contains(x)
                <==> live(self@).contains(x) by {
                if live(self@).contains(x) {
                    assert(self.device_records@.dom().contains(x.1));
                    assert(order.contains(x.1));
                    let j = choose|j: int| 0 <= j < order.len() && order[j] == x.1;
                    assert(order[j] == x.1);
                }
            }
            assert(scored@ =~= live(self@));
        }
        let m: usize = scored.len();
        let mut r: Vec<DeviceId> = Vec::new();
        let mut k: usize = 0;
        while k < m
            invariant
                k <= m,
                scored@ == live(self@),
                m == ordered::<ScoredDevice>(scored@).len(),
                r@.len() == k,
                forall|j: int|
                    0 <= j < k ==> (#[trigger] r@[j])@ == ranked(self@)[j] && self@.contains_key(
                        r@[j]@,
                    ) && !self@[r@[j]@].is_stale,
            decreases m - k,
        {
            r.push(scored.at(k).device_id.clone());
            k = k + 1;
        }
        assert(device_names(r@) =~= ranked(self@));
        if let Some(preferred) = preferred_device_id {
            let ghost names = device_names(r@);
            let mut p: usize = 0;
            while p < r.len()
                invariant
                    p <= r@.len(),
                    names == device_names(r@),
                    names == ranked(self@),
                    preferred_device_id == Some(preferred),
                    forall|j: int| 0 <= j < p ==> names[j] != preferred@,
                    forall|j: int|
                        0 <= j < r@.len() ==> self@.contains_key((#[trigger] r@[j])@)
                            && !self@[r@[j]@].is_stale,
                decreases r@.len() - p,
            {
                if r[p] == *preferred {
                    let ghost unmoved = r@;
                    let found = r.remove(p);
                    r.insert(0, found);
                    proof {
                        assert(names[p as int] == preferred@);
                        assert(names.contains(preferred@));
                        names.index_of_first_ensures(preferred@);
                        assert(names.index_of_first(preferred@) == Some(p as int));
                        assert(device_names(r@) =~= seq![preferred@] + names.remove(p as int));
                        assert forall|j: int| 0 <= j < r@.len() implies self@.contains_key(
                            (#[trigger] r@[j])@,
                        ) && !self@[r@[j]@].is_stale by {
                            let q = if j == 0 {
                                p as int
                            } else if j <= p {
                                j - 1
                            } else {
                                j
                            };
                            assert(r@[j] == unmoved[q]);
                        }
                    }
                    return r;
                }
                p = p + 1;
            }
            assert(!names.contains(preferred@));
        }
        r
    }

    /// Decrypts a message with the first session that listens to its sender.
    /// The book itself is left as it is.
    pub fn plan_receive(
        &self,
        ctx: &mut ProtocolContext<'_>,
        envelope: &IncomingDirectMessageEnvelope,
        preferred_device_id: Option<&DeviceId>,
    ) -> (r: Result<Option<PeerBookReceivePlan>, Error>)
        ensures
            final(ctx).now_secs == old(ctx).now_secs,
            final(ctx).now_millis == old(ctx).now_millis,
            plans_from(
                self@,
                envelope@,
                match preferred_device_id {
                    Some(id) => Some(id@),
                    None => None,
                },
                r,
            ),
            r matches Ok(Some(plan)) ==> !commit_fault(
                self@,
                plan.device_id@,
                plan.active_match,
                plan.inactive_index,
            ),
    {
        let ids = self.prioritized_device_ids(preferred_device_id);
        let ghost names = device_names(ids@);
        let mut i: usize = 0;
        assert(names.skip(0) =~= names);
        while i < ids.len()
            invariant
                i <= ids@.len(),
                names == device_names(ids@),
                names == preferred_first(
                    ranked(self@),
                    match preferred_device_id {
                        Some(id) => Some(id@),
                        None => None,
                    },
                ),
                receive_choice(self@, names, envelope.sender) == receive_choice(
                    self@,
                    names.skip(i as int),
                    envelope.sender,
                ),
                forall|j: int|
                    0 <= j < ids@.len() ==> self@.contains_key((#[trigger] ids@[j])@)
                        && !self@[ids@[j]@].is_stale,
                ctx.now_secs == old(ctx).now_secs,
                ctx.now_millis == old(ctx).now_millis,
            decreases ids@.len() - i,
        {
            assert(names.skip(i as int)[0] == ids@[i as int]@);
            assert(names.skip(i as int).drop_first() =~= names.skip(i + 1));
            assert(self@.contains_key(ids@[i as int]@));
            if let Some(device) = self.device_records.get(&ids[i]) {
                assert(device@ == self@[ids@[i as int]@]);
                if let Some(place) = device.find_listener(envelope.sender) {
                    match place {
                        None => {
                            if let Some(session) = &device.active_session {
                                let planned = session.plan_receive(ctx, envelope);
                                return match planned {
                                    Ok(session_plan) => Ok(
                                        Some(
                                            PeerBookReceivePlan {
                                                device_id: ids[i].clone(),
                                                active_match: true,
                                                inactive_index: None,
                                                session_plan,
                                            },
                                        ),
                                    ),
                                    Err(e) => Err(e),
                                };
                            }
                        },
                        Some(index) => {
                            let planned = device.inactive_sessions[index].plan_receive(
                                ctx,
                                envelope,
                            );
                            return match planned {
                                Ok(session_plan) => Ok(
                                    Some(
                                        PeerBookReceivePlan {
                                            device_id: ids[i].clone(),
                                            active_match: false,
                                            inactive_index: Some(index),
                                            session_plan,
                                        },
                                    ),
                                ),
                                Err(e) => Err(e),
                            };
                        },
                    }
                }
            }
            i = i + 1;
        }
        assert(names.skip(i as int).len() == 0);
        Ok(None)
    }

    /// Takes over a message that was decrypted.
    pub fn commit_receive(&mut self, now: UnixSeconds, plan: PeerBookReceivePlan) -> (r: Result<
        ReceiveOutcome,
        Error,
    >)
        ensures
            match r {
                Ok(outcome) => {
                    &&& !commit_fault(
                        old(self)@,
                        plan.device_id@,
                        plan.active_match,
                        plan.inactive_index,
                    )
                    &&& outcome.rumor == plan.session_plan.rumor
                    &&& outcome.sender == plan.session_plan.sender
                    &&& final(self)@ == old(self)@.insert(
                        plan.device_id@,
                        received(
                            old(self)@[plan.device_id@],
                            plan.active_match,
                            plan.inactive_index,
                            plan.session_plan.next_state@,
                            now,
                        ),
                    )
                },
                Err(e) => fault(e) == Fault::InvalidState && commit_fault(
                    old(self)@,
                    plan.device_id@,
                    plan.active_match,
                    plan.inactive_index,
                ) && final(self)@ == old(self)@,
            },
    {
        let ghost before = self@;
        let mut device = match self.device_records.remove(&plan.device_id) {
            Some(device) => device,
            None => {
                assert(self@ =~= before);
                return Err(invalid_state("missing receive device"));
            },
        };
        let ghost known = device@;
        let ghost next = plan.session_plan.next_state@;
        let outcome = if plan.active_match {
            match device.active_session.take() {
                None => {
                    assert(device@ =~= known);
                    self.device_records.insert(plan.device_id, device);
                    assert(self@ =~= before);
                    return Err(invalid_state("missing active session"));
                },
                Some(active) => {
                    let mut session = active;
                    let outcome = session.apply_receive(plan.session_plan);
                    device.active_session = Some(session);
                    assert(device@ =~= (PeerDeviceModel { active: Some(next), ..known }));
                    outcome
                },
            }
        } else {
            let index: usize = match plan.inactive_index {
                Some(index) => index,
                None => {
                    self.device_records.insert(plan.device_id, device);
                    assert(self@ =~= before);
                    return Err(invalid_state("missing inactive index"));
                },
            };
            if index >= device.inactive_sessions.len() {
                self.device_records.insert(plan.device_id, device);
                assert(self@ =~= before);
                return Err(invalid_state("inactive index out of bounds"));
            }
            let mut session = device.inactive_sessions.remove(index);
            let ghost others = known.inactive.remove(index as int);
            assert(device@.inactive =~= others);
            let outcome = session.apply_receive(plan.session_plan);
            match device.active_session.take() {
                Some(active) => {
                    if is_below(session_priority(&session), session_priority(&active)) {
                        device.inactive_sessions.push(session);
                        device.active_session = Some(active);
                        assert(device@.inactive =~= others.push(next));
                    } else {
                        device.inactive_sessions.push(active);
                        device.active_session = Some(session);
                        assert(device@.inactive =~= others.push(known.active->Some_0));
                    }
                },
                None => {
                    device.active_session = Some(session);
                },
            }
            device.compact_duplicate_sessions();
            assert(device@ == promoted(known, index as int, next));
            outcome
        };
        device.last_activity = Some(now);
        let ghost after = device@;
        self.device_records.insert(plan.device_id, device);
        assert(self@ =~= before.insert(plan.device_id@, after));
        Ok(outcome)
    }

    /// The sessions as they are kept, by device, in the order of the names.
    pub fn snapshot(&self) -> (r: StoredPeerBook)
        ensures
            stored_devices(r.devices@) == ordered_values::<
                DeviceId,
                PeerDeviceModel,
            >(self@),
            lists::<DeviceId>(ordered::<DeviceId>(self@.dom()), self@.dom()),
    {
        let mut devices: Vec<StoredPeerDevice> = Vec::new();
        let n: usize = self.device_records.len();
        let ghost order = self.device_records.order();
        assert(self@.dom() =~= self.device_records@.dom());
        let mut i: usize = 0;
        while i < n
            invariant
                i <= n,
                n == order.len(),
                order == self.device_records.order(),
                devices@.len() == i,
                forall|j: int| 0 <= j < i ==> (#[trigger] devices@[j])@ == self@[order[j]],
            decreases n - i,
        {
            let device = self.device_records.value_at(i);
            assert(device@ == self@[order[i as int]]);
            devices.push(device.stored());
            i = i + 1;
        }
        assert(stored_devices(devices@) =~= ordered_values::<
            DeviceId,
            PeerDeviceModel,
        >(self@));
        StoredPeerBook { devices }
    }
}

pub open spec fn optional_state(state: Option<SessionState>) -> Option<SessionModel> {
    match state {
        Some(state) => Some(state@),
        None => None,
    }
}

pub open spec fn state_models(states: Seq<SessionState>) -> Seq<SessionModel> {
    Seq::new(states.len(), |i: int| states[i]@)
}

impl View for StoredPeerDevice {
    type V = PeerDeviceModel;

    open spec fn view(&self) -> PeerDeviceModel {
        PeerDeviceModel {
            device_id: self.device_id@,
            active: optional_state(self.active_session),
            inactive: state_models(self.inactive_sessions@),
            created_at: self.created_at,
            is_stale: self.is_stale,
            stale_timestamp: self.stale_timestamp,
            last_activity: self.last_activity,
        }
    }
}

pub open spec fn stored_devices(devices: Seq<StoredPeerDevice>) -> Seq<PeerDeviceModel> {
    Seq::new(devices.len(), |i: int| devices[i]@)
}

impl PeerDeviceState {
    fn stored(&self) -> (r: StoredPeerDevice)
        ensures
            r@ == self@,
    {
        let active_session = match &self.active_session {
            Some(session) => Some(session.state.clone()),
            None => None,
        };
        let mut inactive_sessions: Vec<SessionState> = Vec::new();
        let mut i: usize = 0;
        while i < self.inactive_sessions.len()
            invariant
                i <= self.inactive_sessions@.len(),
                inactive_sessions@.len() == i,
                forall|j: int|
                    0 <= j < i ==> (#[trigger] inactive_sessions@[j])@ == self@.inactive[j],
            decreases self.inactive_sessions@.len() - i,
        {
            inactive_sessions.push(self.inactive_sessions[i].state.clone());
            i = i + 1;
        }
        assert(state_models(inactive_sessions@) =~= self@.inactive);
        StoredPeerDevice {
            device_id: self.device_id.clone(),
            active_session,
            inactive_sessions,
            created_at: self.created_at,
            is_stale: self.is_stale,
            stale_timestamp: self.stale_timestamp,
            last_activity: self.last_activity,
        }
    }
}

/// Whether a result is that of sending a rumor on the active session of a
/// device, and a book what it comes to.
pub open spec fn sends(
    before: Map<Seq<char>, PeerDeviceModel>,
    after: Map<Seq<char>, PeerDeviceModel>,
    name: Seq<char>,
    rumor: RumorModel,
    now: UnixSeconds,
    r: Result<SendOutcome, Error>,
) -> bool {
    if !before.contains_key(name) || before[name].active is None {
        (r matches Err(e) && fault(e) == Fault::InvalidState) && after == before
    } else {
        let m = before[name].active->Some_0;
        match r {
            Ok(outcome) => {
                &&& outcome_of(m, rumor, now, outcome)
                &&& after == before.insert(
                    name,
                    PeerDeviceModel {
                        active: Some(after_send(m)),
                        last_activity: Some(now),
                        ..before[name]
                    },
                )
            },
            Err(e) => after == before && send_refusal(
                m,
                rumor_bytes(rumor).len() as int,
            ) == Some(fault(e)),
        }
    }
}

/// Whether an outcome is that of sending a rumor on a session.
pub open spec fn outcome_of(
    m: SessionModel,
    rumor: RumorModel,
    now: UnixSeconds,
    outcome: SendOutcome,
) -> bool {
    &&& send_refusal(
        m,
        rumor_bytes(rumor).len() as int,
    ) is None
    &&& sent_by(m, outcome.envelope)
    &&& outcome.envelope.created_at == now
    &&& outcome.rumor@ == rumor
    &&& carries(
        m,
        outcome.envelope.encrypted_header@,
        outcome.envelope.ciphertext@,
        rumor_bytes(rumor),
    )
    &&& rumor_of_bytes(rumor_bytes(rumor)) == Ok::<
        RumorModel,
        Fault,
    >(identified(rumor))
}

/// Whether a result is what the first session that listens to the sender of a
/// message makes of it.
pub open spec fn plans_from(
    book: Map<Seq<char>, PeerDeviceModel>,
    envelope: EnvelopeModel,
    preferred: Option<Seq<char>>,
    r: Result<Option<PeerBookReceivePlan>, Error>,
) -> bool {
    match receive_choice(book, preferred_first(ranked(book), preferred), envelope.sender) {
        None => r matches Ok(found) && found is None,
        Some((name, at)) => {
            let m = session_at(book[name], at);
            match r {
                Ok(found) => {
                    &&& found is Some
                    &&& found->Some_0.device_id@ == name
                    &&& found->Some_0.active_match == (at is None)
                    &&& found->Some_0.inactive_index is Some == at is Some
                    &&& at matches Some(i) ==> found->Some_0.inactive_index->Some_0 == i
                    &&& drawn_receive(m, envelope, Ok(found->Some_0.session_plan))
                },
                Err(e) => drawn_receive(m, envelope, Err(e)),
            }
        },
    }
}

impl Default for PeerBook {
    fn default() -> (r: Self)
        ensures
            r@ == Map::<Seq<char>, PeerDeviceModel>::empty(),
    {
        PeerBook::new()
    }
}

// ---------------------------------------------------------------------------
// What a book keeps
// ---------------------------------------------------------------------------

/// Whether no session of a device is there twice.
pub open spec fn tidy(device: PeerDeviceModel) -> bool {
    &&& device.inactive.no_duplicates()
    &&& device.active matches Some(active) ==> !device.inactive.contains(active)
}

pub proof fn lemma_distinct(sessions: Seq<SessionModel>, active: Option<SessionModel>)
    ensures
        distinct(sessions, active).no_duplicates(),
        active matches Some(m) ==> !distinct(sessions, active).contains(m),
        distinct(sessions, active).len() <= sessions.len(),
        forall|m: SessionModel| #[trigger]
            distinct(sessions, active).contains(m) <==> sessions.contains(m) && active != Some(m),
    decreases sessions.len(),
{
    if sessions.len() > 0 {
        let less = sessions.drop_last();
        let last = sessions.last();
        lemma_distinct(less, active);
        let rest = distinct(less, active);
        let all = distinct(sessions, active);
        assert forall|m: SessionModel| #[trigger] sessions.contains(m) <==> less.contains(m) || m
            == last by {
            if sessions.contains(m) {
                let i = choose|i: int| 0 <= i < sessions.len() && sessions[i] == m;
                if i < less.len() {
                    assert(less[i] == m);
                }
            }
            if less.contains(m) {
                let i = choose|i: int| 0 <= i < less.len() && less[i] == m;
                assert(sessions[i] == m);
            }
            if m == last {
                assert(sessions[sessions.len() - 1] == m);
            }
        }
        assert forall|m: SessionModel| #[trigger] all.contains(m) <==> rest.contains(m) || (m == last
            && active != Some(m)) by {
            if all.contains(m) && !rest.contains(m) {
                let i = choose|i: int| 0 <= i < all.len() && all[i] == m;
                if i < rest.len() {
                    assert(rest[i] == m);
                }
            }
            if rest.contains(m) {
                let i = choose|i: int| 0 <= i < rest.len() && rest[i] == m;
                assert(all[i] == m);
            }
            if m == last && active != Some(m) && !rest.contains(m) {
                assert(all[rest.len() as int] == m);
            }
        }
        assert forall|i: int, j: int|
            0 <= i < all.len() && 0 <= j < all.len() && i != j implies all[i] != all[j] by {
            if i < rest.len() && j < rest.len() {
                assert(rest[i] != rest[j]);
            } else if i < rest.len() {
                assert(rest.contains(rest[i]));
            } else if j < rest.len() {
                assert(rest.contains(rest[j]));
            }
        }
    }
}

/// After a session was taken in, no session of the device is there twice, and
/// no more than may be are kept beside the active one.
pub proof fn upserting_keeps_order(device: PeerDeviceModel, session: SessionModel, now: UnixSeconds)
    requires
        device.inactive.len() <= MAX_INACTIVE,
    ensures
        tidy(upserted(device, session, now)),
        upserted(device, session, now).inactive.len() <= MAX_INACTIVE,
        upserted(device, session, now).active is Some || device.inactive.contains(session),
{
    lemma_distinct(device.inactive, device.active);
    let more = with_session(device, session);
    lemma_distinct(more.inactive, more.active);
    let kept = distinct(more.inactive, more.active);
    if kept.len() > MAX_INACTIVE {
        let cut = kept.take(MAX_INACTIVE as int);
        assert forall|m: SessionModel| cut.contains(m) implies kept.contains(m) by {
            let i = choose|i: int| 0 <= i < cut.len() && cut[i] == m;
            assert(kept[i] == m);
        }
    }
}

/// Taking a session in twice changes nothing more but the time.
pub proof fn upserting_twice_is_once(
    device: PeerDeviceModel,
    session: SessionModel,
    now: UnixSeconds,
    later: UnixSeconds,
)
    requires
        device.inactive.len() < MAX_INACTIVE,
    ensures
        upserted(upserted(device, session, now), session, later) == (PeerDeviceModel {
            last_activity: Some(later),
            ..upserted(device, session, now)
        }),
{
    let once = upserted(device, session, now);
    lemma_distinct(device.inactive, device.active);
    let more = with_session(device, session);
    lemma_distinct(more.inactive, more.active);
    lemma_distinct(once.inactive, once.active);
    if device.active == Some(session) || device.inactive.contains(session) {
        assert(once.active == Some(session) || once.inactive.contains(session));
    } else {
        if more.active != Some(session) {
            assert(more.inactive[more.inactive.len() - 1] == session);
            assert(more.inactive.contains(session));
        }
        assert(once.active == Some(session) || once.inactive.contains(session));
    }
    lemma_distinct_again(once.inactive, once.active);
}

proof fn lemma_distinct_again(sessions: Seq<SessionModel>, active: Option<SessionModel>)
    requires
        sessions.no_duplicates(),
        active matches Some(m) ==> !sessions.contains(m),
    ensures
        distinct(sessions, active) == sessions,
    decreases sessions.len(),
{
    if sessions.len() > 0 {
        let less = sessions.drop_last();
        let last = sessions.last();
        assert(sessions[sessions.len() - 1] == last);
        assert(sessions.contains(last));
        assert forall|m: SessionModel| less.contains(m) implies sessions.contains(m) && m != last by {
            let i = choose|i: int| 0 <= i < less.len() && less[i] == m;
            assert(sessions[i] == m);
            assert(sessions[i] != sessions[sessions.len() - 1]);
        }
        lemma_distinct_again(less, active);
        assert(less.push(last) =~= sessions);
    }
}

/// A device with a session that may be made the active one keeps all that it
/// had when the session receives.
pub proof fn receiving_keeps_order(
    device: PeerDeviceModel,
    index: usize,
    next: SessionModel,
    now: UnixSeconds,
)
    requires
        index < device.inactive.len(),
        device.inactive.len() <= MAX_INACTIVE,
    ensures
        tidy(received(device, false, Some(index), next, now)),
        received(device, false, Some(index), next, now).inactive.len() <= MAX_INACTIVE,
        ({
            let after = received(device, false, Some(index), next, now);
            after.active == Some(next) || after.inactive.contains(next)
        }),
{
    let others = device.inactive.remove(index as int);
    lemma_distinct(others, Some(next));
    if device.active is Some {
        let active = device.active->Some_0;
        lemma_distinct(others.push(next), device.active);
        lemma_distinct(others.push(active), Some(next));
        assert(others.push(next)[others.len() as int] == next);
        assert(others.push(next).contains(next));
    }
}

} // verus!
