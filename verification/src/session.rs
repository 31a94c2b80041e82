//! One end of a double-ratchet session.
use vstd::prelude::*;
use vstd::utf8::{decode_utf8, encode_utf8, valid_utf8};
use crate::collections::{lists_is_unique, VecMap};
use crate::crypto::{check_secret_key, public_key_of};
use crate::encoding::utf8_decode;
use crate::error::{fault, DomainError, Error, Fault};
use crate::ids::{DevicePubkey, UnixSeconds};
use crate::json::json_text;
use crate::order::same_bytes;
use crate::rumor::{identified, rumor_json, rumor_of, Rumor, RumorModel};
use crate::session::domain::{
    after_send, agrees_with, carries, decrypt_header, expects, first_state, init_state, may_send,
    ratchet_receive, receive, seal_message, send_refusal, turns, HeaderKey, SessionInitRuntime,
};
use crate::types::{chance_fails, random_secret_key_bytes, ProtocolContext};

pub mod domain;
pub mod properties;

verus! {

/// What a message says of its place in the sender's chain, and which key the
/// sender will use next.
#[derive(Debug, Clone, Copy, PartialEq, Eq)]
pub struct Header {
    pub number: u32,
    pub previous_chain_length: u32,
    pub next_public_key: DevicePubkey,
}

#[derive(Debug, Clone, Copy)]
pub struct SerializableKeyPair {
    pub public_key: DevicePubkey,
    pub private_key: [u8; 32],
}

/// The keys of messages of one sender that were skipped, by their number.
#[derive(Debug)]
pub struct SkippedKeysEntry {
    pub message_keys: VecMap<u32, [u8; 32]>,
}

#[derive(Debug)]
pub struct SessionState {
    pub root_key: [u8; 32],
    pub their_current_nostr_public_key: Option<DevicePubkey>,
    pub their_next_nostr_public_key: Option<DevicePubkey>,
    pub our_previous_nostr_key: Option<SerializableKeyPair>,
    pub our_current_nostr_key: Option<SerializableKeyPair>,
    pub our_next_nostr_key: SerializableKeyPair,
    pub receiving_chain_key: Option<[u8; 32]>,
    pub sending_chain_key: Option<[u8; 32]>,
    pub sending_chain_message_number: u32,
    pub receiving_chain_message_number: u32,
    pub previous_sending_chain_message_count: u32,
    pub skipped_keys: VecMap<DevicePubkey, SkippedKeysEntry>,
}

/// What a session state says.
#[verifier::ext_equal]
pub struct SessionModel {
    pub root_key: [u8; 32],
    pub their_current: Option<DevicePubkey>,
    pub their_next: Option<DevicePubkey>,
    pub our_previous: Option<SerializableKeyPair>,
    pub our_current: Option<SerializableKeyPair>,
    pub our_next: SerializableKeyPair,
    pub receiving_chain_key: Option<[u8; 32]>,
    pub sending_chain_key: Option<[u8; 32]>,
    pub sending_number: u32,
    pub receiving_number: u32,
    pub previous_sending_count: u32,
    pub skipped: Map<DevicePubkey, Map<u32, [u8; 32]>>,
}

pub open spec fn skipped_model(entries: Map<DevicePubkey, SkippedKeysEntry>) -> Map<
    DevicePubkey,
    Map<u32, [u8; 32]>,
> {
    Map::new(
        |sender: DevicePubkey| entries.contains_key(sender),
        |sender: DevicePubkey| entries[sender].message_keys@,
    )
}

impl View for SessionState {
    type V = SessionModel;

    open spec fn view(&self) -> SessionModel {
        SessionModel {
            root_key: self.root_key,
            their_current: self.their_current_nostr_public_key,
            their_next: self.their_next_nostr_public_key,
            our_previous: self.our_previous_nostr_key,
            our_current: self.our_current_nostr_key,
            our_next: self.our_next_nostr_key,
            receiving_chain_key: self.receiving_chain_key,
            sending_chain_key: self.sending_chain_key,
            sending_number: self.sending_chain_message_number,
            receiving_number: self.receiving_chain_message_number,
            previous_sending_count: self.previous_sending_chain_message_count,
            skipped: skipped_model(self.skipped_keys@),
        }
    }
}

impl SkippedKeysEntry {
    pub fn empty() -> (r: Self)
        ensures
            r.message_keys@ == Map::<u32, [u8; 32]>::empty(),
    {
        SkippedKeysEntry { message_keys: VecMap::new() }
    }
}

impl Clone for SkippedKeysEntry {
    fn clone(&self) -> (r: Self)
        ensures
            r.message_keys@ == self.message_keys@,
    {
        let message_keys = self.message_keys.clone();
        assert(message_keys@ =~= self.message_keys@) by {
            assert forall|k: u32| self.message_keys@.contains_key(k) implies message_keys@[k]
                == self.message_keys@[k] by {
                assert(message_keys@[k] =~= self.message_keys@[k]);
            }
        }
        SkippedKeysEntry { message_keys }
    }
}

impl Clone for SessionState {
    fn clone(&self) -> (r: Self)
        ensures
            r@ == self@,
    {
        let skipped_keys = self.skipped_keys.clone();
        assert(skipped_model(skipped_keys@) =~= skipped_model(self.skipped_keys@));
        SessionState {
            root_key: self.root_key,
            their_current_nostr_public_key: self.their_current_nostr_public_key,
            their_next_nostr_public_key: self.their_next_nostr_public_key,
            our_previous_nostr_key: self.our_previous_nostr_key,
            our_current_nostr_key: self.our_current_nostr_key,
            our_next_nostr_key: self.our_next_nostr_key,
            receiving_chain_key: self.receiving_chain_key,
            sending_chain_key: self.sending_chain_key,
            sending_chain_message_number: self.sending_chain_message_number,
            receiving_chain_message_number: self.receiving_chain_message_number,
            previous_sending_chain_message_count: self.previous_sending_chain_message_count,
            skipped_keys,
        }
    }
}

impl SessionState {
    /// Whether two states say the same.
    pub fn same(&self, other: &SessionState) -> (r: bool)
        ensures
            r == (self@ == other@),
    {
        let fields: bool = same_bytes(&self.root_key, &other.root_key)
            && self.their_current_nostr_public_key == other.their_current_nostr_public_key
            && self.their_next_nostr_public_key == other.their_next_nostr_public_key
            && same_key_pairs(&self.our_previous_nostr_key, &other.our_previous_nostr_key)
            && same_key_pairs(&self.our_current_nostr_key, &other.our_current_nostr_key)
            && self.our_next_nostr_key == other.our_next_nostr_key
            && same_chain_keys(&self.receiving_chain_key, &other.receiving_chain_key)
            && same_chain_keys(&self.sending_chain_key, &other.sending_chain_key)
            && self.sending_chain_message_number == other.sending_chain_message_number
            && self.receiving_chain_message_number == other.receiving_chain_message_number
            && self.previous_sending_chain_message_count
            == other.previous_sending_chain_message_count;
        fields && same_skipped_keys(&self.skipped_keys, &other.skipped_keys)
    }
}

impl PartialEq for SerializableKeyPair {
    fn eq(&self, other: &Self) -> (r: bool) {
        self.public_key == other.public_key && same_bytes(&self.private_key, &other.private_key)
    }
}

impl vstd::std_specs::cmp::PartialEqSpecImpl for SerializableKeyPair {
    open spec fn obeys_eq_spec() -> bool {
        true
    }

    open spec fn eq_spec(&self, other: &Self) -> bool {
        *self == *other
    }
}

fn same_key_pairs(a: &Option<SerializableKeyPair>, b: &Option<SerializableKeyPair>) -> (r: bool)
    ensures
        r == (*a == *b),
{
    match (a, b) {
        (Some(x), Some(y)) => *x == *y,
        (None, None) => true,
        _ => false,
    }
}

fn same_chain_keys(a: &Option<[u8; 32]>, b: &Option<[u8; 32]>) -> (r: bool)
    ensures
        r == (*a == *b),
{
    match (a, b) {
        (Some(x), Some(y)) => same_bytes(x, y),
        (None, None) => true,
        _ => false,
    }
}

fn same_message_keys(a: &VecMap<u32, [u8; 32]>, b: &VecMap<u32, [u8; 32]>) -> (r: bool)
    ensures
        r == (a@ == b@),
{
    let n: usize = a.len();
    let m: usize = b.len();
    proof {
        if a@ == b@ {
            lists_is_unique::<u32>(a.order(), b.order(), a@.dom());
        }
    }
    if n != m {
        return false;
    }
    let mut i: usize = 0;
    while i < n
        invariant
            i <= n,
            n == a.order().len(),
            n == b.order().len(),
            a@ == b@ ==> a.order() == b.order(),
            forall|j: int|
                0 <= j < i ==> a.order()[j] == b.order()[j] && a@[a.order()[j]] == b@[b.order()[j]],
        decreases n - i,
    {
        if *a.key_at(i) != *b.key_at(i) {
            return false;
        }
        if !same_bytes(a.value_at(i), b.value_at(i)) {
            return false;
        }
        i = i + 1;
    }
    proof {
        assert(a.order() =~= b.order());
        assert forall|k: u32| a@.contains_key(k) <==> b@.contains_key(k) by {
            assert(a@.dom().contains(k) <==> a.order().contains(k));
            assert(b@.dom().contains(k) <==> b.order().contains(k));
        }
        assert forall|k: u32| a@.contains_key(k) implies a@[k] == b@[k] by {
            assert(a@.dom().contains(k) <==> a.order().contains(k));
            let j = choose|j: int| 0 <= j < a.order().len() && a.order()[j] == k;
            assert(a@[a.order()[j]] == b@[b.order()[j]]);
        }
        assert(a@ =~= b@);
    }
    true
}

fn same_skipped_keys(
    a: &VecMap<DevicePubkey, SkippedKeysEntry>,
    b: &VecMap<DevicePubkey, SkippedKeysEntry>,
) -> (r: bool)
    ensures
        r == (skipped_model(a@) == skipped_model(b@)),
{
    let n: usize = a.len();
    let m: usize = b.len();
    proof {
        if skipped_model(a@) == skipped_model(b@) {
            assert(a@.dom() =~= skipped_model(a@).dom());
            assert(b@.dom() =~= skipped_model(b@).dom());
            lists_is_unique::<DevicePubkey>(a.order(), b.order(), a@.dom());
        }
    }
    if n != m {
        return false;
    }
    let mut i: usize = 0;
    while i < n
        invariant
            i <= n,
            n == a.order().len(),
            n == b.order().len(),
            skipped_model(a@) == skipped_model(b@) ==> a.order() == b.order(),
            forall|j: int|
                0 <= j < i ==> a.order()[j] == b.order()[j] && a@[a.order()[j]].message_keys@
                    == b@[b.order()[j]].message_keys@,
        decreases n - i,
    {
        let ka: DevicePubkey = *a.key_at(i);
        let kb: DevicePubkey = *b.key_at(i);
        if ka != kb {
            return false;
        }
        if !same_message_keys(&a.value_at(i).message_keys, &b.value_at(i).message_keys) {
            proof {
                if skipped_model(a@) == skipped_model(b@) {
                    assert(skipped_model(a@)[ka] == skipped_model(b@)[ka]);
                }
            }
            return false;
        }
        i = i + 1;
    }
    proof {
        assert(a.order() =~= b.order());
        assert forall|k: DevicePubkey| a@.contains_key(k) <==> b@.contains_key(k) by {
            assert(a@.dom().contains(k) <==> a.order().contains(k));
            assert(b@.dom().contains(k) <==> b.order().contains(k));
        }
        assert forall|k: DevicePubkey| a@.contains_key(k) implies a@[k].message_keys@
            == b@[k].message_keys@ by {
            assert(a@.dom().contains(k) <==> a.order().contains(k));
            let j = choose|j: int| 0 <= j < a.order().len() && a.order()[j] == k;
            assert(a@[a.order()[j]].message_keys@ == b@[b.order()[j]].message_keys@);
        }
        assert(skipped_model(a@) =~= skipped_model(b@));
    }
    true
}

/// A message on its way out, with the key that its event is signed with.
#[derive(Debug)]
pub struct OutgoingDirectMessageEnvelope {
    pub sender: DevicePubkey,
    pub signer_secret_key: [u8; 32],
    pub created_at: UnixSeconds,
    pub encrypted_header: String,
    pub ciphertext: String,
}

#[derive(Debug)]
pub struct IncomingDirectMessageEnvelope {
    pub sender: DevicePubkey,
    pub created_at: UnixSeconds,
    pub encrypted_header: String,
    pub ciphertext: String,
}

/// A message that could be sent, and the state that sending it leads to.
#[derive(Debug)]
pub struct SendPlan {
    pub next_state: SessionState,
    pub envelope: OutgoingDirectMessageEnvelope,
    pub rumor: Rumor,
}

#[derive(Debug)]
pub struct SendOutcome {
    pub envelope: OutgoingDirectMessageEnvelope,
    pub rumor: Rumor,
}

/// A message that could be received, and the state that receiving it leads to.
#[derive(Debug)]
pub struct ReceivePlan {
    pub next_state: SessionState,
    pub rumor: Rumor,
    pub sender: DevicePubkey,
}

#[derive(Debug)]
pub struct ReceiveOutcome {
    pub rumor: Rumor,
    pub sender: DevicePubkey,
}

/// What an envelope says.
#[verifier::ext_equal]
pub struct EnvelopeModel {
    pub sender: DevicePubkey,
    pub created_at: UnixSeconds,
    pub encrypted_header: Seq<char>,
    pub ciphertext: Seq<char>,
}

impl View for IncomingDirectMessageEnvelope {
    type V = EnvelopeModel;

    open spec fn view(&self) -> EnvelopeModel {
        EnvelopeModel {
            sender: self.sender,
            created_at: self.created_at,
            encrypted_header: self.encrypted_header@,
            ciphertext: self.ciphertext@,
        }
    }
}

impl View for OutgoingDirectMessageEnvelope {
    type V = EnvelopeModel;

    open spec fn view(&self) -> EnvelopeModel {
        EnvelopeModel {
            sender: self.sender,
            created_at: self.created_at,
            encrypted_header: self.encrypted_header@,
            ciphertext: self.ciphertext@,
        }
    }
}

impl Clone for OutgoingDirectMessageEnvelope {
    fn clone(&self) -> (r: Self)
        ensures
            r == *self,
    {
        OutgoingDirectMessageEnvelope {
            sender: self.sender,
            signer_secret_key: self.signer_secret_key,
            created_at: self.created_at,
            encrypted_header: self.encrypted_header.clone(),
            ciphertext: self.ciphertext.clone(),
        }
    }
}

impl Clone for IncomingDirectMessageEnvelope {
    fn clone(&self) -> (r: Self)
        ensures
            r == *self,
    {
        IncomingDirectMessageEnvelope {
            sender: self.sender,
            created_at: self.created_at,
            encrypted_header: self.encrypted_header.clone(),
            ciphertext: self.ciphertext.clone(),
        }
    }
}

impl Clone for SendPlan {
    fn clone(&self) -> (r: Self)
        ensures
            r.next_state@ == self.next_state@,
            r.envelope == self.envelope,
            r.rumor@ == self.rumor@,
    {
        SendPlan {
            next_state: self.next_state.clone(),
            envelope: self.envelope.clone(),
            rumor: self.rumor.clone(),
        }
    }
}

/// One end of a conversation.
#[derive(Debug)]
pub struct Session {
    pub state: SessionState,
    pub name: String,
}

impl View for Session {
    type V = SessionModel;

    open spec fn view(&self) -> SessionModel {
        self.state@
    }
}

impl Clone for Session {
    fn clone(&self) -> (r: Self)
        ensures
            r@ == self@,
            r.name == self.name,
    {
        Session { state: self.state.clone(), name: self.name.clone() }
    }
}

/// The rumor that a plaintext is.
pub open spec fn rumor_of_bytes(plaintext: Seq<u8>) -> Result<RumorModel, Fault> {
    if !valid_utf8(plaintext) {
        Err(Fault::Decryption)
    } else {
        match rumor_of(decode_utf8(plaintext)) {
            None => Err(Fault::Parse),
            Some(rumor) => Ok(rumor),
        }
    }
}

/// Receiving a message that is a rumor.
pub open spec fn receive_rumor(m: SessionModel, envelope: EnvelopeModel, next_secret: [u8; 32]) -> Result<
    (SessionModel, RumorModel),
    Fault,
> {
    match receive(
        m,
        envelope.sender,
        envelope.encrypted_header,
        envelope.ciphertext,
        next_secret,
    ) {
        Err(f) => Err(f),
        Ok((next, plaintext)) => match rumor_of_bytes(plaintext) {
            Err(f) => Err(f),
            Ok(rumor) => Ok((next, rumor)),
        },
    }
}

/// Whether a plan is what receiving a message comes to with a secret key.
pub open spec fn plans_receive(
    m: SessionModel,
    envelope: EnvelopeModel,
    next_secret: [u8; 32],
    r: Result<ReceivePlan, Error>,
) -> bool {
    match r {
        Ok(plan) => plan.sender == envelope.sender && receive_rumor(m, envelope, next_secret)
            == Ok::<(SessionModel, RumorModel), Fault>((plan.next_state@, plan.rumor@)),
        Err(e) => receive_rumor(m, envelope, next_secret) == Err::<
            (SessionModel, RumorModel),
            Fault,
        >(fault(e)),
    }
}

/// Whether a plan is what receiving a message comes to with some secret key.
/// Where the message turns the ratchet, the bytes that chance gave may be no
/// secret key.
pub open spec fn drawn_receive(
    m: SessionModel,
    envelope: EnvelopeModel,
    r: Result<ReceivePlan, Error>,
) -> bool {
    ||| exists|secret: [u8; 32]| #[trigger] plans_receive(m, envelope, secret, r)
    ||| turns(m, envelope.sender, envelope.encrypted_header) && chance_fails() && (r matches Err(e)
        && fault(e) == Fault::NostrKey)
}

/// Whether a session cannot be started with some second secret key, or chance
/// gives none.
pub open spec fn init_fails(
    theirs: DevicePubkey,
    ours: [u8; 32],
    is_initiator: bool,
    shared_secret: [u8; 32],
    f: Fault,
) -> bool {
    ||| f == Fault::NostrKey && (chance_fails() || public_key_of(ours) is None)
    ||| exists|next: [u8; 32]| #[trigger]
        first_state(theirs, ours, is_initiator, shared_secret, Some(next)) == Err::<
            SessionModel,
            Fault,
        >(f)
}

impl Session {
    pub fn new(state: SessionState, name: String) -> (r: Self)
        ensures
            r.state == state,
            r.name == name,
    {
        Session { state, name }
    }

    /// The session that starts with a second secret key.
    pub fn init_with(
        their_ephemeral_nostr_public_key: DevicePubkey,
        our_ephemeral_nostr_private_key: [u8; 32],
        is_initiator: bool,
        shared_secret: [u8; 32],
        our_next_private_key: [u8; 32],
        name: Option<String>,
    ) -> (r: Result<Self, Error>)
        ensures
            match r {
                Ok(session) => first_state(
                    their_ephemeral_nostr_public_key,
                    our_ephemeral_nostr_private_key,
                    is_initiator,
                    shared_secret,
                    Some(our_next_private_key),
                ) == Ok::<SessionModel, Fault>(session@) && session.name@ == match name {
                    Some(name) => name@,
                    None => "session"@,
                },
                Err(e) => first_state(
                    their_ephemeral_nostr_public_key,
                    our_ephemeral_nostr_private_key,
                    is_initiator,
                    shared_secret,
                    Some(our_next_private_key),
                ) == Err::<SessionModel, Fault>(fault(e)),
            },
            r matches Ok(session) ==> is_initiator ==> (forall|their_secret: [u8; 32]| #[trigger]
                agrees_with(session@, their_secret)),
    {
        let runtime = SessionInitRuntime { our_next_private_key: Some(our_next_private_key) };
        match init_state(
            their_ephemeral_nostr_public_key,
            our_ephemeral_nostr_private_key,
            is_initiator,
            shared_secret,
            runtime,
        ) {
            Err(e) => Err(e),
            Ok(state) => {
                let name = match name {
                    Some(name) => name,
                    None => "session".to_string(),
                };
                Ok(Session { state, name })
            },
        }
    }

    /// Starts a session. The second secret key is left to chance.
    pub fn init(
        ctx: &mut ProtocolContext<'_>,
        their_ephemeral_nostr_public_key: DevicePubkey,
        our_ephemeral_nostr_private_key: [u8; 32],
        is_initiator: bool,
        shared_secret: [u8; 32],
        name: Option<String>,
    ) -> (r: Result<Self, Error>)
        ensures
            final(ctx).now_secs == old(ctx).now_secs,
            final(ctx).now_millis == old(ctx).now_millis,
            match r {
                Ok(session) => first_state(
                    their_ephemeral_nostr_public_key,
                    our_ephemeral_nostr_private_key,
                    is_initiator,
                    shared_secret,
                    Some(if is_initiator {
                        session@.our_next.private_key
                    } else {
                        our_ephemeral_nostr_private_key
                    }),
                ) == Ok::<SessionModel, Fault>(session@) && session.name@ == match name {
                    Some(name) => name@,
                    None => "session"@,
                },
                Err(e) => init_fails(
                    their_ephemeral_nostr_public_key,
                    our_ephemeral_nostr_private_key,
                    is_initiator,
                    shared_secret,
                    fault(e),
                ),
            },
            r matches Ok(session) ==> is_initiator ==> (forall|their_secret: [u8; 32]| #[trigger]
                agrees_with(session@, their_secret)),
            public_key_of(our_ephemeral_nostr_private_key) is None ==> (r matches Err(e) && fault(e)
                == Fault::NostrKey),
    {
        match check_secret_key(&our_ephemeral_nostr_private_key) {
            Ok(()) => {},
            Err(e) => {
                return Err(Error::NostrKey(e));
            },
        }
        let our_next_private_key: [u8; 32] = match random_secret_key_bytes(ctx.rng) {
            Ok(secret) => secret,
            Err(e) => {
                return Err(e);
            },
        };
        Session::init_with(
            their_ephemeral_nostr_public_key,
            our_ephemeral_nostr_private_key,
            is_initiator,
            shared_secret,
            our_next_private_key,
            name,
        )
    }

    /// Starts the session of one who invites: it draws no key and waits for the
    /// first message.
    pub fn new_responder(
        their_ephemeral_nostr_public_key: DevicePubkey,
        our_ephemeral_nostr_private_key: [u8; 32],
        shared_secret: [u8; 32],
    ) -> (r: Result<Self, Error>)
        ensures
            match r {
                Ok(session) => session.name@ == "session"@ && first_state(
                    their_ephemeral_nostr_public_key,
                    our_ephemeral_nostr_private_key,
                    false,
                    shared_secret,
                    None,
                ) == Ok::<SessionModel, Fault>(session@),
                Err(e) => first_state(
                    their_ephemeral_nostr_public_key,
                    our_ephemeral_nostr_private_key,
                    false,
                    shared_secret,
                    None,
                ) == Err::<SessionModel, Fault>(fault(e)),
            },
    {
        match init_state(
            their_ephemeral_nostr_public_key,
            our_ephemeral_nostr_private_key,
            false,
            shared_secret,
            SessionInitRuntime { our_next_private_key: None },
        ) {
            Ok(state) => Ok(Session { state, name: "session".to_string() }),
            Err(e) => Err(e),
        }
    }

    pub fn can_send(&self) -> (r: bool)
        ensures
            r == may_send(self@),
    {
        self.state.their_next_nostr_public_key.is_some()
            && self.state.our_current_nostr_key.is_some()
    }

    /// Whether the session listens to a sender.
    pub fn matches_sender(&self, sender: DevicePubkey) -> (r: bool)
        ensures
            r == expects(self@, sender),
    {
        let current: bool = match self.state.their_current_nostr_public_key {
            Some(key) => key == sender,
            None => false,
        };
        let next: bool = match self.state.their_next_nostr_public_key {
            Some(key) => key == sender,
            None => false,
        };
        current || next || self.state.skipped_keys.contains_key(&sender)
    }

    /// Encrypts bytes as the next message. The session itself is left as it is.
    pub fn plan_send_payload(&self, payload: &[u8], now: UnixSeconds) -> (r: Result<
        (SessionState, OutgoingDirectMessageEnvelope),
        Error,
    >)
        ensures
            match r {
                Ok((next_state, envelope)) => {
                    &&& send_refusal(self@, payload@.len() as int) is None
                    &&& next_state@ == after_send(self@)
                    &&& sent_by(self@, envelope)
                    &&& envelope.created_at == now
                    &&& carries(self@, envelope.encrypted_header@, envelope.ciphertext@, payload@)
                },
                Err(e) => send_refusal(self@, payload@.len() as int) == Some(fault(e)),
            },
    {
        match seal_message(&self.state, payload) {
            Err(e) => Err(e),
            Ok((next_state, message)) => {
                let envelope = OutgoingDirectMessageEnvelope {
                    sender: message.sender.public_key,
                    signer_secret_key: message.sender.private_key,
                    created_at: now,
                    encrypted_header: message.encrypted_header,
                    ciphertext: message.ciphertext,
                };
                Ok((next_state, envelope))
            },
        }
    }

    /// Encrypts a rumor as the next message. The session itself is left as it
    /// is.
    pub fn plan_send(&self, rumor: &Rumor, now: UnixSeconds) -> (r: Result<SendPlan, Error>)
        ensures
            match r {
                Ok(plan) => {
                    &&& send_refusal(self@, rumor_bytes(rumor@).len() as int) is None
                    &&& plan.next_state@ == after_send(self@)
                    &&& sent_by(self@, plan.envelope)
                    &&& plan.envelope.created_at == now
                    &&& plan.rumor@ == rumor@
                    &&& carries(
                        self@,
                        plan.envelope.encrypted_header@,
                        plan.envelope.ciphertext@,
                        rumor_bytes(rumor@),
                    )
                    &&& rumor_of_bytes(rumor_bytes(rumor@)) == Ok::<RumorModel, Fault>(
                        identified(rumor@),
                    )
                },
                Err(e) => send_refusal(self@, rumor_bytes(rumor@).len() as int) == Some(fault(e)),
            },
    {
        let text = match rumor.to_json() {
            Ok(text) => text,
            Err(e) => {
                return Err(e);
            },
        };
        proof {
            vstd::utf8::encode_utf8_valid_utf8(text@);
            vstd::utf8::encode_utf8_decode_utf8(text@);
        }
        match self.plan_send_payload(text.as_str().as_bytes(), now) {
            Err(e) => Err(e),
            Ok((next_state, envelope)) => Ok(
                SendPlan { next_state, envelope, rumor: rumor.clone() },
            ),
        }
    }

    pub fn apply_send(&mut self, plan: SendPlan) -> (r: SendOutcome)
        ensures
            final(self).state == plan.next_state,
            final(self).name == old(self).name,
            r.envelope == plan.envelope,
            r.rumor == plan.rumor,
    {
        self.state = plan.next_state;
        SendOutcome { envelope: plan.envelope, rumor: plan.rumor }
    }

    /// Decrypts a message with a secret key for the case that it turns the
    /// ratchet. The session itself is left as it is.
    pub fn plan_receive_payload_with(
        &self,
        sender: DevicePubkey,
        encrypted_header: &str,
        ciphertext: &str,
        our_next_private_key: [u8; 32],
    ) -> (r: Result<(SessionState, Vec<u8>), Error>)
        ensures
            plans_payload(
                receive(
                    self@,
                    sender,
                    encrypted_header@,
                    ciphertext@,
                    our_next_private_key,
                ),
                r,
            ),
            r matches Ok((next_state, _)) ==> turns(self@, sender, encrypted_header@) ==> (forall|
                their_secret: [u8; 32],
            | #[trigger] agrees_with(next_state@, their_secret)),
    {
        if !self.matches_sender(sender) {
            return Err(Error::Domain(DomainError::UnexpectedSender));
        }
        let (header, key) = match decrypt_header(&self.state, encrypted_header, sender) {
            Ok(found) => found,
            Err(e) => {
                return Err(e);
            },
        };
        let mut next_state = self.state.clone();
        match ratchet_receive(
            &mut next_state,
            &header,
            key,
            ciphertext,
            sender,
            our_next_private_key,
        ) {
            Ok(plaintext) => Ok((next_state, plaintext)),
            Err(e) => Err(e),
        }
    }

    /// Decrypts a message. Where it turns the ratchet a secret key is left to
    /// chance. The session itself is left as it is.
    pub fn plan_receive_payload(
        &self,
        ctx: &mut ProtocolContext<'_>,
        sender: DevicePubkey,
        encrypted_header: &str,
        ciphertext: &str,
    ) -> (r: Result<(SessionState, Vec<u8>), Error>)
        ensures
            final(ctx).now_secs == old(ctx).now_secs,
            final(ctx).now_millis == old(ctx).now_millis,
            drawn_payload(self@, sender, encrypted_header@, ciphertext@, r),
            r matches Ok((next_state, _)) ==> turns(self@, sender, encrypted_header@) ==> (forall|
                their_secret: [u8; 32],
            | #[trigger] agrees_with(next_state@, their_secret)),
    {
        let no_secret: [u8; 32] = [0u8; 32];
        if !self.matches_sender(sender) {
            let r = Err(Error::Domain(DomainError::UnexpectedSender));
            assert(plans_payload(
                receive(self@, sender, encrypted_header@, ciphertext@, no_secret),
                r,
            ));
            return r;
        }
        let (header, key) = match decrypt_header(&self.state, encrypted_header, sender) {
            Ok(found) => found,
            Err(e) => {
                let r = Err(e);
                assert(plans_payload(
                    receive(self@, sender, encrypted_header@, ciphertext@, no_secret),
                    r,
                ));
                return r;
            },
        };
        let our_next_private_key: [u8; 32] = match key {
            HeaderKey::Next => match random_secret_key_bytes(ctx.rng) {
                Ok(secret) => secret,
                Err(e) => {
                    return Err(e);
                },
            },
            _ => no_secret,
        };
        let mut next_state = self.state.clone();
        let r = match ratchet_receive(
            &mut next_state,
            &header,
            key,
            ciphertext,
            sender,
            our_next_private_key,
        ) {
            Ok(plaintext) => Ok((next_state, plaintext)),
            Err(e) => Err(e),
        };
        assert(plans_payload(
            receive(self@, sender, encrypted_header@, ciphertext@, our_next_private_key),
            r,
        ));
        r
    }

    /// Decrypts a rumor with a secret key for the case that it turns the
    /// ratchet. The session itself is left as it is.
    pub fn plan_receive_with(
        &self,
        envelope: &IncomingDirectMessageEnvelope,
        our_next_private_key: [u8; 32],
    ) -> (r: Result<ReceivePlan, Error>)
        ensures
            plans_receive(self@, envelope@, our_next_private_key, r),
            r matches Ok(plan) ==> turns(self@, envelope.sender, envelope.encrypted_header@) ==> (
            forall|their_secret: [u8; 32]| #[trigger]
                agrees_with(plan.next_state@, their_secret)),
    {
        match self.plan_receive_payload_with(
            envelope.sender,
            envelope.encrypted_header.as_str(),
            envelope.ciphertext.as_str(),
            our_next_private_key,
        ) {
            Err(e) => Err(e),
            Ok((next_state, plaintext)) => match rumor_from_bytes(plaintext) {
                Err(e) => Err(e),
                Ok(rumor) => Ok(ReceivePlan { next_state, rumor, sender: envelope.sender }),
            },
        }
    }

    /// Decrypts a rumor. Where it turns the ratchet a secret key is left to
    /// chance. The session itself is left as it is.
    pub fn plan_receive(
        &self,
        ctx: &mut ProtocolContext<'_>,
        envelope: &IncomingDirectMessageEnvelope,
    ) -> (r: Result<ReceivePlan, Error>)
        ensures
            final(ctx).now_secs == old(ctx).now_secs,
            final(ctx).now_millis == old(ctx).now_millis,
            drawn_receive(self@, envelope@, r),
            r matches Ok(plan) ==> turns(self@, envelope.sender, envelope.encrypted_header@) ==> (
            forall|their_secret: [u8; 32]| #[trigger]
                agrees_with(plan.next_state@, their_secret)),
    {
        let sealed = self.plan_receive_payload(
            ctx,
            envelope.sender,
            envelope.encrypted_header.as_str(),
            envelope.ciphertext.as_str(),
        );
        let ghost drawn = choose|secret: [u8; 32]|
            plans_payload(
                #[trigger] receive(
                    self@,
                    envelope.sender,
                    envelope.encrypted_header@,
                    envelope.ciphertext@,
                    secret,
                ),
                sealed,
            );
        let r = match sealed {
            Err(e) => Err(e),
            Ok((next_state, plaintext)) => match rumor_from_bytes(plaintext) {
                Err(e) => Err(e),
                Ok(rumor) => Ok(ReceivePlan { next_state, rumor, sender: envelope.sender }),
            },
        };
        assert(plans_receive(self@, envelope@, drawn, r) || (turns(
            self@,
            envelope.sender,
            envelope.encrypted_header@,
        ) && chance_fails() && fault(r->Err_0) == Fault::NostrKey));
        r
    }

    pub fn apply_receive(&mut self, plan: ReceivePlan) -> (r: ReceiveOutcome)
        ensures
            final(self).state == plan.next_state,
            final(self).name == old(self).name,
            r.rumor == plan.rumor,
            r.sender == plan.sender,
    {
        self.state = plan.next_state;
        ReceiveOutcome { rumor: plan.rumor, sender: plan.sender }
    }
}

/// A rumor as the bytes that a message carries.
pub open spec fn rumor_bytes(rumor: RumorModel) -> Seq<u8> {
    encode_utf8(json_text(rumor_json(rumor)))
}

/// Whether an envelope is signed with a session's current key.
pub open spec fn sent_by(m: SessionModel, envelope: OutgoingDirectMessageEnvelope) -> bool {
    m.our_current == Some(
        SerializableKeyPair {
            public_key: envelope.sender,
            private_key: envelope.signer_secret_key,
        },
    )
}

/// Whether a result is what receiving comes to.
pub open spec fn plans_payload(
    expected: Result<(SessionModel, Seq<u8>), Fault>,
    r: Result<(SessionState, Vec<u8>), Error>,
) -> bool {
    match r {
        Ok((next_state, plaintext)) => expected == Ok::<(SessionModel, Seq<u8>), Fault>(
            (next_state@, plaintext@),
        ),
        Err(e) => expected == Err::<(SessionModel, Seq<u8>), Fault>(fault(e)),
    }
}

/// Whether a result is what receiving comes to with some secret key. Where the
/// message turns the ratchet, the bytes that chance gave may be no secret key.
pub open spec fn drawn_payload(
    m: SessionModel,
    sender: DevicePubkey,
    encrypted_header: Seq<char>,
    ciphertext: Seq<char>,
    r: Result<(SessionState, Vec<u8>), Error>,
) -> bool {
    ||| exists|secret: [u8; 32]|
        plans_payload(
            #[trigger] receive(m, sender, encrypted_header, ciphertext, secret),
            r,
        )
    ||| turns(m, sender, encrypted_header) && chance_fails() && (r matches Err(e) && fault(e)
        == Fault::NostrKey)
}

fn rumor_from_bytes(plaintext: Vec<u8>) -> (r: Result<Rumor, Error>)
    ensures
        match r {
            Ok(rumor) => rumor_of_bytes(plaintext@) == Ok::<RumorModel, Fault>(rumor@),
            Err(e) => rumor_of_bytes(plaintext@) == Err::<RumorModel, Fault>(fault(e)),
        },
{
    match utf8_decode(plaintext) {
        Err(e) => Err(Error::Decryption(e)),
        Ok(text) => Rumor::from_json(text.as_str()),
    }
}

} // verus!
