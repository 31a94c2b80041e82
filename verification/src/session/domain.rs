//! The ratchet as functions from state to state.
use vstd::prelude::*;
use vstd::utf8::{decode_utf8, encode_utf8, valid_utf8};
use crate::collections::{lists, lists_len, VecMap};
use crate::crypto::{
    check_secret_key, conversation_key_of, decrypt, decrypted, derive_conversation_key, encrypt,
    ends_of, kdf, kdf_output, open, opened, public_key_of, seal, sealable,
};
use crate::encoding::{base64_bytes, base64_decode, base64_encode, hex_key, hex_text, utf8_decode};
use crate::error::{fault, CodecError, DomainError, Error, Fault};
use crate::event::{
    body_id, compute_event_id, contains_tag, drop_mentions, event_id, event_verifies, has_tag,
    optional_tag_value, tag_texts, tag_value, tags_from_json, tags_of_json, without_mentions,
    Event, EventBody, UnsignedEvent,
};
use crate::ids::{device_key_of, DevicePubkey, UnixSeconds};
use crate::json::{
    as_record, field_of, field_values, json_parsed, json_text, lemma_found, lemma_members,
    lemma_settled_fields, lemma_settled_object, lemma_with_member, lemma_with_member_again, parse_json, parse_record, plain, print_json,
    push_field, record_parsed, set_member, settled, strs, text_field, uint_field, with_member,
    Json, JsonValue,
};
use crate::rumor::{identified, pair_of, Rumor, RumorModel};
use crate::session::{
    rumor_bytes, rumor_of_bytes, skipped_model, Header, SerializableKeyPair, Session, SessionModel,
    SessionState, SkippedKeysEntry,
};
use crate::text::{decimal, decimal_text};
use crate::types::{MAX_SKIP, MESSAGE_EVENT_KIND};

verus! {

// ---------------------------------------------------------------------------
// Chains
// ---------------------------------------------------------------------------

/// The chain key that follows a chain key.
pub open spec fn next_chain_key(chain_key: [u8; 32]) -> [u8; 32] {
    kdf_output(chain_key@, seq![1u8], 1)
}

/// The key of the message at a chain key.
pub open spec fn message_key_of(chain_key: [u8; 32]) -> [u8; 32] {
    kdf_output(chain_key@, seq![1u8], 2)
}

/// The chain key some steps along a chain.
pub open spec fn chain_key_after(chain_key: [u8; 32], steps: nat) -> [u8; 32]
    decreases steps,
{
    if steps == 0 {
        chain_key
    } else {
        next_chain_key(chain_key_after(chain_key, (steps - 1) as nat))
    }
}

fn chain_step(chain_key: &[u8; 32]) -> (r: ([u8; 32], [u8; 32]))
    ensures
        r.0 == next_chain_key(*chain_key),
        r.1 == message_key_of(*chain_key),
{
    let salt: [u8; 1] = [1u8];
    assert(salt@ =~= seq![1u8]);
    kdf(chain_key, &salt)
}

/// The keys of the messages from one number up to another.
pub open spec fn keys_ahead(chain_key: [u8; 32], from: u32, until: u32) -> Map<u32, [u8; 32]> {
    Map::new(
        |n: u32| from <= n < until,
        |n: u32| message_key_of(chain_key_after(chain_key, (n - from) as nat)),
    )
}

/// The numbers above a number.
pub open spec fn numbers_above(keys: Map<u32, [u8; 32]>, n: u32) -> Set<u32> {
    keys.dom().filter(|k: u32| k > n)
}

/// The keys with the highest numbers, as many as there may be.
pub open spec fn newest(keys: Map<u32, [u8; 32]>, limit: nat) -> Map<u32, [u8; 32]> {
    Map::new(
        |n: u32| keys.contains_key(n) && numbers_above(keys, n).len() < limit,
        |n: u32| keys[n],
    )
}

/// The keys that were skipped of a sender.
pub open spec fn skipped_of(m: SessionModel, sender: DevicePubkey) -> Map<u32, [u8; 32]> {
    if m.skipped.contains_key(sender) {
        m.skipped[sender]
    } else {
        Map::empty()
    }
}

/// Deriving the keys of a receiving chain up to a number and keeping them for
/// a sender. A gap above the limit is refused.
pub open spec fn skip(m: SessionModel, until: u32, sender: DevicePubkey) -> Result<
    SessionModel,
    Fault,
> {
    if until <= m.receiving_number {
        Ok(m)
    } else if until - m.receiving_number > MAX_SKIP {
        Err(Fault::TooManySkippedMessages)
    } else {
        match m.receiving_chain_key {
            None => Err(Fault::SessionNotReady),
            Some(chain_key) => Ok(
                SessionModel {
                    receiving_chain_key: Some(
                        chain_key_after(chain_key, (until - m.receiving_number) as nat),
                    ),
                    receiving_number: until,
                    skipped: m.skipped.insert(
                        sender,
                        newest(
                            skipped_of(m, sender).union_prefer_right(
                                keys_ahead(chain_key, m.receiving_number, until),
                            ),
                            MAX_SKIP as nat,
                        ),
                    ),
                    ..m
                },
            ),
        }
    }
}

proof fn lemma_numbers_above(order: Seq<u32>, keys: Map<u32, [u8; 32]>, i: int)
    requires
        lists::<u32>(order, keys.dom()),
        0 <= i < order.len(),
    ensures
        numbers_above(keys, order[i]).len() == order.len() - 1 - i,
{
    let above = numbers_above(keys, order[i]);
    let rest = order.skip(i + 1);
    assert(lists::<u32>(rest, above)) by {
        assert forall|a: int, b: int| 0 <= a < b < rest.len() implies <u32 as crate::collections::OrderedKey>::before(
            #[trigger] rest[a],
            #[trigger] rest[b],
        ) by {
            assert(<u32 as crate::collections::OrderedKey>::before(
                order[a + i + 1],
                order[b + i + 1],
            ));
        }
        assert forall|k: u32| #[trigger] above.contains(k) <==> rest.contains(k) by {
            if above.contains(k) {
                assert(keys.dom().contains(k));
                let p = choose|p: int| 0 <= p < order.len() && order[p] == k;
                if p < i {
                    assert(<u32 as crate::collections::OrderedKey>::before(order[p], order[i]));
                }
                assert(rest[p - i - 1] == k);
            }
            if rest.contains(k) {
                let p = choose|p: int| 0 <= p < rest.len() && rest[p] == k;
                assert(order[p + i + 1] == k);
                assert(order.contains(k));
                assert(keys.dom().contains(k));
                assert(<u32 as crate::collections::OrderedKey>::before(
                    order[i],
                    order[p + i + 1],
                ));
            }
        }
    }
    lists_len::<u32>(rest, above);
}

/// Drops the keys with the lowest numbers until no more are left than may be.
fn prune_skipped_message_keys(keys: &mut VecMap<u32, [u8; 32]>)
    ensures
        final(keys)@ == newest(old(keys)@, MAX_SKIP as nat),
{
    let ghost before = keys@;
    let ghost order = keys.order();
    let total: usize = keys.len();
    let mut dropped: usize = 0;
    proof {
        assert(order.skip(0) =~= order);
        assert forall|k: u32| #[trigger] keys@.contains_key(k) <==> order.skip(0).contains(k) by {
            assert(before.dom().contains(k) <==> order.contains(k));
        }
    }
    while total - dropped > MAX_SKIP
        invariant
            dropped <= total,
            total == order.len(),
            lists::<u32>(order, before.dom()),
            keys.order() == order.skip(dropped as int),
            dropped > 0 ==> total - dropped >= MAX_SKIP,
            forall|k: u32| #[trigger]
                keys@.contains_key(k) <==> order.skip(dropped as int).contains(k),
            forall|k: u32| #[trigger]
                keys@.contains_key(k) ==> before.contains_key(k) && keys@[k] == before[k],
        decreases total - dropped,
    {
        let ghost kept = keys@;
        let ghost rest = order.skip(dropped as int);
        keys.remove_first();
        proof {
            let next = order.skip(dropped + 1);
            assert(rest.drop_first() =~= next);
            assert forall|k: u32| #[trigger] keys@.contains_key(k) <==> next.contains(k) by {
                if keys@.contains_key(k) {
                    assert(kept.contains_key(k));
                    let p = choose|p: int| 0 <= p < rest.len() && rest[p] == k;
                    assert(next[p - 1] == k);
                }
                if next.contains(k) {
                    let p = choose|p: int| 0 <= p < next.len() && next[p] == k;
                    assert(rest[p + 1] == k);
                    assert(rest.contains(k));
                    assert(kept.contains_key(k));
                    assert(<u32 as crate::collections::OrderedKey>::before(
                        order[dropped as int],
                        order[p + dropped + 1],
                    ));
                }
            }
        }
        dropped = dropped + 1;
    }
    proof {
        let kept = order.skip(dropped as int);
        let target = newest(before, MAX_SKIP as nat);
        if dropped == 0 {
            assert(kept =~= order);
        }
        assert forall|k: u32| #[trigger] keys@.contains_key(k) <==> target.contains_key(k) by {
            if keys@.contains_key(k) {
                let p = choose|p: int| 0 <= p < kept.len() && kept[p] == k;
                assert(order[p + dropped] == k);
                lemma_numbers_above(order, before, p + dropped);
            }
            if target.contains_key(k) {
                assert(before.dom().contains(k));
                let p = choose|p: int| 0 <= p < order.len() && order[p] == k;
                lemma_numbers_above(order, before, p);
                assert(p >= dropped);
                assert(kept[p - dropped] == k);
                assert(kept.contains(k));
            }
        }
        assert(keys@.dom() =~= target.dom());
        assert forall|k: u32| #[trigger] keys@.contains_key(k) implies keys@[k] == target[k] by {
            assert(target.contains_key(k));
        }
        assert(keys@ =~= target);
    }
}

/// Derives the keys of the receiving chain up to a number and keeps them for a
/// sender.
pub fn skip_message_keys(state: &mut SessionState, until: u32, sender: &DevicePubkey) -> (r: Result<
    (),
    Error,
>)
    ensures
        match r {
            Ok(_) => skip(old(state)@, until, *sender) == Ok::<SessionModel, Fault>(final(state)@),
            Err(e) => skip(old(state)@, until, *sender) == Err::<SessionModel, Fault>(fault(e))
                && *final(state) == *old(state),
        },
{
    let ghost before = state@;
    if until <= state.receiving_chain_message_number {
        return Ok(());
    }
    let start: u32 = state.receiving_chain_message_number;
    if (until - start) as usize > MAX_SKIP {
        return Err(Error::Domain(DomainError::TooManySkippedMessages));
    }
    let first_key: [u8; 32] = match state.receiving_chain_key {
        None => {
            return Err(Error::Domain(DomainError::SessionNotReady));
        },
        Some(key) => key,
    };
    let mut entry: SkippedKeysEntry = match state.skipped_keys.remove(sender) {
        Some(entry) => entry,
        None => SkippedKeysEntry::empty(),
    };
    let ghost known = skipped_of(before, *sender);
    assert(entry.message_keys@ =~= known);
    let mut chain_key: [u8; 32] = first_key;
    let mut number: u32 = start;
    proof {
        assert(known.union_prefer_right(keys_ahead(first_key, start, start)) =~= known);
    }
    while number < until
        invariant
            start <= number <= until,
            chain_key == chain_key_after(first_key, (number - start) as nat),
            entry.message_keys@ == known.union_prefer_right(keys_ahead(first_key, start, number)),
        decreases until - number,
    {
        let (next, message_key) = chain_step(&chain_key);
        entry.message_keys.insert(number, message_key);
        proof {
            assert(known.union_prefer_right(keys_ahead(first_key, start, number)).insert(
                number,
                message_key,
            ) =~= known.union_prefer_right(
                keys_ahead(first_key, start, (number + 1) as u32),
            ));
        }
        chain_key = next;
        number = number + 1;
    }
    prune_skipped_message_keys(&mut entry.message_keys);
    state.skipped_keys.insert(*sender, entry);
    state.receiving_chain_key = Some(chain_key);
    state.receiving_chain_message_number = until;
    proof {
        assert(skipped_model(state.skipped_keys@) =~= before.skipped.insert(
            *sender,
            newest(
                known.union_prefer_right(keys_ahead(first_key, start, until)),
                MAX_SKIP as nat,
            ),
        ));
    }
    Ok(())
}

// ---------------------------------------------------------------------------
// The first state
// ---------------------------------------------------------------------------

/// The secret key that a new session ratchets to, where one is needed.
#[derive(Debug, Clone, Copy)]
pub struct SessionInitRuntime {
    pub our_next_private_key: Option<[u8; 32]>,
}

impl Default for SessionInitRuntime {
    fn default() -> (r: Self)
        ensures
            r.our_next_private_key is None,
    {
        SessionInitRuntime { our_next_private_key: None }
    }
}

/// The state that a session starts in. The initiator sends on a chain that it
/// derives from the shared secret and from a second key pair of its own; the
/// other end waits for the first message.
pub open spec fn first_state(
    their_key: DevicePubkey,
    our_secret: [u8; 32],
    is_initiator: bool,
    shared_secret: [u8; 32],
    next_secret: Option<[u8; 32]>,
) -> Result<SessionModel, Fault> {
    match device_key_of(our_secret) {
        None => Err(Fault::NostrKey),
        Some(our_key) => {
            let ours = SerializableKeyPair { public_key: our_key, private_key: our_secret };
            let waiting = SessionModel {
                root_key: shared_secret,
                their_current: None,
                their_next: Some(their_key),
                our_previous: None,
                our_current: None,
                our_next: ours,
                receiving_chain_key: None,
                sending_chain_key: None,
                sending_number: 0,
                receiving_number: 0,
                previous_sending_count: 0,
                skipped: Map::empty(),
            };
            if !is_initiator {
                Ok(waiting)
            } else {
                match next_secret {
                    None => Err(Fault::SessionNotReady),
                    Some(secret) => match device_key_of(secret) {
                        None => Err(Fault::NostrKey),
                        Some(next_key) => match conversation_key_of(secret, their_key.0) {
                            None => Err(Fault::Nip44),
                            Some(shared) => Ok(
                                SessionModel {
                                    root_key: kdf_output(shared_secret@, shared@, 1),
                                    sending_chain_key: Some(
                                        kdf_output(shared_secret@, shared@, 2),
                                    ),
                                    our_current: Some(ours),
                                    our_next: SerializableKeyPair {
                                        public_key: next_key,
                                        private_key: secret,
                                    },
                                    ..waiting
                                },
                            ),
                        },
                    },
                }
            }
        },
    }
}

/// Whether an initiator's keys agree with the one who holds a secret: from its
/// side the conversation with the initiator's second key is the same.
pub open spec fn agrees_with(state: SessionModel, their_secret: [u8; 32]) -> bool {
    state.their_next is Some && public_key_of(their_secret) == Some(state.their_next->Some_0.0)
        ==> conversation_key_of(their_secret, state.our_next.public_key.0)
        == conversation_key_of(state.our_next.private_key, state.their_next->Some_0.0)
}

pub fn init_state(
    their_ephemeral_nostr_public_key: DevicePubkey,
    our_ephemeral_nostr_private_key: [u8; 32],
    is_initiator: bool,
    shared_secret: [u8; 32],
    runtime: SessionInitRuntime,
) -> (r: Result<SessionState, Error>)
    ensures
        match r {
            Ok(state) => first_state(
                their_ephemeral_nostr_public_key,
                our_ephemeral_nostr_private_key,
                is_initiator,
                shared_secret,
                runtime.our_next_private_key,
            ) == Ok::<SessionModel, Fault>(state@),
            Err(e) => first_state(
                their_ephemeral_nostr_public_key,
                our_ephemeral_nostr_private_key,
                is_initiator,
                shared_secret,
                runtime.our_next_private_key,
            ) == Err::<SessionModel, Fault>(fault(e)),
        },
        r matches Ok(state) ==> is_initiator ==> (forall|their_secret: [u8; 32]| #[trigger]
            agrees_with(state@, their_secret)),
{
    let our_public_key = match DevicePubkey::from_secret_bytes(&our_ephemeral_nostr_private_key) {
        Ok(key) => key,
        Err(e) => {
            return Err(e);
        },
    };
    let ours = SerializableKeyPair {
        public_key: our_public_key,
        private_key: our_ephemeral_nostr_private_key,
    };
    let skipped_keys: VecMap<DevicePubkey, SkippedKeysEntry> = VecMap::new();
    proof {
        assert(skipped_model(skipped_keys@) =~= Map::empty());
    }
    if !is_initiator {
        return Ok(
            SessionState {
                root_key: shared_secret,
                their_current_nostr_public_key: None,
                their_next_nostr_public_key: Some(their_ephemeral_nostr_public_key),
                our_previous_nostr_key: None,
                our_current_nostr_key: None,
                our_next_nostr_key: ours,
                receiving_chain_key: None,
                sending_chain_key: None,
                sending_chain_message_number: 0,
                receiving_chain_message_number: 0,
                previous_sending_chain_message_count: 0,
                skipped_keys,
            },
        );
    }
    let our_next_private_key: [u8; 32] = match runtime.our_next_private_key {
        Some(key) => key,
        None => {
            return Err(Error::Domain(DomainError::SessionNotReady));
        },
    };
    let our_next_public_key = match DevicePubkey::from_secret_bytes(&our_next_private_key) {
        Ok(key) => key,
        Err(e) => {
            return Err(e);
        },
    };
    let conversation_key = match derive_conversation_key(
        &our_next_private_key,
        &their_ephemeral_nostr_public_key.0,
    ) {
        Ok(key) => key,
        Err(e) => {
            return Err(Error::Nip44(e));
        },
    };
    let (root_key, sending_chain_key) = kdf(&shared_secret, &conversation_key);
    let state = SessionState {
        root_key,
        their_current_nostr_public_key: None,
        their_next_nostr_public_key: Some(their_ephemeral_nostr_public_key),
        our_previous_nostr_key: None,
        our_current_nostr_key: Some(ours),
        our_next_nostr_key: SerializableKeyPair {
            public_key: our_next_public_key,
            private_key: our_next_private_key,
        },
        receiving_chain_key: None,
        sending_chain_key: Some(sending_chain_key),
        sending_chain_message_number: 0,
        receiving_chain_message_number: 0,
        previous_sending_chain_message_count: 0,
        skipped_keys,
    };
    proof {
        assert forall|their_secret: [u8; 32]| #[trigger] agrees_with(state@, their_secret) by {
            if public_key_of(their_secret) == Some(their_ephemeral_nostr_public_key.0) {
                assert(crate::crypto::ends_of(
                    our_next_private_key,
                    their_ephemeral_nostr_public_key.0,
                    their_secret,
                    our_next_public_key.0,
                ));
            }
        }
    }
    Ok(state)
}

// ---------------------------------------------------------------------------
// Turning the ratchet
// ---------------------------------------------------------------------------

/// Turning the ratchet: a receiving chain from the key pair that was next, and
/// a sending chain from a new one.
pub open spec fn step(m: SessionModel, next_secret: [u8; 32]) -> Result<SessionModel, Fault> {
    if public_key_of(m.our_next.private_key) is None {
        Err(Fault::NostrKey)
    } else {
        match m.their_next {
            None => Err(Fault::SessionNotReady),
            Some(their_next) => match conversation_key_of(m.our_next.private_key, their_next.0) {
                None => Err(Fault::Nip44),
                Some(shared) => match device_key_of(next_secret) {
                    None => Err(Fault::NostrKey),
                    Some(next_key) => match conversation_key_of(next_secret, their_next.0) {
                        None => Err(Fault::Nip44),
                        Some(next_shared) => {
                            let root = kdf_output(m.root_key@, shared@, 1);
                            Ok(
                                SessionModel {
                                    root_key: kdf_output(root@, next_shared@, 1),
                                    receiving_chain_key: Some(
                                        kdf_output(m.root_key@, shared@, 2),
                                    ),
                                    sending_chain_key: Some(kdf_output(root@, next_shared@, 2)),
                                    our_previous: m.our_current,
                                    our_current: Some(m.our_next),
                                    our_next: SerializableKeyPair {
                                        public_key: next_key,
                                        private_key: next_secret,
                                    },
                                    previous_sending_count: m.sending_number,
                                    sending_number: 0,
                                    receiving_number: 0,
                                    ..m
                                },
                            )
                        },
                    },
                },
            },
        }
    }
}

pub fn ratchet_step(state: &mut SessionState, our_next_private_key: [u8; 32]) -> (r: Result<(), Error>)
    ensures
        match r {
            Ok(_) => step(old(state)@, our_next_private_key) == Ok::<SessionModel, Fault>(
                final(state)@,
            ),
            Err(e) => step(old(state)@, our_next_private_key) == Err::<SessionModel, Fault>(
                fault(e),
            ),
        },
        r is Ok ==> (forall|their_secret: [u8; 32]| #[trigger]
            agrees_with(final(state)@, their_secret)),
{
    let current: SerializableKeyPair = state.our_next_nostr_key;
    match check_secret_key(&current.private_key) {
        Ok(()) => {},
        Err(e) => {
            return Err(Error::NostrKey(e));
        },
    }
    let their_next: DevicePubkey = match state.their_next_nostr_public_key {
        Some(key) => key,
        None => {
            return Err(Error::Domain(DomainError::SessionNotReady));
        },
    };
    let shared = match derive_conversation_key(&current.private_key, &their_next.0) {
        Ok(key) => key,
        Err(e) => {
            return Err(Error::Nip44(e));
        },
    };
    let (root, receiving_chain_key) = kdf(&state.root_key, &shared);
    let next_public_key = match DevicePubkey::from_secret_bytes(&our_next_private_key) {
        Ok(key) => key,
        Err(e) => {
            return Err(e);
        },
    };
    let next_shared = match derive_conversation_key(&our_next_private_key, &their_next.0) {
        Ok(key) => key,
        Err(e) => {
            return Err(Error::Nip44(e));
        },
    };
    let (root_key, sending_chain_key) = kdf(&root, &next_shared);
    state.previous_sending_chain_message_count = state.sending_chain_message_number;
    state.sending_chain_message_number = 0;
    state.receiving_chain_message_number = 0;
    state.receiving_chain_key = Some(receiving_chain_key);
    state.our_previous_nostr_key = state.our_current_nostr_key;
    state.our_current_nostr_key = Some(current);
    state.our_next_nostr_key = SerializableKeyPair {
        public_key: next_public_key,
        private_key: our_next_private_key,
    };
    state.root_key = root_key;
    state.sending_chain_key = Some(sending_chain_key);
    proof {
        assert forall|their_secret: [u8; 32]| #[trigger] agrees_with(state@, their_secret) by {
            if public_key_of(their_secret) == Some(their_next.0) {
                assert(crate::crypto::ends_of(
                    our_next_private_key,
                    their_next.0,
                    their_secret,
                    next_public_key.0,
                ));
            }
        }
    }
    Ok(())
}

// ---------------------------------------------------------------------------
// Headers
// ---------------------------------------------------------------------------

/// A header as a JSON object.
pub open spec fn header_json(header: Header) -> JsonValue {
    JsonValue::Object(
        seq![
            ("number"@, JsonValue::Uint(header.number as u64)),
            ("previous_chain_length"@, JsonValue::Uint(header.previous_chain_length as u64)),
            ("next_public_key"@, JsonValue::Str(hex_text(header.next_public_key.0@))),
        ],
    )
}

/// The members of a header.
pub open spec fn header_names() -> Seq<Seq<char>> {
    seq!["number"@, "previous_chain_length"@, "next_public_key"@]
}

/// The header that a JSON value is: an object, or a list of the members.
pub open spec fn header_of_json(value: JsonValue) -> Option<Header> {
    let value = as_record(value, header_names());
    match (
        uint_field(value, "number"@),
        uint_field(value, "previous_chain_length"@),
        text_field(value, "next_public_key"@),
    ) {
        (Some(number), Some(previous), Some(key)) => match hex_key(key) {
            Some(bytes) if number <= u32::MAX && previous <= u32::MAX => Some(
                Header {
                    number: number as u32,
                    previous_chain_length: previous as u32,
                    next_public_key: DevicePubkey(bytes),
                },
            ),
            _ => None,
        },
        _ => None,
    }
}

/// The header that a text is.
pub open spec fn header_of(text: Seq<char>) -> Option<Header> {
    match record_parsed(text) {
        Some(value) => header_of_json(value),
        None => None,
    }
}

proof fn lemma_header_names()
    ensures
        "number"@ != "previous_chain_length"@,
        "number"@ != "next_public_key"@,
        "previous_chain_length"@ != "next_public_key"@,
{
    reveal_strlit("number");
    reveal_strlit("previous_chain_length");
    reveal_strlit("next_public_key");
    assert("number"@.len() == 6);
    assert("previous_chain_length"@.len() == 21);
    assert("next_public_key"@.len() == 15);
}

/// A header that was written down is read back.
pub proof fn header_round_trip(header: Header)
    ensures
        header_of_json(header_json(header)) == Some(header),
{
    lemma_header_names();
    crate::encoding::hex_key_round_trip(header.next_public_key.0);
    let fields = header_json(header)->Object_0;
    lemma_members(fields);
    assert(fields[0].0 == "number"@);
    assert(fields[1].0 == "previous_chain_length"@);
    assert(fields[2].0 == "next_public_key"@);
}

/// Writes a header down.
pub fn header_to_text(header: &Header) -> (r: String)
    ensures
        r@ == json_text(header_json(*header)),
        header_of(r@) == Some(*header),
{
    let mut fields: Vec<(String, Json)> = Vec::new();
    push_field(&mut fields, "number", Json::Uint(header.number as u64));
    push_field(
        &mut fields,
        "previous_chain_length",
        Json::Uint(header.previous_chain_length as u64),
    );
    push_field(&mut fields, "next_public_key", Json::Str(header.next_public_key.to_hex()));
    let json = Json::Object(fields);
    proof {
        assert(json@->Object_0 =~= header_json(*header)->Object_0);
        reveal_with_fuel(plain, 2);
        assert(plain(json@, 127));
        header_round_trip(*header);
    }
    print_json(&json)
}

/// Reads a header.
pub fn header_from_text(text: &str) -> (r: Result<Header, Error>)
    ensures
        r is Ok == header_of(text@) is Some,
        r matches Ok(header) ==> header_of(text@) == Some(header),
        r matches Err(e) ==> fault(e) == Fault::Parse,
{
    let names: [&str; 3] = ["number", "previous_chain_length", "next_public_key"];
    assert(strs(names@) =~= header_names());
    let json = match parse_record(text) {
        Ok(json) => json.into_record(&names),
        Err(e) => {
            return Err(Error::Parse(e));
        },
    };
    let number: u64 = match json.uint_field("number") {
        Some(n) => n,
        None => {
            return Err(Error::Parse("missing field `number`".to_string()));
        },
    };
    let previous: u64 = match json.uint_field("previous_chain_length") {
        Some(n) => n,
        None => {
            return Err(Error::Parse("missing field `previous_chain_length`".to_string()));
        },
    };
    let key_text = match json.text_field("next_public_key") {
        Some(text) => text,
        None => {
            return Err(Error::Parse("missing field `next_public_key`".to_string()));
        },
    };
    let next_public_key = match DevicePubkey::parse_hex(key_text.as_str()) {
        Ok(key) => key,
        Err(e) => {
            return Err(Error::Parse(e));
        },
    };
    if number > u32::MAX as u64 || previous > u32::MAX as u64 {
        return Err(Error::Parse("number out of range".to_string()));
    }
    Ok(
        Header {
            number: number as u32,
            previous_chain_length: previous as u32,
            next_public_key,
        },
    )
}

/// Which of our keys a header was encrypted to.
#[derive(Debug, Clone, Copy, PartialEq, Eq, Structural)]
pub enum HeaderKey {
    Current,
    Next,
    Previous,
}

/// The header that one of our keys opens, if it opens one.
pub open spec fn header_under(
    pair: SerializableKeyPair,
    sender: DevicePubkey,
    encrypted: Seq<char>,
) -> Result<Option<Header>, Fault> {
    if public_key_of(pair.private_key) is None {
        Err(Fault::NostrKey)
    } else {
        match decrypted(pair.private_key, sender.0, encrypted) {
            None => Ok(None),
            Some(text) => match header_of(text) {
                None => Err(Fault::Parse),
                Some(header) => Ok(Some(header)),
            },
        }
    }
}

pub open spec fn header_under_optional(
    pair: Option<SerializableKeyPair>,
    sender: DevicePubkey,
    encrypted: Seq<char>,
) -> Result<Option<Header>, Fault> {
    match pair {
        None => Ok(None),
        Some(pair) => header_under(pair, sender, encrypted),
    }
}

/// The header of a message and the key that it was encrypted to: the current
/// one, the next one, or the one before the current one, the first that fits.
pub open spec fn read_header(m: SessionModel, encrypted: Seq<char>, sender: DevicePubkey) -> Result<
    (Header, HeaderKey),
    Fault,
> {
    match header_under_optional(m.our_current, sender, encrypted) {
        Err(f) => Err(f),
        Ok(Some(header)) => Ok((header, HeaderKey::Current)),
        Ok(None) => match header_under(m.our_next, sender, encrypted) {
            Err(f) => Err(f),
            Ok(Some(header)) => Ok((header, HeaderKey::Next)),
            Ok(None) => match header_under_optional(m.our_previous, sender, encrypted) {
                Err(f) => Err(f),
                Ok(Some(header)) => Ok((header, HeaderKey::Previous)),
                Ok(None) => Err(Fault::InvalidHeader),
            },
        },
    }
}

fn open_header(pair: &SerializableKeyPair, sender: DevicePubkey, encrypted: &str) -> (r: Result<
    Option<Header>,
    Error,
>)
    ensures
        match r {
            Ok(found) => header_under(*pair, sender, encrypted@) == Ok::<Option<Header>, Fault>(
                found,
            ),
            Err(e) => header_under(*pair, sender, encrypted@) == Err::<Option<Header>, Fault>(
                fault(e),
            ),
        },
{
    match check_secret_key(&pair.private_key) {
        Ok(()) => {},
        Err(e) => {
            return Err(Error::NostrKey(e));
        },
    }
    match decrypt(&pair.private_key, &sender.0, encrypted) {
        Err(_) => Ok(None),
        Ok(text) => match header_from_text(text.as_str()) {
            Ok(header) => Ok(Some(header)),
            Err(e) => Err(e),
        },
    }
}

pub fn decrypt_header(state: &SessionState, encrypted_header: &str, sender: DevicePubkey) -> (r: Result<
    (Header, HeaderKey),
    Error,
>)
    ensures
        match r {
            Ok(found) => read_header(state@, encrypted_header@, sender) == Ok::<
                (Header, HeaderKey),
                Fault,
            >(found),
            Err(e) => read_header(state@, encrypted_header@, sender) == Err::<
                (Header, HeaderKey),
                Fault,
            >(fault(e)),
        },
{
    if let Some(current) = &state.our_current_nostr_key {
        match open_header(current, sender, encrypted_header) {
            Err(e) => {
                return Err(e);
            },
            Ok(Some(header)) => {
                return Ok((header, HeaderKey::Current));
            },
            Ok(None) => {},
        }
    }
    match open_header(&state.our_next_nostr_key, sender, encrypted_header) {
        Err(e) => {
            return Err(e);
        },
        Ok(Some(header)) => {
            return Ok((header, HeaderKey::Next));
        },
        Ok(None) => {},
    }
    if let Some(previous) = &state.our_previous_nostr_key {
        match open_header(previous, sender, encrypted_header) {
            Err(e) => {
                return Err(e);
            },
            Ok(Some(header)) => {
                return Ok((header, HeaderKey::Previous));
            },
            Ok(None) => {},
        }
    }
    Err(Error::Codec(CodecError::InvalidHeader))
}

// ---------------------------------------------------------------------------
// Sending
// ---------------------------------------------------------------------------

/// What a message key opens of a text.
pub open spec fn open_text(key: [u8; 32], ciphertext: Seq<char>) -> Result<Seq<u8>, Fault> {
    match base64_bytes(ciphertext) {
        None => Err(Fault::Decryption),
        Some(payload) => match opened(key, payload) {
            None => Err(Fault::Nip44),
            Some(plaintext) => Ok(plaintext),
        },
    }
}

fn open_ciphertext(key: &[u8; 32], ciphertext: &str) -> (r: Result<Vec<u8>, Error>)
    ensures
        match r {
            Ok(plaintext) => open_text(*key, ciphertext@) == Ok::<Seq<u8>, Fault>(plaintext@),
            Err(e) => open_text(*key, ciphertext@) == Err::<Seq<u8>, Fault>(fault(e)),
        },
{
    match base64_decode(ciphertext) {
        Err(e) => Err(Error::Decryption(e)),
        Ok(payload) => match open(key, &payload) {
            Err(e) => Err(Error::Nip44(e)),
            Ok(plaintext) => Ok(plaintext),
        },
    }
}

/// Why no message can be sent on the sending chain, if none can.
pub open spec fn send_fault(m: SessionModel) -> Option<Fault> {
    if m.sending_chain_key is None {
        Some(Fault::SessionNotReady)
    } else if m.sending_number == u32::MAX {
        Some(Fault::InvalidState)
    } else {
        None
    }
}

/// The state after a message was sent.
pub open spec fn after_send(m: SessionModel) -> SessionModel {
    SessionModel {
        sending_chain_key: Some(next_chain_key(m.sending_chain_key->Some_0)),
        sending_number: (m.sending_number + 1) as u32,
        ..m
    }
}

/// The header of the next message to be sent.
pub open spec fn next_header(m: SessionModel) -> Header {
    Header {
        number: m.sending_number,
        previous_chain_length: m.previous_sending_count,
        next_public_key: m.our_next.public_key,
    }
}

/// Encrypts a message with the next key of the sending chain.
pub fn ratchet_encrypt(state: &mut SessionState, plaintext: &[u8]) -> (r: Result<
    (Header, String),
    Error,
>)
    ensures
        match r {
            Ok((header, ciphertext)) => {
                &&& send_fault(old(state)@) is None
                &&& sealable(plaintext@.len() as int)
                &&& final(state)@ == after_send(old(state)@)
                &&& header == next_header(old(state)@)
                &&& open_text(
                    message_key_of(old(state).sending_chain_key->Some_0),
                    ciphertext@,
                ) == Ok::<Seq<u8>, Fault>(plaintext@)
            },
            Err(e) => {
                &&& *final(state) == *old(state)
                &&& match send_fault(old(state)@) {
                    Some(f) => fault(e) == f,
                    None => fault(e) == Fault::Nip44 && !sealable(plaintext@.len() as int),
                }
            },
        },
{
    let chain_key: [u8; 32] = match state.sending_chain_key {
        Some(key) => key,
        None => {
            return Err(Error::Domain(DomainError::SessionNotReady));
        },
    };
    if state.sending_chain_message_number == u32::MAX {
        return Err(Error::Domain(DomainError::InvalidState("message number overflow".to_string())));
    }
    let (next, message_key) = chain_step(&chain_key);
    let payload = match seal(&message_key, plaintext) {
        Ok(payload) => payload,
        Err(e) => {
            return Err(Error::Nip44(e));
        },
    };
    let ciphertext = base64_encode(&payload);
    let header = Header {
        number: state.sending_chain_message_number,
        previous_chain_length: state.previous_sending_chain_message_count,
        next_public_key: state.our_next_nostr_key.public_key,
    };
    state.sending_chain_key = Some(next);
    state.sending_chain_message_number = state.sending_chain_message_number + 1;
    Ok((header, ciphertext))
}

// ---------------------------------------------------------------------------
// Receiving
// ---------------------------------------------------------------------------

/// A state that has used up the key of a skipped message. A sender of whom
/// none is left is forgotten.
pub open spec fn without_skipped(m: SessionModel, sender: DevicePubkey, number: u32) -> SessionModel {
    let rest = m.skipped[sender].remove(number);
    SessionModel {
        skipped: if rest.dom() =~= Set::empty() {
            m.skipped.remove(sender)
        } else {
            m.skipped.insert(sender, rest)
        },
        ..m
    }
}

/// Opening a message whose key was kept, if it was.
pub open spec fn use_skipped(
    m: SessionModel,
    number: u32,
    ciphertext: Seq<char>,
    sender: DevicePubkey,
) -> Option<Result<(SessionModel, Seq<u8>), Fault>> {
    if m.skipped.contains_key(sender) && m.skipped[sender].contains_key(number) {
        Some(
            match open_text(m.skipped[sender][number], ciphertext) {
                Err(f) => Err(f),
                Ok(plaintext) => Ok((without_skipped(m, sender, number), plaintext)),
            },
        )
    } else {
        None
    }
}

pub fn try_skipped_message_keys(
    state: &mut SessionState,
    number: u32,
    ciphertext: &str,
    sender: DevicePubkey,
) -> (r: Result<Option<Vec<u8>>, Error>)
    ensures
        match r {
            Ok(Some(plaintext)) => use_skipped(old(state)@, number, ciphertext@, sender) == Some(
                Ok::<(SessionModel, Seq<u8>), Fault>((final(state)@, plaintext@)),
            ),
            Ok(None) => use_skipped(old(state)@, number, ciphertext@, sender) is None
                && final(state)@ == old(state)@,
            Err(e) => use_skipped(old(state)@, number, ciphertext@, sender) == Some(
                Err::<(SessionModel, Seq<u8>), Fault>(fault(e)),
            ),
        },
{
    let ghost before = state@;
    let mut entry: SkippedKeysEntry = match state.skipped_keys.remove(&sender) {
        None => {
            return Ok(None);
        },
        Some(entry) => entry,
    };
    let ghost known = entry.message_keys@;
    match entry.message_keys.remove(&number) {
        None => {
            state.skipped_keys.insert(sender, entry);
            assert(skipped_model(state.skipped_keys@) =~= before.skipped);
            Ok(None)
        },
        Some(message_key) => match open_ciphertext(&message_key, ciphertext) {
            Err(e) => Err(e),
            Ok(plaintext) => {
                if entry.message_keys.is_empty() {
                    assert(skipped_model(state.skipped_keys@) =~= before.skipped.remove(sender));
                } else {
                    state.skipped_keys.insert(sender, entry);
                    assert(skipped_model(state.skipped_keys@) =~= before.skipped.insert(
                        sender,
                        known.remove(number),
                    ));
                }
                Ok(Some(plaintext))
            },
        },
    }
}

/// Opening a message: with the key that was kept for it, or with the next key
/// of the receiving chain once the chain has come to its number.
pub open spec fn decrypt_message(
    m: SessionModel,
    header: Header,
    ciphertext: Seq<char>,
    sender: DevicePubkey,
) -> Result<(SessionModel, Seq<u8>), Fault> {
    match use_skipped(m, header.number, ciphertext, sender) {
        Some(r) => r,
        None => if m.receiving_chain_key is None {
            Err(Fault::SessionNotReady)
        } else {
            match skip(m, header.number, sender) {
                Err(f) => Err(f),
                Ok(m1) => if m1.receiving_number == u32::MAX {
                    Err(Fault::InvalidState)
                } else {
                    let chain_key = m1.receiving_chain_key->Some_0;
                    match open_text(message_key_of(chain_key), ciphertext) {
                        Err(f) => Err(f),
                        Ok(plaintext) => Ok(
                            (
                                SessionModel {
                                    receiving_chain_key: Some(next_chain_key(chain_key)),
                                    receiving_number: (m1.receiving_number + 1) as u32,
                                    ..m1
                                },
                                plaintext,
                            ),
                        ),
                    }
                },
            }
        },
    }
}

pub fn ratchet_decrypt(
    state: &mut SessionState,
    header: &Header,
    ciphertext: &str,
    sender: DevicePubkey,
) -> (r: Result<Vec<u8>, Error>)
    ensures
        match r {
            Ok(plaintext) => decrypt_message(old(state)@, *header, ciphertext@, sender) == Ok::<
                (SessionModel, Seq<u8>),
                Fault,
            >((final(state)@, plaintext@)),
            Err(e) => decrypt_message(old(state)@, *header, ciphertext@, sender) == Err::<
                (SessionModel, Seq<u8>),
                Fault,
            >(fault(e)),
        },
{
    match try_skipped_message_keys(state, header.number, ciphertext, sender) {
        Err(e) => {
            return Err(e);
        },
        Ok(Some(plaintext)) => {
            return Ok(plaintext);
        },
        Ok(None) => {},
    }
    if state.receiving_chain_key.is_none() {
        return Err(Error::Domain(DomainError::SessionNotReady));
    }
    match skip_message_keys(state, header.number, &sender) {
        Err(e) => {
            return Err(e);
        },
        Ok(()) => {},
    }
    if state.receiving_chain_message_number == u32::MAX {
        return Err(Error::Domain(DomainError::InvalidState("message number overflow".to_string())));
    }
    let chain_key: [u8; 32] = match state.receiving_chain_key {
        Some(key) => key,
        None => {
            return Err(Error::Domain(DomainError::SessionNotReady));
        },
    };
    let (next, message_key) = chain_step(&chain_key);
    let plaintext = match open_ciphertext(&message_key, ciphertext) {
        Err(e) => {
            return Err(e);
        },
        Ok(plaintext) => plaintext,
    };
    state.receiving_chain_key = Some(next);
    state.receiving_chain_message_number = state.receiving_chain_message_number + 1;
    Ok(plaintext)
}

/// Whether a session listens to a sender: one whose messages it expects, or
/// one of whom it keeps keys.
pub open spec fn expects(m: SessionModel, sender: DevicePubkey) -> bool {
    m.their_current == Some(sender) || m.their_next == Some(sender) || m.skipped.contains_key(
        sender,
    )
}

/// A state that has heard which key the sender will use next.
pub open spec fn follow(m: SessionModel, header: Header) -> SessionModel {
    if m.their_next == Some(header.next_public_key) {
        m
    } else {
        SessionModel {
            their_current: m.their_next,
            their_next: Some(header.next_public_key),
            ..m
        }
    }
}

/// The sender of the receiving chain that a message ends.
pub open spec fn chain_sender(m: SessionModel, sender: DevicePubkey) -> DevicePubkey {
    match m.their_current {
        Some(current) => current,
        None => sender,
    }
}

/// Receiving a message whose header has been read. One to the current key
/// belongs to the receiving chain. One to the next key ends that chain, of
/// which the keys that are still out are kept, and turns the ratchet. One to
/// the key before the current one can only be a message whose key was kept.
pub open spec fn receive_with_header(
    m: SessionModel,
    header: Header,
    key: HeaderKey,
    ciphertext: Seq<char>,
    sender: DevicePubkey,
    next_secret: [u8; 32],
) -> Result<(SessionModel, Seq<u8>), Fault> {
    match key {
        HeaderKey::Previous => match use_skipped(m, header.number, ciphertext, sender) {
            Some(r) => r,
            None => Err(Fault::InvalidHeader),
        },
        HeaderKey::Current => decrypt_message(follow(m, header), header, ciphertext, sender),
        HeaderKey::Next => {
            let m1 = follow(m, header);
            let ended = if m1.receiving_chain_key is Some {
                skip(m1, header.previous_chain_length, chain_sender(m, sender))
            } else {
                Ok(m1)
            };
            match ended {
                Err(f) => Err(f),
                Ok(m2) => match step(m2, next_secret) {
                    Err(f) => Err(f),
                    Ok(m3) => decrypt_message(m3, header, ciphertext, sender),
                },
            }
        },
    }
}

/// Receives a message whose header has been read.
pub fn ratchet_receive(
    state: &mut SessionState,
    header: &Header,
    key: HeaderKey,
    ciphertext: &str,
    sender: DevicePubkey,
    our_next_private_key: [u8; 32],
) -> (r: Result<Vec<u8>, Error>)
    ensures
        match r {
            Ok(plaintext) => receive_with_header(
                old(state)@,
                *header,
                key,
                ciphertext@,
                sender,
                our_next_private_key,
            ) == Ok::<(SessionModel, Seq<u8>), Fault>((final(state)@, plaintext@)),
            Err(e) => receive_with_header(
                old(state)@,
                *header,
                key,
                ciphertext@,
                sender,
                our_next_private_key,
            ) == Err::<(SessionModel, Seq<u8>), Fault>(fault(e)),
        },
        r is Ok ==> key == HeaderKey::Next ==> (forall|their_secret: [u8; 32]| #[trigger]
            agrees_with(final(state)@, their_secret)),
{
    match key {
        HeaderKey::Previous => {
            return match try_skipped_message_keys(state, header.number, ciphertext, sender) {
                Err(e) => Err(e),
                Ok(Some(plaintext)) => Ok(plaintext),
                Ok(None) => Err(Error::Codec(CodecError::InvalidHeader)),
            };
        },
        _ => {},
    }
    let previous_sender: DevicePubkey = match state.their_current_nostr_public_key {
        Some(current) => current,
        None => sender,
    };
    let expected: bool = match state.their_next_nostr_public_key {
        Some(next) => next == header.next_public_key,
        None => false,
    };
    if !expected {
        state.their_current_nostr_public_key = state.their_next_nostr_public_key;
        state.their_next_nostr_public_key = Some(header.next_public_key);
    }
    assert(state@ == follow(old(state)@, *header));
    if let HeaderKey::Next = key {
        if state.receiving_chain_key.is_some() {
            match skip_message_keys(state, header.previous_chain_length, &previous_sender) {
                Err(e) => {
                    return Err(e);
                },
                Ok(()) => {},
            }
        }
        match ratchet_step(state, our_next_private_key) {
            Err(e) => {
                return Err(e);
            },
            Ok(()) => {},
        }
    }
    let ghost turned = state@;
    let r = ratchet_decrypt(state, header, ciphertext, sender);
    proof {
        if r is Ok && key == HeaderKey::Next {
            assert forall|their_secret: [u8; 32]| #[trigger] agrees_with(state@, their_secret) by {
                assert(agrees_with(turned, their_secret));
            }
        }
    }
    r
}

// ---------------------------------------------------------------------------
// Whole messages
// ---------------------------------------------------------------------------

/// Whether a session may send at all: the initiator, and the other end once it
/// has received.
pub open spec fn may_send(m: SessionModel) -> bool {
    m.their_next is Some && m.our_current is Some
}

/// Whether a header is short enough to be encrypted.
pub open spec fn header_sealable(header: Header) -> bool {
    sealable(encode_utf8(json_text(header_json(header))).len() as int)
}

/// Why a message of a length cannot be sent, if it cannot.
pub open spec fn send_refusal(m: SessionModel, len: int) -> Option<Fault> {
    if !may_send(m) {
        Some(Fault::NotInitiator)
    } else if send_fault(m) is Some {
        send_fault(m)
    } else if !sealable(len) {
        Some(Fault::Nip44)
    } else if public_key_of(m.our_current->Some_0.private_key) is None {
        Some(Fault::NostrKey)
    } else if conversation_key_of(
        m.our_current->Some_0.private_key,
        m.their_next->Some_0.0,
    ) is None || !header_sealable(next_header(m)) {
        Some(Fault::Nip44)
    } else {
        None
    }
}

/// Whether an encrypted header tells the one whom it is for that it is a
/// header.
pub open spec fn tells(
    pair: SerializableKeyPair,
    to: DevicePubkey,
    encrypted: Seq<char>,
    header: Header,
) -> bool {
    forall|other: [u8; 32], own: [u8; 32]| #[trigger]
        ends_of(pair.private_key, to.0, other, own) ==> {
            &&& decrypted(other, own, encrypted) is Some
            &&& header_of(decrypted(other, own, encrypted)->Some_0) == Some(header)
        }
}

/// Whether a header and a ciphertext are the next message of a session and
/// carry a plaintext.
pub open spec fn carries(
    m: SessionModel,
    encrypted_header: Seq<char>,
    ciphertext: Seq<char>,
    plaintext: Seq<u8>,
) -> bool {
    &&& tells(m.our_current->Some_0, m.their_next->Some_0, encrypted_header, next_header(m))
    &&& open_text(message_key_of(m.sending_chain_key->Some_0), ciphertext) == Ok::<Seq<u8>, Fault>(
        plaintext,
    )
}

/// A message under way: who sends it, and its two encrypted parts.
#[derive(Debug)]
pub struct SealedMessage {
    pub sender: SerializableKeyPair,
    pub encrypted_header: String,
    pub ciphertext: String,
}

/// Encrypts the next message of a session.
pub fn seal_message(state: &SessionState, plaintext: &[u8]) -> (r: Result<
    (SessionState, SealedMessage),
    Error,
>)
    ensures
        match r {
            Ok((next_state, message)) => {
                &&& send_refusal(state@, plaintext@.len() as int) is None
                &&& next_state@ == after_send(state@)
                &&& state.our_current_nostr_key == Some(message.sender)
                &&& carries(
                    state@,
                    message.encrypted_header@,
                    message.ciphertext@,
                    plaintext@,
                )
            },
            Err(e) => send_refusal(state@, plaintext@.len() as int) == Some(fault(e)),
        },
{
    let (sender, their_next): (SerializableKeyPair, DevicePubkey) = match (
        state.our_current_nostr_key,
        state.their_next_nostr_public_key,
    ) {
        (Some(sender), Some(their_next)) => (sender, their_next),
        _ => {
            return Err(Error::Domain(DomainError::NotInitiator));
        },
    };
    let mut next_state = state.clone();
    let (header, ciphertext) = match ratchet_encrypt(&mut next_state, plaintext) {
        Ok(parts) => parts,
        Err(e) => {
            return Err(e);
        },
    };
    match check_secret_key(&sender.private_key) {
        Ok(()) => {},
        Err(e) => {
            return Err(Error::NostrKey(e));
        },
    }
    let header_text = header_to_text(&header);
    let encrypted_header = match encrypt(&sender.private_key, &their_next.0, header_text.as_str()) {
        Ok(text) => text,
        Err(e) => {
            return Err(Error::Nip44(e));
        },
    };
    Ok((next_state, SealedMessage { sender, encrypted_header, ciphertext }))
}

/// Receiving a message.
pub open spec fn receive(
    m: SessionModel,
    sender: DevicePubkey,
    encrypted_header: Seq<char>,
    ciphertext: Seq<char>,
    next_secret: [u8; 32],
) -> Result<(SessionModel, Seq<u8>), Fault> {
    if !expects(m, sender) {
        Err(Fault::UnexpectedSender)
    } else {
        match read_header(m, encrypted_header, sender) {
            Err(f) => Err(f),
            Ok((header, key)) => receive_with_header(m, header, key, ciphertext, sender, next_secret),
        }
    }
}

/// Whether a message turns the ratchet, for which a new secret key is needed.
pub open spec fn turns(m: SessionModel, sender: DevicePubkey, encrypted_header: Seq<char>) -> bool {
    expects(m, sender) && (read_header(m, encrypted_header, sender) matches Ok((_, key)) && key
        == HeaderKey::Next)
}

// ---------------------------------------------------------------------------
// Messages as events
// ---------------------------------------------------------------------------

/// Whose messages a session waits for.
#[derive(Debug, Clone, Copy)]
pub struct SessionSubscriptions {
    pub current: Option<DevicePubkey>,
    pub next: Option<DevicePubkey>,
}

impl Default for SessionSubscriptions {
    fn default() -> (r: Self)
        ensures
            r.current is None,
            r.next is None,
    {
        SessionSubscriptions { current: None, next: None }
    }
}

#[derive(Debug, Clone, Copy, PartialEq, Eq)]
pub struct SessionSendRuntime {
    pub now_secs: u64,
    pub now_millis: u128,
}

#[derive(Debug, Clone, Copy)]
pub struct SessionReceiveRuntime {
    pub our_next_private_key: [u8; 32],
}

#[derive(Debug)]
pub struct SessionSendTransition {
    pub next_state: SessionState,
    pub event: Event,
}

#[derive(Debug)]
pub struct SessionReceiveTransition {
    pub next_state: SessionState,
    pub plaintext: Option<String>,
    pub needs_subscription_update: bool,
}

pub fn desired_subscriptions(state: &SessionState) -> (r: SessionSubscriptions)
    ensures
        r.current == state.their_current_nostr_public_key,
        r.next == state.their_next_nostr_public_key,
{
    SessionSubscriptions {
        current: state.their_current_nostr_public_key,
        next: state.their_next_nostr_public_key,
    }
}

/// The rumor that an event is sent as. One that does not say at which
/// millisecond it was written is told so, and then loses the tags that mention
/// its author.
pub open spec fn stamped(event: EventBody, now_millis: u128) -> RumorModel {
    let tags = if has_tag(event.tags, "ms"@) {
        event.tags
    } else {
        without_mentions(
            event.tags.push(seq!["ms"@, decimal(now_millis as nat)]),
            hex_text(event.pubkey.0@),
        )
    };
    identified(
        RumorModel {
            id: None,
            pubkey: event.pubkey,
            created_at: event.created_at,
            kind: event.kind as u32,
            tags,
            content: event.content,
        },
    )
}

/// The event that a message is published in.
pub open spec fn message_event(
    sender: DevicePubkey,
    created_at: u64,
    encrypted_header: Seq<char>,
    ciphertext: Seq<char>,
) -> EventBody {
    EventBody {
        pubkey: sender,
        created_at: UnixSeconds(created_at),
        kind: MESSAGE_EVENT_KIND as u16,
        tags: seq![seq!["header"@, encrypted_header]],
        content: ciphertext,
    }
}

/// Encrypts an event and signs the event that carries it.
pub fn send_event(state: &SessionState, event: UnsignedEvent, runtime: SessionSendRuntime) -> (r:
    Result<SessionSendTransition, Error>)
    ensures
        match r {
            Ok(transition) => {
                let rumor = stamped(event@, runtime.now_millis);
                let encrypted_header = transition.event@.body.tags[0][1];
                &&& send_refusal(state@, rumor_bytes(rumor).len() as int) is None
                &&& transition.next_state@ == after_send(state@)
                &&& transition.event@.body == message_event(
                    state.our_current_nostr_key->Some_0.public_key,
                    runtime.now_secs,
                    encrypted_header,
                    transition.event.content@,
                )
                &&& transition.event@.id == body_id(transition.event@.body)
                &&& public_key_of(state.our_current_nostr_key->Some_0.private_key) == Some(
                    transition.event.pubkey.0,
                ) ==> event_verifies(transition.event@)
                &&& carries(
                    state@,
                    encrypted_header,
                    transition.event.content@,
                    rumor_bytes(rumor),
                )
                &&& rumor_of_bytes(rumor_bytes(rumor)) == Ok::<RumorModel, Fault>(rumor)
            },
            Err(e) => send_refusal(
                state@,
                rumor_bytes(stamped(event@, runtime.now_millis)).len() as int,
            ) == Some(fault(e)),
        },
{
    let ghost said = event@;
    let pubkey = event.pubkey;
    let mut tags = event.tags;
    if !contains_tag(&tags, "ms") {
        let ghost before = tag_texts(tags@);
        let millis = decimal_text(runtime.now_millis);
        tags.push(pair_of("ms", millis.as_str()));
        assert(tag_texts(tags@) =~= before.push(seq!["ms"@, decimal(runtime.now_millis as nat)]));
        tags = drop_mentions(tags, pubkey.to_hex().as_str());
    }
    let rumor = match Rumor::new(
        pubkey,
        event.created_at,
        event.kind as u32,
        tags,
        event.content,
    ) {
        Ok(rumor) => rumor,
        Err(e) => {
            return Err(e);
        },
    };
    assert(rumor@ == stamped(said, runtime.now_millis));
    let session = Session::new(state.clone(), String::new());
    let plan = match session.plan_send(&rumor, UnixSeconds(runtime.now_secs)) {
        Ok(plan) => plan,
        Err(e) => {
            return Err(e);
        },
    };
    let header_tag = pair_of("header", plan.envelope.encrypted_header.as_str());
    let mut outer_tags: Vec<Vec<String>> = Vec::new();
    outer_tags.push(header_tag);
    let unsigned = UnsignedEvent {
        pubkey: plan.envelope.sender,
        created_at: plan.envelope.created_at,
        kind: MESSAGE_EVENT_KIND as u16,
        tags: outer_tags,
        content: plan.envelope.ciphertext,
    };
    assert(unsigned@.tags =~= seq![seq!["header"@, plan.envelope.encrypted_header@]]);
    match unsigned.sign_with_secret(&plan.envelope.signer_secret_key) {
        Ok(event) => Ok(SessionSendTransition { next_state: plan.next_state, event }),
        Err(e) => Err(e),
    }
}

/// The identifier of the event that a JSON value describes, if it describes
/// one.
pub open spec fn inner_id(value: JsonValue) -> Option<Seq<char>> {
    let tags = match field_of(value, "tags"@) {
        Some(v) => tags_of_json(v),
        None => None,
    };
    match (
        text_field(value, "pubkey"@),
        uint_field(value, "created_at"@),
        uint_field(value, "kind"@),
        text_field(value, "content"@),
        tags,
    ) {
        (Some(pubkey), Some(created_at), Some(kind), Some(content), Some(tags)) => Some(
            event_id(pubkey, created_at, kind, tags, content),
        ),
        _ => None,
    }
}

/// A text that is an event, with the identifier that the event has, whatever
/// one it came with; any other text as it is.
pub open spec fn normalized(text: Seq<char>) -> Seq<char> {
    match json_parsed(text) {
        Some(JsonValue::Object(fields)) => match inner_id(JsonValue::Object(fields)) {
            Some(id) => json_text(
                JsonValue::Object(with_member(fields, "id"@, JsonValue::Str(id))),
            ),
            None => text,
        },
        _ => text,
    }
}

/// Whether what a text says can be written down and read again: it is no event,
/// or it holds no number but integers.
pub open spec fn rewritable(text: Seq<char>) -> bool {
    match json_parsed(text) {
        Some(value) => inner_id(value) is None || plain(value, 127),
        None => true,
    }
}

/// An identifier does not change what the identifier is made from.
proof fn lemma_id_left_out(fields: Seq<(Seq<char>, JsonValue)>, id: Seq<char>)
    requires
        settled(JsonValue::Object(fields)) == JsonValue::Object(fields),
    ensures
        ({
            let more = with_member(fields, "id"@, JsonValue::Str(id));
            &&& inner_id(JsonValue::Object(more)) == inner_id(JsonValue::Object(fields))
            &&& with_member(more, "id"@, JsonValue::Str(id)) == more
            &&& settled(JsonValue::Object(more)) == JsonValue::Object(more)
            &&& plain(JsonValue::Object(fields), 127) ==> plain(JsonValue::Object(more), 127)
        }),
{
    reveal_strlit("id");
    reveal_strlit("pubkey");
    reveal_strlit("created_at");
    reveal_strlit("kind");
    reveal_strlit("content");
    reveal_strlit("tags");
    assert("id"@.len() == 2);
    assert("pubkey"@.len() == 6);
    assert("created_at"@.len() == 10);
    assert("kind"@.len() == 4);
    assert("content"@.len() == 7);
    assert("tags"@.len() == 4);
    let value = JsonValue::Str(id);
    let more = with_member(fields, "id"@, value);
    lemma_settled_object(fields);
    lemma_with_member(fields, "id"@, value);
    assert(more.contains(("id"@, value)));
    lemma_with_member_again(more, "id"@, value);
    lemma_found(fields);
    lemma_found(more);
    assert forall|name: Seq<char>| name != "id"@ implies #[trigger] field_of(
        JsonValue::Object(more),
        name,
    ) == field_of(JsonValue::Object(fields), name) by {
        if let Some(v) = field_of(JsonValue::Object(fields), name) {
            assert(fields.contains((name, v)));
            assert(more.contains((name, v)));
        }
        if let Some(v) = field_of(JsonValue::Object(more), name) {
            assert(more.contains((name, v)));
            assert(fields.contains((name, v)));
        }
    }
    assert forall|i: int| 0 <= i < more.len() implies settled((#[trigger] more[i]).1)
        == more[i].1 by {
        assert(more.contains(more[i]));
        if more[i] != ("id"@, value) {
            let k = choose|k: int| 0 <= k < fields.len() && fields[k] == more[i];
            assert(settled(fields[k].1) == fields[k].1);
        }
    }
    lemma_settled_fields(more);
    if plain(JsonValue::Object(fields), 127) {
        assert forall|i: int| 0 <= i < more.len() implies plain((#[trigger] more[i]).1, 126) by {
            assert(more.contains(more[i]));
            if more[i] != ("id"@, value) {
                let k = choose|k: int| 0 <= k < fields.len() && fields[k] == more[i];
                assert(plain(fields[k].1, 126));
            }
        }
    }
}

fn inner_rumor_id(json: &Json) -> (r: Option<String>)
    ensures
        r is Some == inner_id(json@) is Some,
        r matches Some(id) ==> inner_id(json@) == Some(id@),
{
    let pubkey = match json.text_field("pubkey") {
        Some(text) => text,
        None => {
            return None;
        },
    };
    let created_at: u64 = match json.uint_field("created_at") {
        Some(n) => n,
        None => {
            return None;
        },
    };
    let kind: u64 = match json.uint_field("kind") {
        Some(n) => n,
        None => {
            return None;
        },
    };
    let content = match json.text_field("content") {
        Some(text) => text,
        None => {
            return None;
        },
    };
    let tags = match json.field("tags") {
        Some(tags) => match tags_from_json(tags) {
            Some(tags) => tags,
            None => {
                return None;
            },
        },
        None => {
            return None;
        },
    };
    Some(compute_event_id(pubkey.as_str(), created_at, kind, &tags, content.as_str()))
}

/// Gives a text that is an event the identifier that the event has.
pub fn normalize_inner_rumor_id(plaintext: &str) -> (r: String)
    ensures
        r@ == normalized(plaintext@),
        rewritable(plaintext@) ==> normalized(r@) == r@,
{
    let json = match parse_json(plaintext) {
        Ok(json) => json,
        Err(_) => {
            return plaintext.to_string();
        },
    };
    let id = match inner_rumor_id(&json) {
        Some(id) => id,
        None => {
            return plaintext.to_string();
        },
    };
    match json {
        Json::Object(mut fields) => {
            let ghost known = field_values(fields@);
            let ghost name = id@;
            set_member(&mut fields, "id", Json::Str(id));
            proof {
                lemma_id_left_out(known, name);
            }
            print_json(&Json::Object(fields))
        },
        _ => plaintext.to_string(),
    }
}

/// Receiving a message in an event: the encrypted header is in a tag, and the
/// header is read before the sender is looked at.
pub open spec fn receive_in_event(m: SessionModel, event: EventBody, next_secret: [u8; 32]) -> Result<
    (SessionModel, Seq<char>, bool),
    Fault,
> {
    match tag_value(event.tags, "header"@) {
        None => Err(Fault::InvalidHeader),
        Some(encrypted) => match read_header(m, encrypted, event.pubkey) {
            Err(Fault::InvalidHeader) => Err(Fault::Nip44),
            Err(f) => Err(f),
            Ok((header, key)) => if !expects(m, event.pubkey) {
                Err(Fault::InvalidEvent)
            } else {
                match receive_with_header(
                    m,
                    header,
                    key,
                    event.content,
                    event.pubkey,
                    next_secret,
                ) {
                    Err(f) => Err(f),
                    Ok((next, plaintext)) => if !valid_utf8(plaintext) {
                        Err(Fault::Decryption)
                    } else {
                        Ok((next, normalized(decode_utf8(plaintext)), key == HeaderKey::Next))
                    },
                }
            },
        },
    }
}

pub fn receive_event(state: &SessionState, event: &Event, runtime: SessionReceiveRuntime) -> (r:
    Result<SessionReceiveTransition, Error>)
    ensures
        match r {
            Ok(transition) => transition.plaintext is Some && receive_in_event(
                state@,
                event@.body,
                runtime.our_next_private_key,
            ) == Ok::<(SessionModel, Seq<char>, bool), Fault>(
                (
                    transition.next_state@,
                    transition.plaintext->Some_0@,
                    transition.needs_subscription_update,
                ),
            ),
            Err(e) => receive_in_event(state@, event@.body, runtime.our_next_private_key) == Err::<
                (SessionModel, Seq<char>, bool),
                Fault,
            >(fault(e)),
        },
{
    let encrypted_header = match optional_tag_value(&event.tags, "header") {
        Some(text) => text,
        None => {
            return Err(Error::Codec(CodecError::InvalidHeader));
        },
    };
    let sender = event.pubkey;
    let (header, key) = match decrypt_header(state, encrypted_header.as_str(), sender) {
        Ok(found) => found,
        Err(Error::Codec(CodecError::InvalidHeader)) => {
            return Err(Error::Nip44("header does not decrypt".to_string()));
        },
        Err(e) => {
            return Err(e);
        },
    };
    let current: bool = match state.their_current_nostr_public_key {
        Some(key) => key == sender,
        None => false,
    };
    let next: bool = match state.their_next_nostr_public_key {
        Some(key) => key == sender,
        None => false,
    };
    if !current && !next && !state.skipped_keys.contains_key(&sender) {
        return Err(Error::Codec(CodecError::InvalidEvent("Unexpected sender".to_string())));
    }
    let mut next_state = state.clone();
    let plaintext = match ratchet_receive(
        &mut next_state,
        &header,
        key,
        event.content.as_str(),
        sender,
        runtime.our_next_private_key,
    ) {
        Ok(plaintext) => plaintext,
        Err(e) => {
            return Err(e);
        },
    };
    let text = match utf8_decode(plaintext) {
        Ok(text) => text,
        Err(e) => {
            return Err(Error::Decryption(e));
        },
    };
    Ok(
        SessionReceiveTransition {
            next_state,
            plaintext: Some(normalize_inner_rumor_id(text.as_str())),
            needs_subscription_update: match key {
                HeaderKey::Next => true,
                _ => false,
            },
        },
    )
}

} // verus!
