//! What holds of sessions at both ends of a conversation.
use vstd::prelude::*;
use vstd::utf8::decode_utf8;
use crate::crypto::{conversation_key_of, ends_of, kdf_output, public_key_of, sealable};
use crate::error::{fault, Error, Fault};
use crate::ids::{device_key_of, DevicePubkey};
use crate::session::domain::{
    after_send, agrees_with, carries, chain_key_after, chain_sender, decrypt_message, expects,
    first_state, follow, header_under, header_under_optional, keys_ahead, message_key_of, may_send,
    newest, next_chain_key, next_header, numbers_above, open_text, read_header, receive,
    header_sealable, receive_in_event, receive_with_header, stamped, send_refusal, skip, skipped_of,
    step, turns, use_skipped, without_skipped, HeaderKey,
};
use crate::encoding::hex_text;
use crate::event::{has_tag, tag_value, EventBody};
use crate::json::json_parsed;
use crate::message_properties::only_mentions_of_the_author_are_left_out;
use crate::rumor::{identified, rumor_id, RumorModel};
use crate::session::{
    drawn_receive, plans_receive, rumor_bytes, rumor_of_bytes, EnvelopeModel, Header, ReceivePlan,
    SerializableKeyPair, SessionModel,
};
use crate::text::decimal;
use crate::types::MAX_SKIP;

verus! {

/// Whether a key pair is one.
pub open spec fn pair_fits(pair: SerializableKeyPair) -> bool {
    public_key_of(pair.private_key) == Some(pair.public_key.0)
}

/// Whether a session can send and its key pairs are pairs.
pub open spec fn speaks(s: SessionModel) -> bool {
    &&& may_send(s)
    &&& s.sending_chain_key is Some
    &&& pair_fits(s.our_current->Some_0)
    &&& pair_fits(s.our_next)
    &&& s.our_next.public_key != s.our_current->Some_0.public_key
}

/// Whether a receiver is on the chain that a sender sends on: it waits for a
/// message of that chain, of which none that it has not seen is behind it.
pub open spec fn follows_chain(s: SessionModel, r: SessionModel) -> bool {
    let sender = s.our_current->Some_0.public_key;
    &&& speaks(s)
    &&& r.our_current is Some
    &&& pair_fits(r.our_current->Some_0)
    &&& s.their_next == Some(r.our_current->Some_0.public_key)
    &&& r.their_current == Some(sender)
    &&& r.their_next == Some(s.our_next.public_key)
    &&& r.receiving_chain_key is Some
    &&& r.receiving_number <= s.sending_number
    &&& s.sending_chain_key == Some(
        chain_key_after(
            r.receiving_chain_key->Some_0,
            (s.sending_number - r.receiving_number) as nat,
        ),
    )
    &&& forall|n: u32| #[trigger] skipped_of(r, sender).contains_key(n) ==> n < r.receiving_number
}

/// Whether a receiver waits for the chain that a sender sends on: a message of
/// it turns the receiver's ratchet to the sender's chain.
pub open spec fn awaits_chain(s: SessionModel, r: SessionModel) -> bool {
    let sender = s.our_current->Some_0.public_key;
    let shared = conversation_key_of(r.our_next.private_key, s.our_next.public_key.0);
    &&& speaks(s)
    &&& pair_fits(r.our_next)
    &&& s.their_next == Some(r.our_next.public_key)
    &&& r.their_next == Some(sender)
    &&& shared is Some
    &&& s.root_key == kdf_output(r.root_key@, shared->Some_0@, 1)
    &&& s.sending_chain_key == Some(
        chain_key_after(
            kdf_output(r.root_key@, shared->Some_0@, 2),
            s.sending_number as nat,
        ),
    )
    &&& !r.skipped.contains_key(sender)
    &&& r.their_current != Some(sender)
    &&& r.receiving_chain_key is Some ==> r.their_current is Some
}

/// Whether a message is in time: so few of the chain, and of the chain that it
/// ends, are missing that their keys are derived.
pub open spec fn in_time(s: SessionModel, r: SessionModel) -> bool {
    &&& s.sending_number < u32::MAX
    &&& s.sending_number - r.receiving_number <= MAX_SKIP
}

pub open spec fn ends_in_time(s: SessionModel, r: SessionModel) -> bool {
    &&& s.sending_number < u32::MAX
    &&& s.sending_number <= MAX_SKIP
    &&& r.receiving_chain_key is Some ==> s.previous_sending_count - r.receiving_number <= MAX_SKIP
}

/// The two ends of a new conversation meet: the one that was asked waits for
/// the chain that the initiator sends on.
pub proof fn first_states_meet(
    a: SessionModel,
    b: SessionModel,
    a_secret: [u8; 32],
    b_secret: [u8; 32],
    shared_secret: [u8; 32],
    a_next_secret: [u8; 32],
)
    requires
        device_key_of(a_secret) is Some,
        device_key_of(b_secret) is Some,
        first_state(
            device_key_of(b_secret)->Some_0,
            a_secret,
            true,
            shared_secret,
            Some(a_next_secret),
        ) == Ok::<SessionModel, Fault>(a),
        first_state(device_key_of(a_secret)->Some_0, b_secret, false, shared_secret, None) == Ok::<
            SessionModel,
            Fault,
        >(b),
        agrees_with(a, b_secret),
        device_key_of(a_next_secret) != device_key_of(a_secret),
    ensures
        awaits_chain(a, b),
        ends_in_time(a, b),
{
}

/// A message of the chain that a receiver is on opens, though others of the
/// chain are missing, and the receiver stays on the chain.
pub proof fn message_of_the_chain_opens(
    s: SessionModel,
    r: SessionModel,
    encrypted_header: Seq<char>,
    ciphertext: Seq<char>,
    plaintext: Seq<u8>,
    secret: [u8; 32],
)
    requires
        follows_chain(s, r),
        in_time(s, r),
        carries(s, encrypted_header, ciphertext, plaintext),
    ensures
        ({
            let sender = s.our_current->Some_0.public_key;
            let outcome = receive(r, sender, encrypted_header, ciphertext, secret);
            &&& outcome is Ok
            &&& outcome->Ok_0.1 == plaintext
            &&& follows_chain(after_send(s), outcome->Ok_0.0)
        }),
{
    let sender = s.our_current->Some_0.public_key;
    let header = next_header(s);
    let pair = r.our_current->Some_0;
    assert(ends_of(
        s.our_current->Some_0.private_key,
        s.their_next->Some_0.0,
        pair.private_key,
        sender.0,
    ));
    assert(header_under_optional(r.our_current, sender, encrypted_header) == Ok::<_, Fault>(
        Some(header),
    ));
    assert(follow(r, header) == r);
    lemma_opens(s, r, sender, ciphertext, plaintext);
}

/// A message of the chain that a receiver is on does not turn its ratchet.
pub proof fn following_messages_do_not_turn(
    s: SessionModel,
    r: SessionModel,
    encrypted_header: Seq<char>,
    ciphertext: Seq<char>,
    plaintext: Seq<u8>,
)
    requires
        follows_chain(s, r),
        carries(s, encrypted_header, ciphertext, plaintext),
    ensures
        !turns(r, s.our_current->Some_0.public_key, encrypted_header),
{
    let sender = s.our_current->Some_0.public_key;
    assert(ends_of(
        s.our_current->Some_0.private_key,
        s.their_next->Some_0.0,
        r.our_current->Some_0.private_key,
        sender.0,
    ));
    assert(header_under_optional(r.our_current, sender, encrypted_header) == Ok::<_, Fault>(
        Some(next_header(s)),
    ));
}

/// Once the receiver's chain is the sender's, the message opens.
proof fn lemma_opens(
    s: SessionModel,
    r: SessionModel,
    sender: DevicePubkey,
    ciphertext: Seq<char>,
    plaintext: Seq<u8>,
)
    requires
        s.sending_chain_key is Some,
        r.receiving_chain_key is Some,
        r.receiving_number <= s.sending_number,
        in_time(s, r),
        s.sending_chain_key == Some(
            chain_key_after(
                r.receiving_chain_key->Some_0,
                (s.sending_number - r.receiving_number) as nat,
            ),
        ),
        forall|n: u32| #[trigger]
            skipped_of(r, sender).contains_key(n) ==> n < r.receiving_number,
        open_text(message_key_of(s.sending_chain_key->Some_0), ciphertext) == Ok::<Seq<u8>, Fault>(
            plaintext,
        ),
    ensures
        ({
            let outcome = decrypt_message(r, next_header(s), ciphertext, sender);
            let r1 = outcome->Ok_0.0;
            &&& outcome is Ok
            &&& outcome->Ok_0.1 == plaintext
            &&& r1.receiving_chain_key == Some(next_chain_key(s.sending_chain_key->Some_0))
            &&& r1.receiving_number == s.sending_number + 1
            &&& r1 == (SessionModel {
                receiving_chain_key: r1.receiving_chain_key,
                receiving_number: r1.receiving_number,
                skipped: r1.skipped,
                ..r
            })
            &&& forall|n: u32| #[trigger]
                skipped_of(r1, sender).contains_key(n) ==> n < r1.receiving_number
            &&& forall|other: DevicePubkey|
                other != sender ==> r1.skipped.contains_key(other) == r.skipped.contains_key(other)
                    && #[trigger] skipped_of(r1, other) == skipped_of(r, other)
        }),
{
    let n = s.sending_number;
    assert(!skipped_of(r, sender).contains_key(n));
    assert(use_skipped(r, n, ciphertext, sender) is None);
    assert(skip(r, n, sender) is Ok);
}

/// Whether the keys with which a receiver would answer are new to both ends.
pub open spec fn answers_with_new_keys(s: SessionModel, r: SessionModel, secret: [u8; 32]) -> bool {
    &&& device_key_of(secret) != Some(r.our_next.public_key)
    &&& !s.skipped.contains_key(r.our_next.public_key)
    &&& s.their_current != Some(r.our_next.public_key)
    &&& s.receiving_chain_key is Some ==> s.their_current is Some
}

/// A message of the chain that a receiver waits for opens, turns the
/// receiver's ratchet and puts the receiver on the chain; and the sender then
/// waits for the chain on which the receiver answers.
pub proof fn message_of_the_next_chain_opens(
    s: SessionModel,
    r: SessionModel,
    encrypted_header: Seq<char>,
    ciphertext: Seq<char>,
    plaintext: Seq<u8>,
    secret: [u8; 32],
)
    requires
        awaits_chain(s, r),
        ends_in_time(s, r),
        carries(s, encrypted_header, ciphertext, plaintext),
        header_under_optional(
            r.our_current,
            s.our_current->Some_0.public_key,
            encrypted_header,
        ) == Ok::<Option<Header>, Fault>(None),
        device_key_of(secret) is Some,
        conversation_key_of(secret, s.our_next.public_key.0) is Some,
    ensures
        ({
            let sender = s.our_current->Some_0.public_key;
            let outcome = receive(r, sender, encrypted_header, ciphertext, secret);
            let r1 = outcome->Ok_0.0;
            let s1 = after_send(s);
            &&& turns(r, sender, encrypted_header)
            &&& outcome is Ok
            &&& outcome->Ok_0.1 == plaintext
            &&& follows_chain(s1, r1)
            &&& agrees_with(r1, s.our_next.private_key) && answers_with_new_keys(s, r, secret)
                ==> awaits_chain(r1, s1)
        }),
{
    let sender = s.our_current->Some_0.public_key;
    let header = next_header(s);
    assert(ends_of(
        s.our_current->Some_0.private_key,
        s.their_next->Some_0.0,
        r.our_next.private_key,
        sender.0,
    ));
    assert(header_under(r.our_next, sender, encrypted_header) == Ok::<_, Fault>(Some(header)));
    let r0 = follow(r, header);
    assert(r0.their_next == Some(s.our_next.public_key));
    assert(r0.their_current == Some(sender));
    let ended = if r0.receiving_chain_key is Some {
        skip(r0, header.previous_chain_length, chain_sender(r, sender))
    } else {
        Ok::<SessionModel, Fault>(r0)
    };
    assert(ended is Ok);
    let r2 = ended->Ok_0;
    let shared = conversation_key_of(r.our_next.private_key, s.our_next.public_key.0)->Some_0;
    assert(step(r2, secret) is Ok);
    let r3 = step(r2, secret)->Ok_0;
    let first = kdf_output(r.root_key@, shared@, 2);
    assert(r3.receiving_chain_key == Some(first));
    if r.their_current is Some {
        assert(chain_sender(r, sender) != sender);
        assert(skipped_of(r3, sender) =~= Map::empty());
    }
    if r.receiving_chain_key is None {
        assert(skipped_of(r3, sender) =~= Map::empty());
    }
    lemma_opens(s, r3, sender, ciphertext, plaintext);
    assert(chain_key_after(next_chain_key(s.sending_chain_key->Some_0), 0) == next_chain_key(
        s.sending_chain_key->Some_0,
    ));
}

/// The first message of a conversation is read by the one that was asked, and
/// the rumor in it is the one that was sent.
pub proof fn first_message_is_read(
    a: SessionModel,
    b: SessionModel,
    a_secret: [u8; 32],
    b_secret: [u8; 32],
    shared_secret: [u8; 32],
    a_next_secret: [u8; 32],
    rumor: RumorModel,
    envelope: EnvelopeModel,
    secret: [u8; 32],
    r: Result<ReceivePlan, Error>,
)
    requires
        device_key_of(a_secret) is Some,
        device_key_of(b_secret) is Some,
        first_state(
            device_key_of(b_secret)->Some_0,
            a_secret,
            true,
            shared_secret,
            Some(a_next_secret),
        ) == Ok::<SessionModel, Fault>(a),
        first_state(device_key_of(a_secret)->Some_0, b_secret, false, shared_secret, None) == Ok::<
            SessionModel,
            Fault,
        >(b),
        agrees_with(a, b_secret),
        device_key_of(a_next_secret) != device_key_of(a_secret),
        envelope.sender == a.our_current->Some_0.public_key,
        carries(a, envelope.encrypted_header, envelope.ciphertext, rumor_bytes(rumor)),
        rumor_of_bytes(rumor_bytes(rumor)) == Ok::<RumorModel, Fault>(identified(rumor)),
        device_key_of(secret) is Some,
        conversation_key_of(secret, a.our_next.public_key.0) is Some,
        plans_receive(b, envelope, secret, r),
    ensures
        r is Ok,
        r->Ok_0.rumor@ == identified(rumor),
        r->Ok_0.sender == envelope.sender,
        follows_chain(after_send(a), r->Ok_0.next_state@),
{
    first_states_meet(a, b, a_secret, b_secret, shared_secret, a_next_secret);
    message_of_the_next_chain_opens(
        a,
        b,
        envelope.encrypted_header,
        envelope.ciphertext,
        rumor_bytes(rumor),
        secret,
    );
}

/// A rumor on the chain that a receiver is on is read as it was sent, and the
/// receiver stays on the chain. The key that opened it is gone: what comes again
/// under the same header is opened by the key of a later message, or not at all.
pub proof fn following_message_is_read(
    s: SessionModel,
    r: SessionModel,
    rumor: RumorModel,
    envelope: EnvelopeModel,
    plan: Result<ReceivePlan, Error>,
    again: Result<ReceivePlan, Error>,
)
    requires
        follows_chain(s, r),
        in_time(s, r),
        envelope.sender == s.our_current->Some_0.public_key,
        carries(s, envelope.encrypted_header, envelope.ciphertext, rumor_bytes(rumor)),
        rumor_of_bytes(rumor_bytes(rumor)) == Ok::<RumorModel, Fault>(identified(rumor)),
        drawn_receive(r, envelope, plan),
    ensures
        plan is Ok,
        plan->Ok_0.rumor@ == identified(rumor),
        plan->Ok_0.sender == envelope.sender,
        follows_chain(after_send(s), plan->Ok_0.next_state@),
        ({
            let r1 = plan->Ok_0.next_state@;
            &&& s.sending_number < r1.receiving_number
            &&& !skipped_of(r1, envelope.sender).contains_key(s.sending_number)
            &&& drawn_receive(r1, envelope, again) && again is Ok ==> open_text(
                message_key_of(r1.receiving_chain_key->Some_0),
                envelope.ciphertext,
            ) is Ok
        }),
{
    following_messages_do_not_turn(
        s,
        r,
        envelope.encrypted_header,
        envelope.ciphertext,
        rumor_bytes(rumor),
    );
    let secret = choose|secret: [u8; 32]| #[trigger] plans_receive(r, envelope, secret, plan);
    message_of_the_chain_opens(
        s,
        r,
        envelope.encrypted_header,
        envelope.ciphertext,
        rumor_bytes(rumor),
        secret,
    );
    let sender = envelope.sender;
    let header = next_header(s);
    let pair = r.our_current->Some_0;
    assert(ends_of(
        s.our_current->Some_0.private_key,
        s.their_next->Some_0.0,
        pair.private_key,
        sender.0,
    ));
    assert(header_under_optional(r.our_current, sender, envelope.encrypted_header) == Ok::<
        _,
        Fault,
    >(Some(header)));
    assert(follow(r, header) == r);
    lemma_opens(s, r, sender, envelope.ciphertext, rumor_bytes(rumor));
    let r1 = plan->Ok_0.next_state@;
    let n = s.sending_number;
    assert(decrypt_message(r, header, envelope.ciphertext, sender)->Ok_0.0 == r1);
    assert(r1.our_current == r.our_current);
    assert(follow(r1, header) == r1);
    assert(!turns(r1, sender, envelope.encrypted_header));
    lemma_number_is_not_ahead(r, n, sender);
    if drawn_receive(r1, envelope, again) && again is Ok {
        let other = choose|other: [u8; 32]| #[trigger] plans_receive(r1, envelope, other, again);
        assert(receive(r1, sender, envelope.encrypted_header, envelope.ciphertext, other)
            == decrypt_message(r1, header, envelope.ciphertext, sender));
        assert(use_skipped(r1, n, envelope.ciphertext, sender) is None);
        assert(skip(r1, n, sender) == Ok::<SessionModel, Fault>(r1));
    }
}

/// The keys that are kept on the way to a message are not its own.
proof fn lemma_number_is_not_ahead(r: SessionModel, until: u32, sender: DevicePubkey)
    requires
        r.receiving_number <= until,
        skip(r, until, sender) is Ok,
        !skipped_of(r, sender).contains_key(until),
    ensures
        !skipped_of(skip(r, until, sender)->Ok_0, sender).contains_key(until),
{
}

/// A rumor on the chain that a receiver waits for is read as it was sent, and
/// the receiver is on the chain then.
pub proof fn message_of_the_next_chain_is_read(
    s: SessionModel,
    r: SessionModel,
    rumor: RumorModel,
    envelope: EnvelopeModel,
    secret: [u8; 32],
    plan: Result<ReceivePlan, Error>,
)
    requires
        awaits_chain(s, r),
        ends_in_time(s, r),
        envelope.sender == s.our_current->Some_0.public_key,
        carries(s, envelope.encrypted_header, envelope.ciphertext, rumor_bytes(rumor)),
        rumor_of_bytes(rumor_bytes(rumor)) == Ok::<RumorModel, Fault>(identified(rumor)),
        header_under_optional(r.our_current, envelope.sender, envelope.encrypted_header) == Ok::<
            Option<Header>,
            Fault,
        >(None),
        device_key_of(secret) is Some,
        conversation_key_of(secret, s.our_next.public_key.0) is Some,
        plans_receive(r, envelope, secret, plan),
    ensures
        plan is Ok,
        plan->Ok_0.rumor@ == identified(rumor),
        plan->Ok_0.sender == envelope.sender,
        follows_chain(after_send(s), plan->Ok_0.next_state@),
{
    message_of_the_next_chain_opens(
        s,
        r,
        envelope.encrypted_header,
        envelope.ciphertext,
        rumor_bytes(rumor),
        secret,
    );
}

/// Whatever secret key chance gives to the one that was asked, the rumor that
/// it reads in the first message is the one that was sent; nothing but that key
/// can fail.
pub proof fn first_message_is_not_misread(
    a: SessionModel,
    b: SessionModel,
    a_secret: [u8; 32],
    b_secret: [u8; 32],
    shared_secret: [u8; 32],
    a_next_secret: [u8; 32],
    rumor: RumorModel,
    envelope: EnvelopeModel,
    r: Result<ReceivePlan, Error>,
)
    requires
        device_key_of(a_secret) is Some,
        device_key_of(b_secret) is Some,
        first_state(
            device_key_of(b_secret)->Some_0,
            a_secret,
            true,
            shared_secret,
            Some(a_next_secret),
        ) == Ok::<SessionModel, Fault>(a),
        first_state(device_key_of(a_secret)->Some_0, b_secret, false, shared_secret, None) == Ok::<
            SessionModel,
            Fault,
        >(b),
        agrees_with(a, b_secret),
        device_key_of(a_next_secret) != device_key_of(a_secret),
        envelope.sender == a.our_current->Some_0.public_key,
        carries(a, envelope.encrypted_header, envelope.ciphertext, rumor_bytes(rumor)),
        rumor_of_bytes(rumor_bytes(rumor)) == Ok::<RumorModel, Fault>(identified(rumor)),
        drawn_receive(b, envelope, r),
    ensures
        match r {
            Ok(plan) => plan.rumor@ == identified(rumor) && plan.sender == envelope.sender
                && follows_chain(after_send(a), plan.next_state@),
            Err(e) => fault(e) == Fault::NostrKey || fault(e) == Fault::Nip44,
        },
{
    first_states_meet(a, b, a_secret, b_secret, shared_secret, a_next_secret);
    if exists|secret: [u8; 32]| #[trigger] plans_receive(b, envelope, secret, r) {
        let secret = choose|secret: [u8; 32]| #[trigger] plans_receive(b, envelope, secret, r);
        let sender = a.our_current->Some_0.public_key;
        let header = next_header(a);
        assert(ends_of(
            a.our_current->Some_0.private_key,
            a.their_next->Some_0.0,
            b.our_next.private_key,
            sender.0,
        ));
        assert(read_header(b, envelope.encrypted_header, sender) == Ok::<
            (Header, HeaderKey),
            Fault,
        >((header, HeaderKey::Next)));
        if device_key_of(secret) is Some && conversation_key_of(
            secret,
            a.our_next.public_key.0,
        ) is Some {
            first_message_is_read(
                a,
                b,
                a_secret,
                b_secret,
                shared_secret,
                a_next_secret,
                rumor,
                envelope,
                secret,
                r,
            );
        } else {
            assert(step(follow(b, header), secret) is Err);
        }
    }
}

/// A message that was passed over still opens after the sender has gone on to
/// its next chain and a message of that chain was read. Its header fits the key
/// to which it was encrypted and no later one.
pub proof fn messages_of_the_last_chain_still_open(
    s: SessionModel,
    r: SessionModel,
    encrypted_header: Seq<char>,
    ciphertext: Seq<char>,
    plaintext: Seq<u8>,
    later: SessionModel,
    later_header: Seq<char>,
    later_ciphertext: Seq<char>,
    later_plaintext: Seq<u8>,
    secret: [u8; 32],
    other_secret: [u8; 32],
)
    requires
        follows_chain(s, r),
        carries(s, encrypted_header, ciphertext, plaintext),
        s.sending_number < later.previous_sending_count,
        awaits_chain(later, r),
        ends_in_time(later, r),
        carries(later, later_header, later_ciphertext, later_plaintext),
        header_under_optional(
            r.our_current,
            later.our_current->Some_0.public_key,
            later_header,
        ) == Ok::<Option<Header>, Fault>(None),
        device_key_of(secret) is Some,
        conversation_key_of(secret, later.our_next.public_key.0) is Some,
        header_under(r.our_next, s.our_current->Some_0.public_key, encrypted_header) == Ok::<
            Option<Header>,
            Fault,
        >(None),
        header_under(
            SerializableKeyPair {
                public_key: device_key_of(secret)->Some_0,
                private_key: secret,
            },
            s.our_current->Some_0.public_key,
            encrypted_header,
        ) == Ok::<Option<Header>, Fault>(None),
    ensures
        ({
            let next = receive(
                r,
                later.our_current->Some_0.public_key,
                later_header,
                later_ciphertext,
                secret,
            );
            let late = receive(
                next->Ok_0.0,
                s.our_current->Some_0.public_key,
                encrypted_header,
                ciphertext,
                other_secret,
            );
            &&& next is Ok
            &&& next->Ok_0.1 == later_plaintext
            &&& late is Ok
            &&& late->Ok_0.1 == plaintext
        }),
{
    let old_sender = s.our_current->Some_0.public_key;
    let sender = later.our_current->Some_0.public_key;
    let header = next_header(later);
    message_of_the_next_chain_opens(
        later,
        r,
        later_header,
        later_ciphertext,
        later_plaintext,
        secret,
    );
    assert(ends_of(
        later.our_current->Some_0.private_key,
        later.their_next->Some_0.0,
        r.our_next.private_key,
        sender.0,
    ));
    assert(header_under(r.our_next, sender, later_header) == Ok::<_, Fault>(Some(header)));
    let r0 = follow(r, header);
    assert(chain_sender(r, sender) == old_sender);
    let r2 = skip(r0, header.previous_chain_length, old_sender)->Ok_0;
    assert(skipped_of(r0, old_sender) == skipped_of(r, old_sender));
    passed_over_keys_are_kept(r0, header.previous_chain_length, old_sender, s.sending_number);
    let r3 = step(r2, secret)->Ok_0;
    assert(skipped_of(r3, sender) =~= Map::empty());
    lemma_opens(later, r3, sender, later_ciphertext, later_plaintext);
    let r4 = decrypt_message(r3, header, later_ciphertext, sender)->Ok_0.0;
    assert(skipped_of(r4, old_sender) == skipped_of(r3, old_sender));
    assert(ends_of(
        s.our_current->Some_0.private_key,
        s.their_next->Some_0.0,
        r.our_current->Some_0.private_key,
        old_sender.0,
    ));
    assert(header_under(r.our_current->Some_0, old_sender, encrypted_header) == Ok::<_, Fault>(
        Some(next_header(s)),
    ));
    assert(read_header(r4, encrypted_header, old_sender) == Ok::<(Header, HeaderKey), Fault>(
        (next_header(s), HeaderKey::Previous),
    ));
    assert(use_skipped(r4, s.sending_number, ciphertext, old_sender) is Some);
}

/// The numbers strictly between two numbers.
spec fn between(low: u32, high: u32) -> Set<u32> {
    Set::new(|k: u32| low < k < high)
}

proof fn lemma_between(low: u32, high: u32)
    requires
        low < high,
    ensures
        between(low, high).finite(),
        between(low, high).len() == high - low - 1,
    decreases high - low,
{
    if high == low + 1 {
        assert(between(low, high) =~= Set::empty());
    } else {
        let below = (high - 1) as u32;
        lemma_between(low, below);
        assert(between(low, high) =~= between(low, below).insert(below));
    }
}

/// The keys of the messages that a receiver passes over are kept, each under
/// the number of its message.
pub proof fn passed_over_keys_are_kept(
    r: SessionModel,
    until: u32,
    sender: DevicePubkey,
    number: u32,
)
    requires
        skip(r, until, sender) is Ok,
        r.receiving_number <= number < until,
        forall|n: u32| #[trigger]
            skipped_of(r, sender).contains_key(n) ==> n < r.receiving_number,
    ensures
        ({
            let r1 = skip(r, until, sender)->Ok_0;
            &&& r1.skipped.contains_key(sender)
            &&& r1.skipped[sender].contains_key(number)
            &&& r1.skipped[sender][number] == message_key_of(
                chain_key_after(
                    r.receiving_chain_key->Some_0,
                    (number - r.receiving_number) as nat,
                ),
            )
        }),
{
    let chain_key = r.receiving_chain_key->Some_0;
    let keys = skipped_of(r, sender).union_prefer_right(
        keys_ahead(chain_key, r.receiving_number, until),
    );
    lemma_between(number, until);
    assert(numbers_above(keys, number).subset_of(between(number, until)));
    vstd::set_lib::lemma_len_subset(numbers_above(keys, number), between(number, until));
}

/// A message whose key was kept opens, whether it was encrypted to the current
/// key or to the one before, and nothing of the state changes but that the key
/// is gone: it opens nothing a second time.
pub proof fn kept_key_opens_once(
    r: SessionModel,
    header: Header,
    key: HeaderKey,
    ciphertext: Seq<char>,
    plaintext: Seq<u8>,
    sender: DevicePubkey,
    secret: [u8; 32],
)
    requires
        key == HeaderKey::Previous || (key == HeaderKey::Current && r.their_next == Some(
            header.next_public_key,
        )),
        r.skipped.contains_key(sender),
        r.skipped[sender].contains_key(header.number),
        open_text(r.skipped[sender][header.number], ciphertext) == Ok::<Seq<u8>, Fault>(plaintext),
    ensures
        ({
            let r1 = without_skipped(r, sender, header.number);
            &&& receive_with_header(r, header, key, ciphertext, sender, secret) == Ok::<
                (SessionModel, Seq<u8>),
                Fault,
            >((r1, plaintext))
            &&& !skipped_of(r1, sender).contains_key(header.number)
            &&& use_skipped(r1, header.number, ciphertext, sender) is None
            &&& key == HeaderKey::Previous ==> receive_with_header(
                r1,
                header,
                key,
                ciphertext,
                sender,
                secret,
            ) == Err::<(SessionModel, Seq<u8>), Fault>(Fault::InvalidHeader)
        }),
{
}

/// Whether no more keys are kept of any sender than may be.
pub open spec fn keeps_few(m: SessionModel) -> bool {
    forall|sender: DevicePubkey| #[trigger]
        m.skipped.contains_key(sender) ==> m.skipped[sender].dom().finite()
            && m.skipped[sender].dom().len() <= MAX_SKIP
}

proof fn lemma_least(numbers: Set<u32>) -> (least: u32)
    requires
        numbers.finite(),
        numbers.len() > 0,
    ensures
        numbers.contains(least),
        forall|n: u32| #[trigger] numbers.contains(n) ==> least <= n,
    decreases numbers.len(),
{
    let some = numbers.choose();
    let rest = numbers.remove(some);
    if rest.len() == 0 {
        assert forall|n: u32| #[trigger] numbers.contains(n) implies some <= n by {
            if n != some {
                assert(rest.contains(n));
                assert(rest =~= Set::empty());
            }
        }
        some
    } else {
        let least = lemma_least(rest);
        let r = if some < least {
            some
        } else {
            least
        };
        assert forall|n: u32| #[trigger] numbers.contains(n) implies r <= n by {
            if n != some {
                assert(rest.contains(n));
            }
        }
        r
    }
}

proof fn lemma_newest_few(keys: Map<u32, [u8; 32]>, limit: nat)
    requires
        keys.dom().finite(),
    ensures
        newest(keys, limit).dom().finite(),
        newest(keys, limit).dom().len() <= limit,
{
    let kept = newest(keys, limit).dom();
    assert(kept.subset_of(keys.dom()));
    vstd::set_lib::lemma_len_subset(kept, keys.dom());
    if kept.len() > limit {
        let least = lemma_least(kept);
        let above = numbers_above(keys, least);
        assert(above.subset_of(keys.dom()));
        vstd::set_lib::lemma_len_subset(above, keys.dom());
        assert(kept.remove(least).subset_of(above)) by {
            assert forall|n: u32| #[trigger] kept.remove(least).contains(n) implies above.contains(
                n,
            ) by {
                assert(kept.contains(n));
                assert(keys.contains_key(n));
            }
        }
        vstd::set_lib::lemma_len_subset(kept.remove(least), above);
        assert(newest(keys, limit).contains_key(least));
    }
}

proof fn lemma_skip_keeps_few(m: SessionModel, until: u32, sender: DevicePubkey)
    requires
        keeps_few(m),
        skip(m, until, sender) is Ok,
    ensures
        keeps_few(skip(m, until, sender)->Ok_0),
{
    if until > m.receiving_number {
        let ahead = keys_ahead(m.receiving_chain_key->Some_0, m.receiving_number, until);
        let keys = skipped_of(m, sender).union_prefer_right(ahead);
        assert(ahead.dom().finite()) by {
            lemma_between(m.receiving_number, until);
            assert(ahead.dom() =~= between(m.receiving_number, until).insert(m.receiving_number));
        }
        assert(skipped_of(m, sender).dom().finite());
        assert(keys.dom() =~= skipped_of(m, sender).dom().union(ahead.dom()));
        lemma_newest_few(keys, MAX_SKIP as nat);
    }
}

proof fn lemma_decrypt_keeps_few(
    m: SessionModel,
    header: Header,
    ciphertext: Seq<char>,
    sender: DevicePubkey,
)
    requires
        keeps_few(m),
    ensures
        decrypt_message(m, header, ciphertext, sender) matches Ok((next, _)) ==> keeps_few(next),
        use_skipped(m, header.number, ciphertext, sender) matches Some(Ok((next, _))) ==> keeps_few(
            next,
        ),
{
    if skip(m, header.number, sender) is Ok {
        lemma_skip_keeps_few(m, header.number, sender);
    }
    if use_skipped(m, header.number, ciphertext, sender) is Some {
        let known = m.skipped[sender].dom();
        assert(m.skipped[sender].remove(header.number).dom() =~= known.remove(header.number));
    }
}

/// However many messages are received, and whoever sent them, no more keys are
/// kept of a sender than may be.
pub proof fn receiving_keeps_few(
    m: SessionModel,
    sender: DevicePubkey,
    encrypted_header: Seq<char>,
    ciphertext: Seq<char>,
    secret: [u8; 32],
)
    requires
        keeps_few(m),
    ensures
        receive(m, sender, encrypted_header, ciphertext, secret) matches Ok((next, _)) ==> keeps_few(
            next,
        ),
        keeps_few(after_send(m)),
{
    if expects(m, sender) && read_header(m, encrypted_header, sender) is Ok {
        let (header, key) = read_header(m, encrypted_header, sender)->Ok_0;
        lemma_decrypt_keeps_few(m, header, ciphertext, sender);
        let m1 = follow(m, header);
        lemma_decrypt_keeps_few(m1, header, ciphertext, sender);
        let other = chain_sender(m, sender);
        let ended = if m1.receiving_chain_key is Some {
            skip(m1, header.previous_chain_length, other)
        } else {
            Ok::<SessionModel, Fault>(m1)
        };
        if ended is Ok {
            if m1.receiving_chain_key is Some {
                lemma_skip_keeps_few(m1, header.previous_chain_length, other);
            }
            if step(ended->Ok_0, secret) is Ok {
                lemma_decrypt_keeps_few(step(ended->Ok_0, secret)->Ok_0, header, ciphertext, sender);
            }
        }
    }
}

// ---------------------------------------------------------------------------
// Keys
// ---------------------------------------------------------------------------

/// Each message has a key of its own: it and the key of the chain after it are
/// two parts of what is derived from the key of the chain before it, and so is
/// each key that is kept of a message that was passed over.
pub proof fn each_message_has_its_own_key(chain_key: [u8; 32], steps: nat, from: u32, until: u32, n: u32)
    requires
        from <= n < until,
    ensures
        next_chain_key(chain_key) == kdf_output(chain_key@, seq![1u8], 1),
        message_key_of(chain_key) == kdf_output(chain_key@, seq![1u8], 2),
        chain_key_after(chain_key, 0) == chain_key,
        chain_key_after(chain_key, steps + 1) == kdf_output(
            chain_key_after(chain_key, steps)@,
            seq![1u8],
            1,
        ),
        keys_ahead(chain_key, from, until).contains_key(n),
        keys_ahead(chain_key, from, until)[n] == kdf_output(
            chain_key_after(chain_key, (n - from) as nat)@,
            seq![1u8],
            2,
        ),
{
}

/// Sending a message moves the chain one step on and counts it, and changes
/// nothing else. Its header says which message of the chain it is, how long the
/// chain before was, and which key comes next.
pub proof fn sending_moves_one_step_on(s: SessionModel)
    requires
        s.sending_chain_key is Some,
        s.sending_number < u32::MAX,
    ensures
        ({
            let after = after_send(s);
            &&& after.sending_number == s.sending_number + 1
            &&& after.sending_chain_key == Some(
                kdf_output(s.sending_chain_key->Some_0@, seq![1u8], 1),
            )
            &&& after.root_key == s.root_key
            &&& after.their_current == s.their_current
            &&& after.their_next == s.their_next
            &&& after.our_previous == s.our_previous
            &&& after.our_current == s.our_current
            &&& after.our_next == s.our_next
            &&& after.receiving_chain_key == s.receiving_chain_key
            &&& after.receiving_number == s.receiving_number
            &&& after.previous_sending_count == s.previous_sending_count
            &&& after.skipped == s.skipped
        }),
        next_header(s).number == s.sending_number,
        next_header(s).previous_chain_length == s.previous_sending_count,
        next_header(s).next_public_key == s.our_next.public_key,
        next_header(after_send(s)).number == s.sending_number + 1,
{
}

/// A session can send as long as it has a key to write to, one of its own and a
/// chain, has not sent as many messages as can be counted, and the message is
/// not too long: then nothing but its keys can fail.
pub proof fn sessions_that_can_send_do(s: SessionModel, len: int)
    ensures
        !(s.their_next is Some && s.our_current is Some) ==> send_refusal(s, len) == Some(
            Fault::NotInitiator,
        ),
        s.their_next is Some && s.our_current is Some && s.sending_chain_key is None
            ==> send_refusal(s, len) == Some(Fault::SessionNotReady),
        s.their_next is Some && s.our_current is Some && s.sending_chain_key is Some
            && s.sending_number == u32::MAX ==> send_refusal(s, len) == Some(Fault::InvalidState),
        s.their_next is Some && s.our_current is Some && s.sending_chain_key is Some
            && s.sending_number < u32::MAX && sealable(len) && public_key_of(
            s.our_current->Some_0.private_key,
        ) is Some && conversation_key_of(
            s.our_current->Some_0.private_key,
            s.their_next->Some_0.0,
        ) is Some && header_sealable(next_header(s)) ==> send_refusal(s, len) is None,
{
}

/// Turning the ratchet puts a new pair of keys in the place of the one that was
/// next, which becomes the current one, and that the one before. Both chains
/// begin anew; how long the ended sending chain was is remembered, and the keys
/// that were kept stay.
pub proof fn turning_brings_new_keys(s: SessionModel, secret: [u8; 32])
    ensures
        step(s, secret) matches Ok(after) ==> {
            let first = conversation_key_of(s.our_next.private_key, s.their_next->Some_0.0);
            let second = conversation_key_of(secret, s.their_next->Some_0.0);
            &&& first is Some && second is Some
            &&& after.our_next.private_key == secret
            &&& Some(after.our_next.public_key) == device_key_of(secret)
            &&& after.our_current == Some(s.our_next)
            &&& after.our_previous == s.our_current
            &&& after.their_current == s.their_current
            &&& after.their_next == s.their_next
            &&& after.sending_number == 0
            &&& after.receiving_number == 0
            &&& after.previous_sending_count == s.sending_number
            &&& after.skipped == s.skipped
            &&& after.receiving_chain_key == Some(kdf_output(s.root_key@, first->Some_0@, 2))
            &&& after.sending_chain_key == Some(
                kdf_output(kdf_output(s.root_key@, first->Some_0@, 1)@, second->Some_0@, 2),
            )
            &&& after.root_key == kdf_output(
                kdf_output(s.root_key@, first->Some_0@, 1)@,
                second->Some_0@,
                1,
            )
        },
{
}

/// A message that is too far ahead is refused: no more keys are derived for one
/// message than may be. One that is not is never refused for that.
pub proof fn messages_too_far_ahead_are_refused(r: SessionModel, until: u32, sender: DevicePubkey)
    requires
        r.receiving_chain_key is Some,
    ensures
        until > r.receiving_number && until - r.receiving_number > 1000 ==> skip(r, until, sender)
            == Err::<SessionModel, Fault>(Fault::TooManySkippedMessages),
        until <= r.receiving_number || until - r.receiving_number <= 1000 ==> skip(
            r,
            until,
            sender,
        ) is Ok,
        skip(r, until, sender) matches Ok(after) ==> {
            &&& after.root_key == r.root_key
            &&& after.their_current == r.their_current
            &&& after.their_next == r.their_next
            &&& after.our_current == r.our_current
            &&& after.our_next == r.our_next
            &&& after.sending_chain_key == r.sending_chain_key
            &&& after.sending_number == r.sending_number
            &&& after.receiving_number == if until > r.receiving_number {
                until
            } else {
                r.receiving_number
            }
            &&& forall|other: DevicePubkey|
                other != sender ==> after.skipped.contains_key(other) == r.skipped.contains_key(
                    other,
                ) && #[trigger] after.skipped[other] == r.skipped[other]
        },
{
}

/// Once a kept key was used it is gone, and all others stay: those of the same
/// sender and those of others.
pub proof fn other_kept_keys_stay(
    s: SessionModel,
    number: u32,
    ciphertext: Seq<char>,
    sender: DevicePubkey,
    other: DevicePubkey,
    n: u32,
)
    requires
        other != sender || n != number,
    ensures
        use_skipped(s, number, ciphertext, sender) is Some <==> s.skipped.contains_key(sender)
            && s.skipped[sender].contains_key(number),
        use_skipped(s, number, ciphertext, sender) matches Some(Ok((after, plaintext))) ==> {
            &&& open_text(s.skipped[sender][number], ciphertext) == Ok::<Seq<u8>, Fault>(plaintext)
            &&& !(after.skipped.contains_key(sender) && after.skipped[sender].contains_key(number))
            &&& (after.skipped.contains_key(other) && after.skipped[other].contains_key(n))
                == (s.skipped.contains_key(other) && s.skipped[other].contains_key(n))
            &&& s.skipped.contains_key(other) && s.skipped[other].contains_key(n)
                ==> after.skipped[other][n] == s.skipped[other][n]
            &&& after.root_key == s.root_key
            &&& after.receiving_chain_key == s.receiving_chain_key
            &&& after.receiving_number == s.receiving_number
            &&& after.sending_chain_key == s.sending_chain_key
            &&& after.sending_number == s.sending_number
            &&& after.their_current == s.their_current
            &&& after.their_next == s.their_next
            &&& after.our_current == s.our_current
            &&& after.our_next == s.our_next
        },
{
    if s.skipped.contains_key(sender) && s.skipped[sender].contains_key(number) {
        let rest = s.skipped[sender].remove(number);
        if rest.dom() =~= Set::empty() {
            assert(!rest.dom().contains(n));
        }
    }
}

/// A sender's next key is taken from the header; the key that was next before
/// becomes the current one. Nothing else changes, and nothing at all when the
/// header names the key that is awaited.
pub proof fn headers_tell_the_next_key(s: SessionModel, header: Header)
    ensures
        ({
            let after = follow(s, header);
            &&& after.their_next == Some(header.next_public_key)
            &&& s.their_next == Some(header.next_public_key) ==> after == s
            &&& s.their_next != Some(header.next_public_key) ==> after.their_current
                == s.their_next
            &&& after.root_key == s.root_key
            &&& after.our_current == s.our_current
            &&& after.our_next == s.our_next
            &&& after.our_previous == s.our_previous
            &&& after.receiving_chain_key == s.receiving_chain_key
            &&& after.sending_chain_key == s.sending_chain_key
            &&& after.receiving_number == s.receiving_number
            &&& after.sending_number == s.sending_number
            &&& after.previous_sending_count == s.previous_sending_count
            &&& after.skipped == s.skipped
        }),
{
}

/// An event is sent with all that it says. If it does not say at which
/// millisecond it was written, that is added, and the tags that mention its
/// author go; else its tags stay as they are.
pub proof fn events_are_sent_with_what_they_say(event: EventBody, now_millis: u128)
    ensures
        ({
            let m = stamped(event, now_millis);
            let author = hex_text(event.pubkey.0@);
            let dated = exists|i: int|
                0 <= i < event.tags.len() && (#[trigger] event.tags[i]).len() > 0
                    && event.tags[i][0] == "ms"@;
            let ms = seq!["ms"@, decimal(now_millis as nat)];
            &&& m.pubkey == event.pubkey
            &&& m.created_at == event.created_at
            &&& m.kind == event.kind
            &&& m.content == event.content
            &&& m.id == Some(rumor_id(m))
            &&& dated ==> m.tags == event.tags
            &&& !dated ==> m.tags.contains(ms)
            &&& !dated ==> forall|tag: Seq<Seq<char>>|
                tag != ms ==> (#[trigger] m.tags.contains(tag) <==> event.tags.contains(tag) && !(
                tag.len() > 1 && tag[0] == "p"@ && tag[1] == author))
        }),
{
    let author = hex_text(event.pubkey.0@);
    let ms = seq!["ms"@, decimal(now_millis as nat)];
    let all = event.tags.push(ms);
    reveal_strlit("ms");
    reveal_strlit("p");
    assert("ms"@.len() == 2 && "p"@.len() == 1);
    assert(all[event.tags.len() as int] == ms);
    only_mentions_of_the_author_are_left_out(all, author, ms);
    if !has_tag(event.tags, "ms"@) {
        assert forall|tag: Seq<Seq<char>>| tag != ms implies (#[trigger] stamped(
            event,
            now_millis,
        ).tags.contains(tag) <==> event.tags.contains(tag) && !(tag.len() > 1 && tag[0] == "p"@
            && tag[1] == author)) by {
            only_mentions_of_the_author_are_left_out(all, author, tag);
            if all.contains(tag) {
                let k = choose|k: int| 0 <= k < all.len() && all[k] == tag;
                assert(event.tags[k] == tag);
            }
            if event.tags.contains(tag) {
                let k = choose|k: int| 0 <= k < event.tags.len() && event.tags[k] == tag;
                assert(all[k] == tag);
            }
        }
    }
}

/// A message in an event is opened as one whose header stands in a tag, by a
/// session that awaits its sender; what it says comes out with the identifier
/// that it has. What is no event comes out as it is.
pub proof fn messages_in_events_are_opened_alike(
    s: SessionModel,
    event: EventBody,
    secret: [u8; 32],
)
    ensures
        tag_value(event.tags, "header"@) is None ==> receive_in_event(s, event, secret) is Err,
        !expects(s, event.pubkey) ==> receive_in_event(s, event, secret) is Err,
        receive_in_event(s, event, secret) matches Ok((next, text, turned)) ==> {
            let encrypted = tag_value(event.tags, "header"@)->Some_0;
            let opened = receive(s, event.pubkey, encrypted, event.content, secret);
            &&& opened is Ok
            &&& opened->Ok_0.0 == next
            &&& turned == turns(s, event.pubkey, encrypted)
            &&& json_parsed(decode_utf8(opened->Ok_0.1)) is None ==> text == decode_utf8(
                opened->Ok_0.1,
            )
        },
{
}

} // verus!
