//! Event kinds, limits, and the time and chance that an operation is given.
use vstd::prelude::*;
use crate::crypto;
use crate::error::Error;
use crate::ids::{UnixMillis, UnixSeconds};

verus! {

pub const MESSAGE_EVENT_KIND: u32 = 1060;

pub const INVITE_EVENT_KIND: u32 = 30078;

pub const APP_KEYS_EVENT_KIND: u32 = 30078;

pub const INVITE_RESPONSE_KIND: u32 = 1059;

pub const CHAT_MESSAGE_KIND: u32 = 14;

pub const CHAT_SETTINGS_KIND: u32 = 10448;

pub const REACTION_KIND: u32 = 7;

pub const RECEIPT_KIND: u32 = 15;

pub const TYPING_KIND: u32 = 25;

pub const SHARED_CHANNEL_KIND: u32 = 4;

/// How many message keys a receiver derives ahead, and keeps, at most.
pub const MAX_SKIP: usize = 1000;

pub const EXPIRATION_TAG: &'static str = "expiration";

#[verifier::external_type_specification]
#[verifier::external_body]
pub struct ExStdRng(rand::rngs::StdRng);

/// The time at which an operation takes place, and where its random numbers
/// come from.
pub struct ProtocolContext<'a> {
    pub now_secs: UnixSeconds,
    pub now_millis: UnixMillis,
    pub rng: &'a mut rand::rngs::StdRng,
}

impl<'a> ProtocolContext<'a> {
    pub fn new(
        now_secs: UnixSeconds,
        now_millis: UnixMillis,
        rng: &'a mut rand::rngs::StdRng,
    ) -> (r: Self)
        ensures
            r.now_secs == now_secs,
            r.now_millis == now_millis,
    {
        ProtocolContext { now_secs, now_millis, rng }
    }
}

/// `rand::RngCore::fill_bytes` on thirty-two bytes. Nothing is stated of what
/// comes.
#[verifier::external_body]
fn random_bytes_32(rng: &mut rand::rngs::StdRng) -> (r: [u8; 32])
{
    let mut bytes = [0u8; 32];
    rand::RngCore::fill_bytes(rng, &mut bytes);
    bytes
}

/// `rand::RngCore::fill_bytes` on sixteen bytes. Nothing is stated of what
/// comes.
#[verifier::external_body]
pub(crate) fn random_bytes_16(rng: &mut rand::rngs::StdRng) -> (r: [u8; 16])
{
    let mut bytes = [0u8; 16];
    rand::RngCore::fill_bytes(rng, &mut bytes);
    bytes
}

/// `rand::RngCore::next_u64`. Nothing is stated of what comes.
#[verifier::external_body]
pub(crate) fn random_u64(rng: &mut rand::rngs::StdRng) -> (r: u64)
{
    rand::RngCore::next_u64(rng)
}

/// Whether chance can give bytes that are no secret key.
pub open spec fn chance_fails() -> bool {
    exists|bytes: [u8; 32]| #[trigger] crypto::public_key_of(bytes) is None
}

/// A random secret key; an error where the bytes that came are none.
pub(crate) fn random_secret_key_bytes(rng: &mut rand::rngs::StdRng) -> (r: Result<[u8; 32], Error>)
    ensures
        r is Err ==> chance_fails(),
        r matches Ok(secret) ==> crypto::public_key_of(secret) is Some,
        r matches Err(e) ==> e is NostrKey,
{
    let secret: [u8; 32] = random_bytes_32(rng);
    match crypto::check_secret_key(&secret) {
        Ok(()) => Ok(secret),
        Err(e) => Err(Error::NostrKey(e)),
    }
}

} // verus!
