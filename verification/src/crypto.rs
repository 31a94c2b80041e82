//! Keys, and what is encrypted and derived with them.
use vstd::prelude::*;

verus! {

/// The x-only public key of a secret key: none where the bytes are no secret
/// key of the curve.
pub uninterp spec fn public_key_of(secret: [u8; 32]) -> Option<[u8; 32]>;

/// The conversation key of a secret and a public key: none where either is no
/// key of the curve.
pub uninterp spec fn conversation_key_of(secret: [u8; 32], public: [u8; 32]) -> Option<[u8; 32]>;

/// What a payload holds that was encrypted with a conversation key: none where
/// it does not authenticate.
pub uninterp spec fn opened(key: [u8; 32], payload: Seq<u8>) -> Option<Seq<u8>>;

/// What an encrypted text holds for one of the two ends of a conversation.
pub uninterp spec fn decrypted(secret: [u8; 32], public: [u8; 32], payload: Seq<char>) -> Option<
    Seq<char>,
>;

/// The SHA-256 digest of bytes.
pub uninterp spec fn sha256(bytes: Seq<u8>) -> [u8; 32];

/// Thirty-two bytes of HKDF-SHA256 output.
pub uninterp spec fn hkdf(salt: Seq<u8>, ikm: Seq<u8>, info: Seq<u8>) -> [u8; 32];

/// The longest plaintext that a payload can hold.
pub const MAX_PLAINTEXT_LEN: usize = 65408;

/// Whether a plaintext of a length can be encrypted.
pub open spec fn sealable(len: int) -> bool {
    1 <= len <= MAX_PLAINTEXT_LEN
}

/// Whether two secret keys meet: each one's public key, with the other's
/// secret, gives the conversation.
pub open spec fn ends_of(secret: [u8; 32], public: [u8; 32], other: [u8; 32], own: [u8; 32]) -> bool {
    public_key_of(other) == Some(public) && public_key_of(secret) == Some(own)
}

/// The public key that a text stands for, in hexadecimal, as an `npub` or as a
/// `nostr:` address.
pub uninterp spec fn public_key_parsed(text: Seq<char>) -> Option<[u8; 32]>;

/// `nostr::PublicKey::parse`: it tries hexadecimal digits first, so a key
/// written in them is that key. The text of the error is not stated.
#[verifier::external_body]
pub(crate) fn parse_public_key(text: &str) -> (r: Result<[u8; 32], String>)
    ensures
        r is Ok == public_key_parsed(text@) is Some,
        r matches Ok(key) ==> public_key_parsed(text@) == Some(key),
        r is Ok || crate::encoding::hex_key(text@) is None,
        r matches Ok(key) ==> crate::encoding::hex_key(text@) is None || crate::encoding::hex_key(
            text@,
        ) == Some(key),
{
    nostr::PublicKey::parse(text).map(|key| key.to_bytes()).map_err(|e| e.to_string())
}

/// `nostr::SecretKey::from_slice` followed by `nostr::Keys::new` and
/// `public_key`: the x-only public key of a secret key. A secret key's public
/// key is a point of the curve, so every secret key has a conversation with
/// it. The text of the error is not stated.
#[verifier::external_body]
pub(crate) fn derive_public_key(secret: &[u8; 32]) -> (r: Result<[u8; 32], String>)
    ensures
        r is Ok == public_key_of(*secret) is Some,
        r matches Ok(public) ==> public_key_of(*secret) == Some(public),
        r matches Ok(public) ==> (forall|other: [u8; 32]|
            public_key_of(other) is Some ==> #[trigger] conversation_key_of(other, public) is Some),
{
    let secret_key = nostr::SecretKey::from_slice(secret).map_err(|e| e.to_string())?;
    Ok(nostr::Keys::new(secret_key).public_key().to_bytes())
}

/// `nostr::SecretKey::from_slice`: whether bytes are a secret key. The text of
/// the error is not stated.
#[verifier::external_body]
pub(crate) fn check_secret_key(secret: &[u8; 32]) -> (r: Result<(), String>)
    ensures
        r is Ok == public_key_of(*secret) is Some,
{
    nostr::SecretKey::from_slice(secret).map(|_| ()).map_err(|e| e.to_string())
}

/// `nostr::nips::nip44::v2::ConversationKey::derive`: both ends of a
/// conversation derive the same key, each from its own secret key and the
/// other's public key. The text of the error is not stated.
#[verifier::external_body]
pub(crate) fn derive_conversation_key(secret: &[u8; 32], public: &[u8; 32]) -> (r: Result<
    [u8; 32],
    String,
>)
    requires
        public_key_of(*secret) is Some,
    ensures
        r is Ok == conversation_key_of(*secret, *public) is Some,
        r matches Ok(key) ==> conversation_key_of(*secret, *public) == Some(key),
        r matches Ok(key) ==> (forall|other: [u8; 32], own: [u8; 32]|
            #[trigger] ends_of(*secret, *public, other, own) ==> conversation_key_of(other, own)
                == Some(key)),
{
    let secret_key = nostr::SecretKey::from_slice(secret).map_err(|e| e.to_string())?;
    let public_key = nostr::PublicKey::from_byte_array(*public);
    let key = nostr::nips::nip44::v2::ConversationKey::derive(&secret_key, &public_key).map_err(
        |e| e.to_string(),
    )?;
    <[u8; 32]>::try_from(key.as_bytes()).map_err(|e| e.to_string())
}

/// `nostr::nips::nip44::v2::encrypt_to_bytes`: it refuses a plaintext that is
/// empty or longer than the padding scheme holds, and opening what it gives
/// with the same key gives the plaintext back. The payload begins with a
/// version byte and a random nonce, so it is not empty and nothing more is
/// stated of it, nor of the text of the error.
#[verifier::external_body]
pub(crate) fn seal(key: &[u8; 32], plaintext: &[u8]) -> (r: Result<Vec<u8>, String>)
    ensures
        r is Ok == sealable(plaintext@.len() as int),
        r matches Ok(payload) ==> opened(*key, payload@) == Some(plaintext@) && payload@.len() > 0,
{
    let conversation_key = nostr::nips::nip44::v2::ConversationKey::new(*key);
    nostr::nips::nip44::v2::encrypt_to_bytes(&conversation_key, plaintext).map_err(
        |e| e.to_string(),
    )
}

/// `nostr::nips::nip44::v2::decrypt_to_bytes`. The text of the error is not
/// stated.
#[verifier::external_body]
pub(crate) fn open(key: &[u8; 32], payload: &[u8]) -> (r: Result<Vec<u8>, String>)
    ensures
        r is Ok == opened(*key, payload@) is Some,
        r matches Ok(plaintext) ==> opened(*key, payload@) == Some(plaintext@),
{
    let conversation_key = nostr::nips::nip44::v2::ConversationKey::new(*key);
    nostr::nips::nip44::v2::decrypt_to_bytes(&conversation_key, payload).map_err(|e| e.to_string())
}

/// `nostr::nips::nip44::encrypt` with version 2: it fails where the two keys
/// have no conversation key or the plaintext cannot be encrypted, and the
/// other end of the conversation decrypts what it gives. The payload holds a
/// random nonce, so nothing more is stated of it, nor of the text of the
/// error.
#[verifier::external_body]
pub(crate) fn encrypt(secret: &[u8; 32], public: &[u8; 32], plaintext: &str) -> (r: Result<
    String,
    String,
>)
    requires
        public_key_of(*secret) is Some,
    ensures
        r is Ok == (conversation_key_of(*secret, *public) is Some && sealable(
            vstd::utf8::encode_utf8(plaintext@).len() as int,
        )),
        r matches Ok(payload) ==> (forall|other: [u8; 32], own: [u8; 32]|
            #[trigger] ends_of(*secret, *public, other, own) ==> decrypted(other, own, payload@)
                == Some(plaintext@)),
{
    let secret_key = nostr::SecretKey::from_slice(secret).map_err(|e| e.to_string())?;
    let public_key = nostr::PublicKey::from_byte_array(*public);
    let version = nostr::nips::nip44::Version::V2;
    nostr::nips::nip44::encrypt(&secret_key, &public_key, plaintext, version).map_err(
        |e| e.to_string(),
    )
}

/// `nostr::nips::nip44::decrypt`. The text of the error is not stated.
#[verifier::external_body]
pub(crate) fn decrypt(secret: &[u8; 32], public: &[u8; 32], payload: &str) -> (r: Result<
    String,
    String,
>)
    requires
        public_key_of(*secret) is Some,
    ensures
        r is Ok == decrypted(*secret, *public, payload@) is Some,
        r matches Ok(plaintext) ==> decrypted(*secret, *public, payload@) == Some(plaintext@),
{
    let secret_key = nostr::SecretKey::from_slice(secret).map_err(|e| e.to_string())?;
    let public_key = nostr::PublicKey::from_byte_array(*public);
    nostr::nips::nip44::decrypt(&secret_key, &public_key, payload).map_err(|e| e.to_string())
}

/// `sha2::Sha256::digest`.
#[verifier::external_body]
pub(crate) fn sha256_digest(bytes: &[u8]) -> (r: [u8; 32])
    ensures
        r == sha256(bytes@),
{
    <sha2::Sha256 as sha2::Digest>::digest(bytes).into()
}

/// `nostr::util::hkdf::extract` and `expand`: thirty-two bytes of HKDF-SHA256
/// output for one salt, input key and info.
#[verifier::external_body]
pub(crate) fn hkdf_expand(salt: &[u8], ikm: &[u8], info: &[u8]) -> (r: [u8; 32])
    ensures
        r == hkdf(salt@, ikm@, info@),
{
    let prk = nostr::util::hkdf::extract(salt, ikm);
    let mut okm = [0u8; 32];
    okm.copy_from_slice(&nostr::util::hkdf::expand(&prk[..], info, 32));
    okm
}

/// The output of the key derivation with a number: the numbers count from one.
pub open spec fn kdf_output(input: Seq<u8>, salt: Seq<u8>, number: int) -> [u8; 32] {
    hkdf(salt, input, seq![number as u8])
}

/// Derives two keys from an input and a salt.
pub fn kdf(input: &[u8], salt: &[u8]) -> (r: ([u8; 32], [u8; 32]))
    ensures
        r.0 == kdf_output(input@, salt@, 1),
        r.1 == kdf_output(input@, salt@, 2),
{
    let info1: [u8; 1] = [1u8];
    let info2: [u8; 1] = [2u8];
    proof {
        assert(info1@ =~= seq![1u8]);
        assert(info2@ =~= seq![2u8]);
    }
    (hkdf_expand(salt, input, &info1), hkdf_expand(salt, input, &info2))
}

} // verus!
