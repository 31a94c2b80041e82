//! Times, and the names of owners, devices and groups.
use vstd::prelude::*;
use crate::collections::OrderedKey;
use crate::crypto;
use crate::encoding::{decode_hex_32, hex_encode, hex_key, hex_text, is_hex_array, HexError};
use crate::error::Error;
use crate::order::{bytes_before, same_bytes, str_before};

verus! {

#[derive(Debug, Clone, Copy, PartialEq, Eq, PartialOrd, Ord, Hash, Structural)]
pub struct UnixSeconds(pub u64);

#[derive(Debug, Clone, Copy, PartialEq, Eq, PartialOrd, Ord, Hash, Structural)]
pub struct UnixMillis(pub u64);

/// The public key of the owner of some devices.
#[derive(Debug, Clone, Copy, Eq, PartialOrd, Ord, Hash)]
pub struct OwnerPubkey(pub [u8; 32]);

/// The public key of a device, or of one end of a session.
#[derive(Debug, Clone, Copy, Eq, PartialOrd, Ord, Hash)]
pub struct DevicePubkey(pub [u8; 32]);

/// The name that an owner gives a device.
#[derive(Debug, Eq, PartialOrd, Ord, Hash)]
pub struct DeviceId(pub String);

#[derive(Debug, Eq, PartialOrd, Ord, Hash)]
pub struct GroupId(pub String);

impl UnixSeconds {
    pub fn get(self) -> (r: u64)
        ensures
            r == self.0,
    {
        self.0
    }
}

impl UnixMillis {
    pub fn get(self) -> (r: u64)
        ensures
            r == self.0,
    {
        self.0
    }
}

impl vstd::std_specs::cmp::PartialEqSpecImpl for OwnerPubkey {
    open spec fn obeys_eq_spec() -> bool {
        true
    }

    open spec fn eq_spec(&self, other: &Self) -> bool {
        *self == *other
    }
}

impl PartialEq for OwnerPubkey {
    fn eq(&self, other: &Self) -> (r: bool) {
        same_bytes(&self.0, &other.0)
    }
}

impl vstd::std_specs::cmp::PartialEqSpecImpl for DevicePubkey {
    open spec fn obeys_eq_spec() -> bool {
        true
    }

    open spec fn eq_spec(&self, other: &Self) -> bool {
        *self == *other
    }
}

impl PartialEq for DevicePubkey {
    fn eq(&self, other: &Self) -> (r: bool) {
        same_bytes(&self.0, &other.0)
    }
}

impl PartialEq for DeviceId {
    fn eq(&self, other: &Self) -> (r: bool) {
        self.0 == other.0
    }
}

impl vstd::std_specs::cmp::PartialEqSpecImpl for DeviceId {
    open spec fn obeys_eq_spec() -> bool {
        true
    }

    open spec fn eq_spec(&self, other: &Self) -> bool {
        self@ == other@
    }
}

impl PartialEq for GroupId {
    fn eq(&self, other: &Self) -> (r: bool) {
        self.0 == other.0
    }
}

impl vstd::std_specs::cmp::PartialEqSpecImpl for GroupId {
    open spec fn obeys_eq_spec() -> bool {
        true
    }

    open spec fn eq_spec(&self, other: &Self) -> bool {
        self@ == other@
    }
}

impl View for DeviceId {
    type V = Seq<char>;

    open spec fn view(&self) -> Seq<char> {
        self.0@
    }
}

impl View for GroupId {
    type V = Seq<char>;

    open spec fn view(&self) -> Seq<char> {
        self.0@
    }
}

impl DeviceId {
    pub fn new(value: &str) -> (r: Self)
        ensures
            r@ == value@,
    {
        DeviceId(value.to_string())
    }

    pub fn as_str(&self) -> (r: &str)
        ensures
            r@ == self@,
    {
        self.0.as_str()
    }

}

impl Clone for DeviceId {
    fn clone(&self) -> (r: Self)
        ensures
            r == *self,
    {
        DeviceId(self.0.clone())
    }
}

impl Clone for GroupId {
    fn clone(&self) -> (r: Self)
        ensures
            r == *self,
    {
        GroupId(self.0.clone())
    }
}

impl GroupId {
    pub fn new(value: &str) -> (r: Self)
        ensures
            r@ == value@,
    {
        GroupId(value.to_string())
    }

    pub fn as_str(&self) -> (r: &str)
        ensures
            r@ == self@,
    {
        self.0.as_str()
    }
}

impl OwnerPubkey {
    pub fn from_bytes(bytes: [u8; 32]) -> (r: Self)
        ensures
            r.0 == bytes,
    {
        OwnerPubkey(bytes)
    }

    pub fn to_bytes(self) -> (r: [u8; 32])
        ensures
            r == self.0,
    {
        self.0
    }

    pub open spec fn device(self) -> DevicePubkey {
        DevicePubkey(self.0)
    }

    pub fn as_device(self) -> (r: DevicePubkey)
        ensures
            r == self.device(),
    {
        DevicePubkey(self.0)
    }

    /// The key in hexadecimal.
    pub fn to_hex(self) -> (r: String)
        ensures
            r@ == hex_text(self.0@),
    {
        hex_encode(&self.0)
    }

    /// Reads a key written in hexadecimal.
    pub fn parse_hex(text: &str) -> (r: Result<OwnerPubkey, String>)
        ensures
            r is Ok == is_hex_array(text@),
            r matches Ok(key) ==> hex_key(text@) == Some(key.0),
            r is Err ==> hex_key(text@) is None,
            r matches Err(e) ==> hex_error_text(text@, e@),
    {
        match parse_hex_pubkey(text) {
            Ok(bytes) => Ok(OwnerPubkey(bytes)),
            Err(e) => Err(e),
        }
    }
}

impl DevicePubkey {
    pub fn from_bytes(bytes: [u8; 32]) -> (r: Self)
        ensures
            r.0 == bytes,
    {
        DevicePubkey(bytes)
    }

    pub fn to_bytes(self) -> (r: [u8; 32])
        ensures
            r == self.0,
    {
        self.0
    }

    pub open spec fn owner(self) -> OwnerPubkey {
        OwnerPubkey(self.0)
    }

    pub fn as_owner(self) -> (r: OwnerPubkey)
        ensures
            r == self.owner(),
    {
        OwnerPubkey(self.0)
    }

    /// The key in hexadecimal.
    pub fn to_hex(self) -> (r: String)
        ensures
            r@ == hex_text(self.0@),
    {
        hex_encode(&self.0)
    }

    /// Reads a key written in hexadecimal.
    pub fn parse_hex(text: &str) -> (r: Result<DevicePubkey, String>)
        ensures
            r is Ok == is_hex_array(text@),
            r matches Ok(key) ==> hex_key(text@) == Some(key.0),
            r is Err ==> hex_key(text@) is None,
            r matches Err(e) ==> hex_error_text(text@, e@),
    {
        match parse_hex_pubkey(text) {
            Ok(bytes) => Ok(DevicePubkey(bytes)),
            Err(e) => Err(e),
        }
    }

    /// The public key of a secret key.
    pub fn from_secret_bytes(secret: &[u8; 32]) -> (r: Result<DevicePubkey, Error>)
        ensures
            r is Ok == device_key_of(*secret) is Some,
            r matches Ok(key) ==> device_key_of(*secret) == Some(key),
            r matches Err(e) ==> e is NostrKey,
            r matches Ok(key) ==> (forall|other: [u8; 32]|
                crypto::public_key_of(other) is Some ==> #[trigger] crypto::conversation_key_of(
                    other,
                    key.0,
                ) is Some),
    {
        match crypto::derive_public_key(secret) {
            Ok(public) => Ok(DevicePubkey(public)),
            Err(e) => Err(Error::NostrKey(e)),
        }
    }
}

/// The device key of a secret key.
pub open spec fn device_key_of(secret: [u8; 32]) -> Option<DevicePubkey> {
    match crypto::public_key_of(secret) {
        Some(public) => Some(DevicePubkey(public)),
        None => None,
    }
}

/// What is said of a text that is no key: of one with the wrong number of
/// digits always the same.
pub open spec fn hex_error_text(text: Seq<char>, error: Seq<char>) -> bool {
    crate::encoding::hex_bytes(text) is Some ==> error == "expected 32-byte public key"@
}

fn parse_hex_pubkey(value: &str) -> (r: Result<[u8; 32], String>)
    ensures
        r is Ok == is_hex_array(value@),
        r matches Ok(bytes) ==> hex_key(value@) == Some(bytes),
        r is Err ==> hex_key(value@) is None,
        r matches Err(e) ==> hex_error_text(value@, e@),
{
    match decode_hex_32(value) {
        Ok(bytes) => Ok(bytes),
        Err(HexError::Digits(e)) => Err(e),
        Err(HexError::Length) => Err("expected 32-byte public key".to_string()),
    }
}

/// As the owner of itself, a device is the same key, and the other way round.
pub proof fn owner_and_device_are_the_same_key(owner: OwnerPubkey, device: DevicePubkey)
    ensures
        owner.device().owner() == owner,
        device.owner().device() == device,
{
}

/// Whether a key comes before another: their bytes are compared one by one.
pub open spec fn key_before(a: [u8; 32], b: [u8; 32]) -> bool {
    crate::order::lex_before(crate::order::byte_ranks(a@), crate::order::byte_ranks(b@))
}

proof fn lemma_key_total(a: [u8; 32], b: [u8; 32])
    ensures
        a == b || key_before(a, b) || key_before(b, a),
{
    crate::order::lemma_lex_total(crate::order::byte_ranks(a@), crate::order::byte_ranks(b@));
    if crate::order::byte_ranks(a@) == crate::order::byte_ranks(b@) {
        crate::order::lemma_byte_ranks_injective(a@, b@);
        assert(a =~= b);
    }
}

impl OrderedKey for OwnerPubkey {
    type Id = OwnerPubkey;

    open spec fn id(&self) -> OwnerPubkey {
        *self
    }

    open spec fn before(a: OwnerPubkey, b: OwnerPubkey) -> bool {
        key_before(a.0, b.0)
    }

    proof fn before_irreflexive(a: OwnerPubkey) {
        crate::order::lemma_lex_irreflexive(crate::order::byte_ranks(a.0@));
    }

    proof fn before_transitive(a: OwnerPubkey, b: OwnerPubkey, c: OwnerPubkey) {
        crate::order::lemma_lex_transitive(
            crate::order::byte_ranks(a.0@),
            crate::order::byte_ranks(b.0@),
            crate::order::byte_ranks(c.0@),
        );
    }

    proof fn before_total(a: OwnerPubkey, b: OwnerPubkey) {
        lemma_key_total(a.0, b.0);
    }

    fn precedes(&self, other: &OwnerPubkey) -> (r: bool) {
        bytes_before(&self.0, &other.0)
    }

    fn duplicate(&self) -> (r: OwnerPubkey) {
        *self
    }
}

impl OrderedKey for DevicePubkey {
    type Id = DevicePubkey;

    open spec fn id(&self) -> DevicePubkey {
        *self
    }

    open spec fn before(a: DevicePubkey, b: DevicePubkey) -> bool {
        key_before(a.0, b.0)
    }

    proof fn before_irreflexive(a: DevicePubkey) {
        crate::order::lemma_lex_irreflexive(crate::order::byte_ranks(a.0@));
    }

    proof fn before_transitive(a: DevicePubkey, b: DevicePubkey, c: DevicePubkey) {
        crate::order::lemma_lex_transitive(
            crate::order::byte_ranks(a.0@),
            crate::order::byte_ranks(b.0@),
            crate::order::byte_ranks(c.0@),
        );
    }

    proof fn before_total(a: DevicePubkey, b: DevicePubkey) {
        lemma_key_total(a.0, b.0);
    }

    fn precedes(&self, other: &DevicePubkey) -> (r: bool) {
        bytes_before(&self.0, &other.0)
    }

    fn duplicate(&self) -> (r: DevicePubkey) {
        *self
    }
}

impl OrderedKey for String {
    type Id = Seq<char>;

    open spec fn id(&self) -> Seq<char> {
        self@
    }

    open spec fn before(a: Seq<char>, b: Seq<char>) -> bool {
        crate::order::lex_before(crate::order::char_ranks(a), crate::order::char_ranks(b))
    }

    proof fn before_irreflexive(a: Seq<char>) {
        crate::order::lemma_lex_irreflexive(crate::order::char_ranks(a));
    }

    proof fn before_transitive(a: Seq<char>, b: Seq<char>, c: Seq<char>) {
        crate::order::lemma_lex_transitive(
            crate::order::char_ranks(a),
            crate::order::char_ranks(b),
            crate::order::char_ranks(c),
        );
    }

    proof fn before_total(a: Seq<char>, b: Seq<char>) {
        crate::order::lemma_lex_total(crate::order::char_ranks(a), crate::order::char_ranks(b));
        if crate::order::char_ranks(a) == crate::order::char_ranks(b) {
            crate::order::lemma_char_ranks_injective(a, b);
        }
    }

    fn precedes(&self, other: &String) -> (r: bool) {
        str_before(self.as_str(), other.as_str())
    }

    fn duplicate(&self) -> (r: String) {
        self.clone()
    }
}

impl OrderedKey for DeviceId {
    type Id = Seq<char>;

    open spec fn id(&self) -> Seq<char> {
        self@
    }

    open spec fn before(a: Seq<char>, b: Seq<char>) -> bool {
        <String as OrderedKey>::before(a, b)
    }

    proof fn before_irreflexive(a: Seq<char>) {
        <String as OrderedKey>::before_irreflexive(a);
    }

    proof fn before_transitive(a: Seq<char>, b: Seq<char>, c: Seq<char>) {
        <String as OrderedKey>::before_transitive(a, b, c);
    }

    proof fn before_total(a: Seq<char>, b: Seq<char>) {
        <String as OrderedKey>::before_total(a, b);
    }

    fn precedes(&self, other: &DeviceId) -> (r: bool) {
        self.0.precedes(&other.0)
    }

    fn duplicate(&self) -> (r: DeviceId) {
        self.clone()
    }
}

} // verus!
