//! Events, their tags and their identifiers.
use vstd::prelude::*;
use vstd::utf8::encode_utf8;
use crate::crypto::{public_key_of, sha256, sha256_digest};
use crate::encoding::{hex_encode, hex_text};
use crate::error::{fault, CodecError, Error, Fault};
use crate::ids::{DevicePubkey, UnixSeconds};
use crate::json::{
    item_values, json_text, lemma_item_values, print_json, push_item, Json, JsonValue,
};
use crate::order::same_str;

verus! {

/// Tags, each a list of texts, the first of which is its name.
pub open spec fn tag_texts(tags: Seq<Vec<String>>) -> Seq<Seq<Seq<char>>> {
    Seq::new(tags.len(), |i: int| texts(tags[i]@))
}

pub open spec fn texts(values: Seq<String>) -> Seq<Seq<char>> {
    Seq::new(values.len(), |i: int| values[i]@)
}

/// What an event says.
#[verifier::ext_equal]
pub struct EventBody {
    pub pubkey: DevicePubkey,
    pub created_at: UnixSeconds,
    pub kind: u16,
    pub tags: Seq<Seq<Seq<char>>>,
    pub content: Seq<char>,
}

/// An event that is not signed yet.
#[derive(Debug)]
pub struct UnsignedEvent {
    pub pubkey: DevicePubkey,
    pub created_at: UnixSeconds,
    pub kind: u16,
    pub tags: Vec<Vec<String>>,
    pub content: String,
}

#[derive(Debug)]
pub struct Event {
    pub id: String,
    pub pubkey: DevicePubkey,
    pub created_at: UnixSeconds,
    pub kind: u16,
    pub tags: Vec<Vec<String>>,
    pub content: String,
    pub sig: String,
}

impl View for UnsignedEvent {
    type V = EventBody;

    open spec fn view(&self) -> EventBody {
        EventBody {
            pubkey: self.pubkey,
            created_at: self.created_at,
            kind: self.kind,
            tags: tag_texts(self.tags@),
            content: self.content@,
        }
    }
}

/// A signed event: what it says, its identifier and its signature.
#[verifier::ext_equal]
pub struct SignedBody {
    pub body: EventBody,
    pub id: Seq<char>,
    pub sig: Seq<char>,
}

impl View for Event {
    type V = SignedBody;

    open spec fn view(&self) -> SignedBody {
        SignedBody {
            body: EventBody {
                pubkey: self.pubkey,
                created_at: self.created_at,
                kind: self.kind,
                tags: tag_texts(self.tags@),
                content: self.content@,
            },
            id: self.id@,
            sig: self.sig@,
        }
    }
}

pub proof fn lemma_tags_cloned(a: Seq<Vec<String>>, b: Seq<Vec<String>>)
    requires
        a.len() == b.len(),
        forall|i: int| 0 <= i < a.len() ==> cloned::<Vec<String>>(#[trigger] a[i], b[i]),
    ensures
        tag_texts(a) == tag_texts(b),
{
    assert forall|i: int| 0 <= i < a.len() implies texts(a[i]@) == #[trigger] texts(b[i]@) by {
        assert(cloned::<Vec<String>>(a[i], b[i]));
        assert(texts(a[i]@) =~= texts(b[i]@));
    }
    assert(tag_texts(a) =~= tag_texts(b));
}

/// The same tags once more.
pub fn copy_tags(tags: &Vec<Vec<String>>) -> (r: Vec<Vec<String>>)
    ensures
        tag_texts(r@) == tag_texts(tags@),
{
    let r: Vec<Vec<String>> = tags.clone();
    proof {
        lemma_tags_cloned(tags@, r@);
    }
    r
}

impl Clone for Event {
    fn clone(&self) -> (r: Self)
        ensures
            r@ == self@,
    {
        Event {
            id: self.id.clone(),
            pubkey: self.pubkey,
            created_at: self.created_at,
            kind: self.kind,
            tags: copy_tags(&self.tags),
            content: self.content.clone(),
            sig: self.sig.clone(),
        }
    }
}

/// A list of texts as JSON.
pub open spec fn texts_json(values: Seq<Seq<char>>) -> JsonValue {
    JsonValue::Array(Seq::new(values.len(), |i: int| JsonValue::Str(values[i])))
}

pub open spec fn tags_json(tags: Seq<Seq<Seq<char>>>) -> JsonValue {
    JsonValue::Array(Seq::new(tags.len(), |i: int| texts_json(tags[i])))
}

/// The list of texts that a JSON value is.
pub open spec fn texts_of_json(value: JsonValue) -> Option<Seq<Seq<char>>> {
    match value {
        JsonValue::Array(items) => if forall|i: int|
            0 <= i < items.len() ==> (#[trigger] items[i]) is Str {
            Some(Seq::new(items.len(), |i: int| items[i]->Str_0))
        } else {
            None
        },
        _ => None,
    }
}

/// The tags that a JSON value is.
pub open spec fn tags_of_json(value: JsonValue) -> Option<Seq<Seq<Seq<char>>>> {
    match value {
        JsonValue::Array(items) => if forall|i: int|
            0 <= i < items.len() ==> texts_of_json(#[trigger] items[i]) is Some {
            Some(Seq::new(items.len(), |i: int| texts_of_json(items[i])->Some_0))
        } else {
            None
        },
        _ => None,
    }
}

pub proof fn lemma_texts_round_trip(values: Seq<Seq<char>>)
    ensures
        texts_of_json(texts_json(values)) == Some(values),
{
    assert(texts_of_json(texts_json(values))->Some_0 =~= values);
}

/// Tags written as JSON are read back.
pub proof fn tags_round_trip(tags: Seq<Seq<Seq<char>>>)
    ensures
        tags_of_json(tags_json(tags)) == Some(tags),
{
    assert forall|i: int| 0 <= i < tags.len() implies texts_of_json(texts_json(tags[i])) == Some(
        #[trigger] tags[i],
    ) by {
        lemma_texts_round_trip(tags[i]);
    }
    assert(tags_of_json(tags_json(tags))->Some_0 =~= tags);
}

pub fn texts_to_json(values: &Vec<String>) -> (r: Json)
    ensures
        r@ == texts_json(texts(values@)),
{
    let mut items: Vec<Json> = Vec::new();
    let mut i: usize = 0;
    while i < values.len()
        invariant
            i <= values@.len(),
            item_values(items@).len() == i,
            forall|j: int|
                0 <= j < i ==> #[trigger] item_values(items@)[j] == JsonValue::Str(values@[j]@),
        decreases values@.len() - i,
    {
        push_item(&mut items, Json::Str(values[i].clone()));
        i = i + 1;
    }
    assert(item_values(items@) =~= Seq::new(
        values@.len(),
        |j: int| JsonValue::Str(texts(values@)[j]),
    ));
    Json::Array(items)
}

pub fn tags_to_json(tags: &Vec<Vec<String>>) -> (r: Json)
    ensures
        r@ == tags_json(tag_texts(tags@)),
{
    let mut items: Vec<Json> = Vec::new();
    let mut i: usize = 0;
    while i < tags.len()
        invariant
            i <= tags@.len(),
            item_values(items@).len() == i,
            forall|j: int|
                0 <= j < i ==> #[trigger] item_values(items@)[j] == texts_json(texts(tags@[j]@)),
        decreases tags@.len() - i,
    {
        push_item(&mut items, texts_to_json(&tags[i]));
        i = i + 1;
    }
    assert(item_values(items@) =~= Seq::new(
        tags@.len(),
        |j: int| texts_json(tag_texts(tags@)[j]),
    ));
    Json::Array(items)
}

pub fn texts_from_json(json: &Json) -> (r: Option<Vec<String>>)
    ensures
        r is Some == texts_of_json(json@) is Some,
        r matches Some(values) ==> texts_of_json(json@) == Some(texts(values@)),
{
    match json {
        Json::Array(items) => {
            proof {
                lemma_item_values(items@);
            }
            let ghost values = item_values(items@);
            let mut r: Vec<String> = Vec::new();
            let mut i: usize = 0;
            while i < items.len()
                invariant
                    i <= items@.len(),
                    values == item_values(items@),
                    json@ == JsonValue::Array(values),
                    values.len() == items@.len(),
                    forall|j: int| 0 <= j < items@.len() ==> #[trigger] values[j] == items@[j]@,
                    r@.len() == i,
                    forall|j: int|
                        0 <= j < i ==> #[trigger] values[j] == JsonValue::Str(r@[j]@),
                decreases items@.len() - i,
            {
                assert(values[i as int] == items@[i as int]@);
                match &items[i] {
                    Json::Str(text) => {
                        r.push(text.clone());
                    },
                    _ => {
                        return None;
                    },
                }
                i = i + 1;
            }
            assert(texts_of_json(json@)->Some_0 =~= texts(r@));
            Some(r)
        },
        _ => None,
    }
}

pub fn tags_from_json(json: &Json) -> (r: Option<Vec<Vec<String>>>)
    ensures
        r is Some == tags_of_json(json@) is Some,
        r matches Some(tags) ==> tags_of_json(json@) == Some(tag_texts(tags@)),
{
    match json {
        Json::Array(items) => {
            proof {
                lemma_item_values(items@);
            }
            let ghost values = item_values(items@);
            let mut r: Vec<Vec<String>> = Vec::new();
            let mut i: usize = 0;
            while i < items.len()
                invariant
                    i <= items@.len(),
                    values == item_values(items@),
                    json@ == JsonValue::Array(values),
                    values.len() == items@.len(),
                    forall|j: int| 0 <= j < items@.len() ==> #[trigger] values[j] == items@[j]@,
                    r@.len() == i,
                    forall|j: int|
                        0 <= j < i ==> texts_of_json(#[trigger] values[j]) == Some(texts(r@[j]@)),
                decreases items@.len() - i,
            {
                assert(values[i as int] == items@[i as int]@);
                match texts_from_json(&items[i]) {
                    Some(tag) => {
                        r.push(tag);
                    },
                    None => {
                        return None;
                    },
                }
                i = i + 1;
            }
            assert(tags_of_json(json@)->Some_0 =~= tag_texts(r@));
            Some(r)
        },
        _ => None,
    }
}

/// The list of which an event's identifier is the digest.
pub open spec fn canonical(
    pubkey: Seq<char>,
    created_at: u64,
    kind: u64,
    tags: Seq<Seq<Seq<char>>>,
    content: Seq<char>,
) -> JsonValue {
    JsonValue::Array(
        seq![
            JsonValue::Uint(0),
            JsonValue::Str(pubkey),
            JsonValue::Uint(created_at),
            JsonValue::Uint(kind),
            tags_json(tags),
            JsonValue::Str(content),
        ],
    )
}

/// The identifier of what an event says, in hexadecimal.
pub open spec fn event_id(
    pubkey: Seq<char>,
    created_at: u64,
    kind: u64,
    tags: Seq<Seq<Seq<char>>>,
    content: Seq<char>,
) -> Seq<char> {
    hex_text(
        sha256(encode_utf8(json_text(canonical(pubkey, created_at, kind, tags, content))))@,
    )
}

/// The identifier of an event.
pub open spec fn body_id(body: EventBody) -> Seq<char> {
    event_id(
        hex_text(body.pubkey.0@),
        body.created_at.0,
        body.kind as u64,
        body.tags,
        body.content,
    )
}

/// Computes the identifier of what an event says.
pub fn compute_event_id(
    pubkey: &str,
    created_at: u64,
    kind: u64,
    tags: &Vec<Vec<String>>,
    content: &str,
) -> (r: String)
    ensures
        r@ == event_id(pubkey@, created_at, kind, tag_texts(tags@), content@),
{
    let mut items: Vec<Json> = Vec::new();
    push_item(&mut items, Json::Uint(0));
    push_item(&mut items, Json::Str(pubkey.to_string()));
    push_item(&mut items, Json::Uint(created_at));
    push_item(&mut items, Json::Uint(kind));
    push_item(&mut items, tags_to_json(tags));
    push_item(&mut items, Json::Str(content.to_string()));
    assert(item_values(items@) =~= canonical(
        pubkey@,
        created_at,
        kind,
        tag_texts(tags@),
        content@,
    )->Array_0);
    let json = Json::Array(items);
    let text = print_json(&json);
    let digest = sha256_digest(text.as_str().as_bytes());
    hex_encode(&digest)
}

/// Whether an event's identifier and signature are right.
pub uninterp spec fn event_verifies(event: SignedBody) -> bool;

/// `nostr::UnsignedEvent::new` and `sign_with_keys`: the identifier is that of
/// what the event says, and where the signer is the author the event
/// verifies. A tag without any text is refused. The signature is made with
/// random numbers, so nothing more is stated of it, nor of the text of the
/// error.
#[verifier::external_body]
fn sign(secret: &[u8; 32], event: &UnsignedEvent) -> (r: Result<(String, String), String>)
    requires
        public_key_of(*secret) is Some,
    ensures
        r is Ok == (forall|i: int| 0 <= i < event@.tags.len() ==> (#[trigger] event@.tags[i]).len() > 0),
        r matches Ok((id, sig)) ==> id@ == body_id(event@) && (public_key_of(*secret) == Some(
            event.pubkey.0,
        ) ==> event_verifies(SignedBody { body: event@, id: id@, sig: sig@ })),
{
    let keys = nostr::Keys::new(nostr::SecretKey::from_slice(secret).map_err(|e| e.to_string())?);
    let tags = event.tags.iter().map(nostr::Tag::parse).collect::<Result<Vec<_>, _>>();
    let signed = nostr::UnsignedEvent::new(
        nostr::PublicKey::from_byte_array(event.pubkey.0),
        nostr::Timestamp::from(event.created_at.0),
        nostr::Kind::from(event.kind),
        tags.map_err(|e| e.to_string())?,
        event.content.as_str(),
    ).sign_with_keys(&keys).map_err(|e| e.to_string())?;
    Ok((signed.id.to_hex(), signed.sig.to_string()))
}

/// `nostr::Event::verify`, on the event put together from its parts: whether
/// the identifier is that of what the event says and the signature is the
/// author's. What is no identifier or no signature does not verify.
#[verifier::external_body]
fn verify(event: &Event) -> (r: bool)
    ensures
        r == event_verifies(event@),
{
    let id = nostr::EventId::from_hex(&event.id);
    let sig = event.sig.parse();
    let tags = event.tags.iter().map(nostr::Tag::parse).collect::<Result<Vec<_>, _>>();
    let pubkey = nostr::PublicKey::from_byte_array(event.pubkey.0);
    let time = nostr::Timestamp::from(event.created_at.0);
    let kind = nostr::Kind::from(event.kind);
    match (id, sig, tags) {
        (Ok(id), Ok(sig), Ok(tags)) =>
            nostr::Event::new(id, pubkey, time, kind, tags, &event.content, sig).verify().is_ok(),
        _ => false,
    }
}

impl UnsignedEvent {
    /// Signs an event. The signer need not be the author, but then the event
    /// does not verify.
    pub fn sign_with_secret(self, secret: &[u8; 32]) -> (r: Result<Event, Error>)
        ensures
            r matches Ok(event) ==> event@.body == self@ && event@.id == body_id(self@),
            r matches Ok(event) ==> public_key_of(*secret) == Some(self.pubkey.0)
                ==> event_verifies(event@),
            r is Ok == (public_key_of(*secret) is Some && forall|i: int|
                0 <= i < self@.tags.len() ==> (#[trigger] self@.tags[i]).len() > 0),
            r matches Err(e) ==> fault(e) == (if public_key_of(*secret) is None {
                Fault::NostrKey
            } else {
                Fault::InvalidEvent
            }),
    {
        match crate::crypto::check_secret_key(secret) {
            Ok(()) => {},
            Err(e) => {
                return Err(Error::NostrKey(e));
            },
        }
        match sign(secret, &self) {
            Ok((id, sig)) => Ok(
                Event {
                    id,
                    pubkey: self.pubkey,
                    created_at: self.created_at,
                    kind: self.kind,
                    tags: self.tags,
                    content: self.content,
                    sig,
                },
            ),
            Err(e) => Err(Error::Codec(CodecError::InvalidEvent(e))),
        }
    }
}

/// The second text of the first tag of a name.
pub open spec fn tag_value(tags: Seq<Seq<Seq<char>>>, name: Seq<char>) -> Option<Seq<char>>
    decreases tags.len(),
{
    if tags.len() == 0 {
        None
    } else if tags[0].len() > 0 && tags[0][0] == name {
        if tags[0].len() > 1 {
            Some(tags[0][1])
        } else {
            None
        }
    } else {
        tag_value(tags.drop_first(), name)
    }
}

proof fn lemma_tag_value(tags: Seq<Seq<Seq<char>>>, name: Seq<char>, n: int)
    requires
        0 <= n <= tags.len(),
        forall|j: int| 0 <= j < n ==> (#[trigger] tags[j]).len() == 0 || tags[j][0] != name,
    ensures
        tag_value(tags, name) == tag_value(tags.skip(n), name),
    decreases n,
{
    if n == 0 {
        assert(tags.skip(0) =~= tags);
    } else {
        let rest = tags.drop_first();
        assert(tags[0].len() == 0 || tags[0][0] != name);
        assert forall|j: int| 0 <= j < n - 1 implies (#[trigger] rest[j]).len() == 0 || rest[j][0]
            != name by {
            assert(tags[j + 1].len() == 0 || tags[j + 1][0] != name);
        }
        lemma_tag_value(rest, name, n - 1);
        assert(rest.skip(n - 1) =~= tags.skip(n));
    }
}

/// The second text of the first tag of a name, if there are both.
pub fn optional_tag_value(tags: &Vec<Vec<String>>, name: &str) -> (r: Option<String>)
    ensures
        r is Some == tag_value(tag_texts(tags@), name@) is Some,
        r matches Some(text) ==> tag_value(tag_texts(tags@), name@) == Some(text@),
{
    let ghost all = tag_texts(tags@);
    let mut i: usize = 0;
    while i < tags.len()
        invariant
            i <= tags@.len(),
            all == tag_texts(tags@),
            forall|j: int| 0 <= j < i ==> (#[trigger] all[j]).len() == 0 || all[j][0] != name@,
        decreases tags@.len() - i,
    {
        assert(all[i as int] == texts(tags@[i as int]@));
        if tags[i].len() > 0 && same_str(tags[i][0].as_str(), name) {
            proof {
                lemma_tag_value(all, name@, i as int);
                assert(all.skip(i as int)[0] == all[i as int]);
            }
            if tags[i].len() > 1 {
                return Some(tags[i][1].clone());
            }
            return None;
        }
        i = i + 1;
    }
    proof {
        lemma_tag_value(all, name@, i as int);
        assert(all.skip(i as int).len() == 0);
    }
    None
}

impl Event {
    /// Whether the identifier and the signature of an event are right.
    pub fn verifies(&self) -> (r: bool)
        ensures
            r == event_verifies(self@),
    {
        verify(self)
    }
}

/// Whether a tag mentions the author of its event.
pub open spec fn mentions(tag: Seq<Seq<char>>, author: Seq<char>) -> bool {
    tag.len() > 1 && tag[0] == "p"@ && tag[1] == author
}

/// Tags without those that mention the author.
pub open spec fn without_mentions(tags: Seq<Seq<Seq<char>>>, author: Seq<char>) -> Seq<
    Seq<Seq<char>>,
>
    decreases tags.len(),
{
    if tags.len() == 0 {
        Seq::empty()
    } else if mentions(tags.last(), author) {
        without_mentions(tags.drop_last(), author)
    } else {
        without_mentions(tags.drop_last(), author).push(tags.last())
    }
}

/// Leaves out the tags that mention the author.
pub fn drop_mentions(tags: Vec<Vec<String>>, author: &str) -> (r: Vec<Vec<String>>)
    ensures
        tag_texts(r@) == without_mentions(tag_texts(tags@), author@),
{
    let mut r: Vec<Vec<String>> = Vec::new();
    let ghost all = tag_texts(tags@);
    let mut i: usize = 0;
    assert(all.take(0) =~= Seq::empty());
    assert(tag_texts(r@) =~= Seq::empty());
    while i < tags.len()
        invariant
            i <= tags@.len(),
            all == tag_texts(tags@),
            tag_texts(r@) == without_mentions(all.take(i as int), author@),
        decreases tags@.len() - i,
    {
        let ghost before = tag_texts(r@);
        assert(all[i as int] == texts(tags@[i as int]@));
        assert(all.take(i + 1).drop_last() =~= all.take(i as int));
        assert(all.take(i + 1).last() == all[i as int]);
        if !(tags[i].len() > 1 && same_str(tags[i][0].as_str(), "p") && same_str(
            tags[i][1].as_str(),
            author,
        )) {
            r.push(copy_texts(&tags[i]));
            assert(tag_texts(r@) =~= before.push(all[i as int]));
        }
        i = i + 1;
    }
    assert(all.take(i as int) =~= all);
    r
}

/// The same texts once more.
pub fn copy_texts(values: &Vec<String>) -> (r: Vec<String>)
    ensures
        texts(r@) == texts(values@),
{
    let r = values.clone();
    assert(texts(r@) =~= texts(values@));
    r
}

/// Whether there is a tag of a name.
pub open spec fn has_tag(tags: Seq<Seq<Seq<char>>>, name: Seq<char>) -> bool {
    exists|i: int| 0 <= i < tags.len() && (#[trigger] tags[i]).len() > 0 && tags[i][0] == name
}

/// Whether there is a tag of a name.
pub fn contains_tag(tags: &Vec<Vec<String>>, name: &str) -> (r: bool)
    ensures
        r == has_tag(tag_texts(tags@), name@),
{
    let ghost all = tag_texts(tags@);
    let mut i: usize = 0;
    while i < tags.len()
        invariant
            i <= tags@.len(),
            all == tag_texts(tags@),
            forall|j: int| 0 <= j < i ==> (#[trigger] all[j]).len() == 0 || all[j][0] != name@,
        decreases tags@.len() - i,
    {
        assert(all[i as int] == texts(tags@[i as int]@));
        if tags[i].len() > 0 && same_str(tags[i][0].as_str(), name) {
            return true;
        }
        i = i + 1;
    }
    false
}

/// Whether each tag says something.
pub open spec fn tags_speak(tags: Seq<Seq<Seq<char>>>) -> bool {
    forall|i: int| 0 <= i < tags.len() ==> (#[trigger] tags[i]).len() > 0
}

/// The event that a JSON text holds: none where it holds none.
pub uninterp spec fn event_parsed(text: Seq<char>) -> Option<SignedBody>;

/// The JSON text of an event: none where its parts make no event.
pub uninterp spec fn event_printed(event: SignedBody) -> Option<Seq<char>>;

/// The JSON text of an event that is not signed yet.
pub uninterp spec fn unsigned_printed(event: EventBody) -> Seq<char>;

/// `serde_json::from_str` into a `nostr::Event`, taken apart. Neither the
/// identifier nor the signature is checked. The text of the error is not
/// stated.
#[verifier::external_body]
pub(crate) fn parse_event(text: &str) -> (r: Result<Event, String>)
    ensures
        r is Ok == event_parsed(text@) is Some,
        r matches Ok(event) ==> event_parsed(text@) == Some(event@),
{
    let event: nostr::Event = serde_json::from_str(text).map_err(|e| e.to_string())?;
    Ok(
        Event {
            id: event.id.to_hex(),
            pubkey: DevicePubkey(event.pubkey.to_bytes()),
            created_at: UnixSeconds(event.created_at.as_secs()),
            kind: event.kind.as_u16(),
            tags: event.tags.into_iter().map(|tag| tag.to_vec()).collect(),
            content: event.content,
            sig: event.sig.to_string(),
        },
    )
}

/// `serde_json::to_string` of a `nostr::Event` that is put together from its
/// parts. What is no identifier, no signature or no tag makes no event. The
/// text of the error is not stated.
#[verifier::external_body]
pub(crate) fn print_event(event: &Event) -> (r: Result<String, String>)
    ensures
        r is Ok == event_printed(event@) is Some,
        r matches Ok(text) ==> event_printed(event@) == Some(text@),
{
    let id = nostr::EventId::from_hex(&event.id).map_err(|e| e.to_string())?;
    let sig = event.sig.parse().map_err(|_| "malformed signature".to_string())?;
    let tags = event.tags.iter().map(nostr::Tag::parse).collect::<Result<Vec<_>, _>>();
    let tags = tags.map_err(|e| e.to_string())?;
    let pubkey = nostr::PublicKey::from_byte_array(event.pubkey.0);
    let time = nostr::Timestamp::from(event.created_at.0);
    let kind = nostr::Kind::from(event.kind);
    let whole = nostr::Event::new(id, pubkey, time, kind, tags, &event.content, sig);
    serde_json::to_string(&whole).map_err(|e| e.to_string())
}

/// `serde_json::to_string` of a `nostr::UnsignedEvent` without an identifier.
/// A tag without any text is refused. The text of the error is not stated.
#[verifier::external_body]
pub(crate) fn print_unsigned(event: &UnsignedEvent) -> (r: Result<String, String>)
    ensures
        r is Ok == tags_speak(event@.tags),
        r matches Ok(text) ==> text@ == unsigned_printed(event@),
{
    let tags = event.tags.iter().map(nostr::Tag::parse).collect::<Result<Vec<_>, _>>();
    let whole = nostr::UnsignedEvent::new(
        nostr::PublicKey::from_byte_array(event.pubkey.0),
        nostr::Timestamp::from(event.created_at.0),
        nostr::Kind::from(event.kind),
        tags.map_err(|e| e.to_string())?,
        event.content.as_str(),
    );
    serde_json::to_string(&whole).map_err(|e| e.to_string())
}

} // verus!
