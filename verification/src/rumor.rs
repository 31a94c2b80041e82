//! The messages that a session carries.
use vstd::prelude::*;
use crate::encoding::{hex_key, hex_text};
use crate::error::{fault, Error, Fault};
use crate::event::{
    compute_event_id, copy_tags, event_id, tag_texts, tags_from_json, tags_json, tags_of_json,
    tags_to_json, texts,
};
use crate::ids::{DevicePubkey, UnixMillis, UnixSeconds};
use crate::json::{
    as_record, each_once, field_absent, field_of, json_text, lemma_members, lemma_plain_deeper,
    maybe_member, parse_record, plain, print_json, push_field, record_parsed, strs, text_field,
    uint_field, Json, JsonValue,
};
use crate::text::{decimal, decimal_text};
use crate::types::{
    chance_fails, random_secret_key_bytes, ProtocolContext, CHAT_MESSAGE_KIND, REACTION_KIND, RECEIPT_KIND,
    TYPING_KIND,
};

verus! {

/// A message as an event without a signature.
#[derive(Debug)]
pub struct Rumor {
    pub id: Option<String>,
    pub pubkey: DevicePubkey,
    pub created_at: UnixSeconds,
    pub kind: u32,
    pub tags: Vec<Vec<String>>,
    pub content: String,
}

/// What a rumor says.
#[verifier::ext_equal]
pub struct RumorModel {
    pub id: Option<Seq<char>>,
    pub pubkey: DevicePubkey,
    pub created_at: UnixSeconds,
    pub kind: u32,
    pub tags: Seq<Seq<Seq<char>>>,
    pub content: Seq<char>,
}

impl View for Rumor {
    type V = RumorModel;

    open spec fn view(&self) -> RumorModel {
        RumorModel {
            id: text_of(self.id),
            pubkey: self.pubkey,
            created_at: self.created_at,
            kind: self.kind,
            tags: tag_texts(self.tags@),
            content: self.content@,
        }
    }
}

/// The text that an optional string holds.
pub open spec fn text_of(value: Option<String>) -> Option<Seq<char>> {
    match value {
        Some(text) => Some(text@),
        None => None,
    }
}

impl Clone for Rumor {
    fn clone(&self) -> (r: Self)
        ensures
            r@ == self@,
    {
        Rumor {
            id: self.id.clone(),
            pubkey: self.pubkey,
            created_at: self.created_at,
            kind: self.kind,
            tags: copy_tags(&self.tags),
            content: self.content.clone(),
        }
    }
}

#[derive(Debug)]
pub enum DirectMessageContent {
    Text(String),
    Reaction { message_id: String, emoji: String },
    Reply { reply_to: String, text: String },
    Receipt { receipt_type: String, message_ids: Vec<String> },
    Typing,
}

/// The identifier of what a rumor says.
pub open spec fn rumor_id(m: RumorModel) -> Seq<char> {
    event_id(hex_text(m.pubkey.0@), m.created_at.0, m.kind as u64, m.tags, m.content)
}

/// A rumor that carries its own identifier.
pub open spec fn identified(m: RumorModel) -> RumorModel {
    RumorModel { id: Some(rumor_id(m)), ..m }
}

/// A rumor that carries an identifier: its own, unless it came with one.
pub open spec fn ensured(m: RumorModel) -> RumorModel {
    if m.id is Some {
        m
    } else {
        identified(m)
    }
}

/// The tag that says at which millisecond a message was written.
pub open spec fn millis_tag(now: UnixMillis) -> Seq<Seq<char>> {
    seq!["ms"@, decimal(now.0 as nat)]
}

/// The tag that refers to a message.
pub open spec fn message_tag(id: Seq<char>) -> Seq<Seq<char>> {
    seq!["e"@, id]
}

/// The kind, tags and text of a message of a content.
pub open spec fn content_parts(content: DirectMessageContent, now: UnixMillis) -> (
    u32,
    Seq<Seq<Seq<char>>>,
    Seq<char>,
) {
    match content {
        DirectMessageContent::Text(text) => (1, seq![millis_tag(now)], text@),
        DirectMessageContent::Reaction { message_id, emoji } => (
            REACTION_KIND,
            seq![message_tag(message_id@), millis_tag(now)],
            emoji@,
        ),
        DirectMessageContent::Reply { reply_to, text } => (
            CHAT_MESSAGE_KIND,
            seq![message_tag(reply_to@), millis_tag(now)],
            text@,
        ),
        DirectMessageContent::Receipt { receipt_type, message_ids } => (
            RECEIPT_KIND,
            Seq::new(message_ids@.len(), |i: int| message_tag(message_ids@[i]@)).push(
                millis_tag(now),
            ),
            receipt_type@,
        ),
        DirectMessageContent::Typing => (TYPING_KIND, seq![millis_tag(now)], "typing"@),
    }
}

/// The message of a content.
pub open spec fn content_rumor(
    pubkey: DevicePubkey,
    now_secs: UnixSeconds,
    now_millis: UnixMillis,
    content: DirectMessageContent,
) -> RumorModel {
    let parts = content_parts(content, now_millis);
    identified(
        RumorModel {
            id: None,
            pubkey,
            created_at: now_secs,
            kind: parts.0,
            tags: parts.1,
            content: parts.2,
        },
    )
}

/// A rumor as a JSON object.
pub open spec fn rumor_json(m: RumorModel) -> JsonValue {
    JsonValue::Object(
        maybe_member("id"@, m.id) + seq![
            ("pubkey"@, JsonValue::Str(hex_text(m.pubkey.0@))),
            ("created_at"@, JsonValue::Uint(m.created_at.0)),
            ("kind"@, JsonValue::Uint(m.kind as u64)),
            ("tags"@, tags_json(m.tags)),
            ("content"@, JsonValue::Str(m.content)),
        ],
    )
}

/// The members of a rumor.
pub open spec fn rumor_names() -> Seq<Seq<char>> {
    seq!["id"@, "pubkey"@, "created_at"@, "kind"@, "tags"@, "content"@]
}

/// The rumor that a JSON value is: an object, or a list of the members.
pub open spec fn rumor_of_json(value: JsonValue) -> Option<RumorModel> {
    let value = as_record(value, rumor_names());
    let tags = match field_of(value, "tags"@) {
        Some(v) => tags_of_json(v),
        None => None,
    };
    let pubkey = match text_field(value, "pubkey"@) {
        Some(text) => hex_key(text),
        None => None,
    };
    let id_fits = field_absent(value, "id"@) || text_field(value, "id"@) is Some;
    match (
        pubkey,
        uint_field(value, "created_at"@),
        uint_field(value, "kind"@),
        tags,
        text_field(value, "content"@),
    ) {
        (Some(pubkey), Some(created_at), Some(kind), Some(tags), Some(content)) => if id_fits
            && kind <= u32::MAX {
            Some(
                RumorModel {
                    id: text_field(value, "id"@),
                    pubkey: DevicePubkey(pubkey),
                    created_at: UnixSeconds(created_at),
                    kind: kind as u32,
                    tags,
                    content,
                },
            )
        } else {
            None
        },
        _ => None,
    }
}

/// The rumor that a text is, under its own identifier, whatever one the text
/// gives.
pub open spec fn rumor_of(text: Seq<char>) -> Option<RumorModel> {
    match record_parsed(text) {
        Some(value) => match rumor_of_json(value) {
            Some(m) => Some(identified(m)),
            None => None,
        },
        None => None,
    }
}

proof fn lemma_rumor_names()
    ensures
        "id"@ != "pubkey"@ && "id"@ != "created_at"@ && "id"@ != "kind"@ && "id"@ != "tags"@
            && "id"@ != "content"@,
        "pubkey"@ != "created_at"@ && "pubkey"@ != "kind"@ && "pubkey"@ != "tags"@ && "pubkey"@
            != "content"@,
        "created_at"@ != "kind"@ && "created_at"@ != "tags"@ && "created_at"@ != "content"@,
        "kind"@ != "tags"@ && "kind"@ != "content"@,
        "tags"@ != "content"@,
{
    reveal_strlit("id");
    reveal_strlit("pubkey");
    reveal_strlit("created_at");
    reveal_strlit("kind");
    reveal_strlit("tags");
    reveal_strlit("content");
    assert("id"@.len() == 2);
    assert("pubkey"@.len() == 6);
    assert("created_at"@.len() == 10);
    assert("kind"@.len() == 4 && "kind"@[0] == 'k');
    assert("tags"@.len() == 4 && "tags"@[0] == 't');
    assert("content"@.len() == 7);
}

/// A rumor that was written down is read back.
pub proof fn rumor_round_trip(m: RumorModel)
    ensures
        rumor_of_json(rumor_json(m)) == Some(m),
{
    lemma_rumor_names();
    crate::encoding::hex_key_round_trip(m.pubkey.0);
    crate::event::tags_round_trip(m.tags);
    let fields = rumor_json(m)->Object_0;
    assert(each_once(fields));
    lemma_members(fields);
    let at: int = if m.id is Some {
        assert(fields[0].0 == "id"@);
        1
    } else {
        0
    };
    assert(fields[at].0 == "pubkey"@);
    assert(fields[at + 1].0 == "created_at"@);
    assert(fields[at + 2].0 == "kind"@);
    assert(fields[at + 3].0 == "tags"@);
    assert(fields[at + 4].0 == "content"@);
}

pub proof fn lemma_tags_plain(tags: Seq<Seq<Seq<char>>>)
    ensures
        plain(tags_json(tags), 2),
{
    reveal_with_fuel(plain, 3);
}

proof fn lemma_rumor_plain(m: RumorModel)
    ensures
        plain(rumor_json(m), 127),
{
    reveal_with_fuel(plain, 2);
    lemma_tags_plain(m.tags);
    lemma_plain_deeper(tags_json(m.tags), 2, 126);
}

pub(crate) fn pair_of(a: &str, b: &str) -> (r: Vec<String>)
    ensures
        texts(r@) == seq![a@, b@],
{
    let mut r: Vec<String> = Vec::new();
    r.push(a.to_string());
    r.push(b.to_string());
    assert(texts(r@) =~= seq![a@, b@]);
    r
}

impl Rumor {
    pub fn new(
        pubkey: DevicePubkey,
        created_at: UnixSeconds,
        kind: u32,
        tags: Vec<Vec<String>>,
        content: String,
    ) -> (r: Result<Self, Error>)
        ensures
            r matches Ok(rumor) && rumor@ == identified(
                (RumorModel {
                    id: None,
                    pubkey,
                    created_at,
                    kind,
                    tags: tag_texts(tags@),
                    content: content@,
                }),
            ),
    {
        let mut rumor = Rumor { id: None, pubkey, created_at, kind, tags, content };
        rumor.id = Some(rumor.compute_id());
        Ok(rumor)
    }

    /// The message of a content, written by the holder of a public key.
    pub fn of_content(
        pubkey: DevicePubkey,
        now_secs: UnixSeconds,
        now_millis: UnixMillis,
        content: DirectMessageContent,
    ) -> (r: Result<Self, Error>)
        ensures
            r matches Ok(rumor) && rumor@ == content_rumor(pubkey, now_secs, now_millis, content),
    {
        let millis = decimal_text(now_millis.0 as u128);
        let ms_tag: Vec<String> = pair_of("ms", millis.as_str());
        let mut tags: Vec<Vec<String>> = Vec::new();
        let ghost parts = content_parts(content, now_millis);
        match content {
            DirectMessageContent::Text(text) => {
                tags.push(ms_tag);
                assert(tag_texts(tags@) =~= parts.1);
                Rumor::new(pubkey, now_secs, 1, tags, text)
            },
            DirectMessageContent::Reaction { message_id, emoji } => {
                tags.push(pair_of("e", message_id.as_str()));
                tags.push(ms_tag);
                assert(tag_texts(tags@) =~= parts.1);
                Rumor::new(pubkey, now_secs, REACTION_KIND, tags, emoji)
            },
            DirectMessageContent::Reply { reply_to, text } => {
                tags.push(pair_of("e", reply_to.as_str()));
                tags.push(ms_tag);
                assert(tag_texts(tags@) =~= parts.1);
                Rumor::new(pubkey, now_secs, CHAT_MESSAGE_KIND, tags, text)
            },
            DirectMessageContent::Receipt { receipt_type, message_ids } => {
                let mut i: usize = 0;
                while i < message_ids.len()
                    invariant
                        i <= message_ids@.len(),
                        tags@.len() == i,
                        forall|j: int|
                            0 <= j < i ==> texts((#[trigger] tags@[j])@) == message_tag(
                                message_ids@[j]@,
                            ),
                    decreases message_ids@.len() - i,
                {
                    tags.push(pair_of("e", message_ids[i].as_str()));
                    i = i + 1;
                }
                tags.push(ms_tag);
                assert(tag_texts(tags@) =~= parts.1);
                Rumor::new(pubkey, now_secs, RECEIPT_KIND, tags, receipt_type)
            },
            DirectMessageContent::Typing => {
                tags.push(ms_tag);
                assert(tag_texts(tags@) =~= parts.1);
                Rumor::new(pubkey, now_secs, TYPING_KIND, tags, "typing".to_string())
            },
        }
    }

    /// The message of a content, written under a key that is used once. Which
    /// key is left to chance.
    pub fn from_content(ctx: &mut ProtocolContext<'_>, content: DirectMessageContent) -> (r: Result<
        Self,
        Error,
    >)
        ensures
            final(ctx).now_secs == old(ctx).now_secs,
            final(ctx).now_millis == old(ctx).now_millis,
            r matches Ok(rumor) ==> rumor@ == content_rumor(
                rumor.pubkey,
                old(ctx).now_secs,
                old(ctx).now_millis,
                content,
            ),
            r matches Err(e) ==> fault(e) == Fault::NostrKey && chance_fails(),
    {
        let secret: [u8; 32] = match random_secret_key_bytes(ctx.rng) {
            Ok(secret) => secret,
            Err(e) => {
                return Err(e);
            },
        };
        let pubkey = match DevicePubkey::from_secret_bytes(&secret) {
            Ok(key) => key,
            Err(e) => {
                return Err(e);
            },
        };
        Rumor::of_content(pubkey, ctx.now_secs, ctx.now_millis, content)
    }

    /// Reads a rumor. It gets its own identifier, whatever one the text gives.
    pub fn from_json(json: &str) -> (r: Result<Self, Error>)
        ensures
            r is Ok == rumor_of(json@) is Some,
            r matches Ok(rumor) ==> rumor_of(json@) == Some(rumor@),
            r matches Err(e) ==> fault(e) == Fault::Parse,
    {
        let names: [&str; 6] = ["id", "pubkey", "created_at", "kind", "tags", "content"];
        assert(strs(names@) =~= rumor_names());
        let value = match parse_record(json) {
            Ok(value) => value.into_record(&names),
            Err(e) => {
                return Err(Error::Parse(e));
            },
        };
        let pubkey = match value.text_field("pubkey") {
            None => {
                return Err(Error::Parse("missing field `pubkey`".to_string()));
            },
            Some(text) => match DevicePubkey::parse_hex(text.as_str()) {
                Ok(key) => key,
                Err(e) => {
                    return Err(Error::Parse(e));
                },
            },
        };
        let created_at: u64 = match value.uint_field("created_at") {
            Some(n) => n,
            None => {
                return Err(Error::Parse("missing field `created_at`".to_string()));
            },
        };
        let kind: u64 = match value.uint_field("kind") {
            Some(n) => n,
            None => {
                return Err(Error::Parse("missing field `kind`".to_string()));
            },
        };
        if kind > u32::MAX as u64 {
            return Err(Error::Parse("kind out of range".to_string()));
        }
        let tags = match value.field("tags") {
            None => {
                return Err(Error::Parse("missing field `tags`".to_string()));
            },
            Some(tags) => match tags_from_json(tags) {
                Some(tags) => tags,
                None => {
                    return Err(Error::Parse("tags are no lists of texts".to_string()));
                },
            },
        };
        let content = match value.text_field("content") {
            Some(text) => text.clone(),
            None => {
                return Err(Error::Parse("missing field `content`".to_string()));
            },
        };
        if !value.field_absent("id") && value.text_field("id").is_none() {
            return Err(Error::Parse("id is no text".to_string()));
        }
        Rumor::new(pubkey, UnixSeconds(created_at), kind as u32, tags, content)
    }

    /// Writes a rumor down.
    pub fn to_json(&self) -> (r: Result<String, Error>)
        ensures
            r matches Ok(text) && text@ == json_text(rumor_json(self@)) && rumor_of(text@) == Some(
                identified(self@),
            ),
    {
        let mut fields: Vec<(String, Json)> = Vec::new();
        if let Some(id) = &self.id {
            push_field(&mut fields, "id", Json::Str(id.clone()));
        }
        push_field(&mut fields, "pubkey", Json::Str(self.pubkey.to_hex()));
        push_field(&mut fields, "created_at", Json::Uint(self.created_at.0));
        push_field(&mut fields, "kind", Json::Uint(self.kind as u64));
        push_field(&mut fields, "tags", tags_to_json(&self.tags));
        push_field(&mut fields, "content", Json::Str(self.content.clone()));
        let json = Json::Object(fields);
        proof {
            assert(json@->Object_0 =~= rumor_json(self@)->Object_0);
            lemma_rumor_plain(self@);
            rumor_round_trip(self@);
        }
        Ok(print_json(&json))
    }

    /// Gives a rumor its identifier, unless it carries one.
    pub fn ensure_id(&mut self)
        ensures
            final(self)@ == ensured(old(self)@),
    {
        if self.id.is_none() {
            self.id = Some(self.compute_id());
        }
    }

    fn compute_id(&self) -> (r: String)
        ensures
            r@ == rumor_id(self@),
    {
        compute_event_id(
            self.pubkey.to_hex().as_str(),
            self.created_at.0,
            self.kind as u64,
            &self.tags,
            self.content.as_str(),
        )
    }
}

} // verus!
