//! What messages say, and what is kept of their tags.
use vstd::prelude::*;
use crate::event::without_mentions;
use crate::ids::{DevicePubkey, UnixMillis, UnixSeconds};
use crate::rumor::{content_rumor, ensured, identified, rumor_id, DirectMessageContent, RumorModel};
use crate::text::decimal;

verus! {

/// A message says what it was given, in the kind of its content, with the key
/// and the times that it was given, and refers to the messages that it is
/// about. It carries an identifier of its own.
pub proof fn messages_say_their_content(
    author: DevicePubkey,
    now: UnixSeconds,
    millis: UnixMillis,
    content: DirectMessageContent,
)
    ensures
        ({
            let m = content_rumor(author, now, millis, content);
            let last = m.tags.last();
            &&& m.pubkey == author
            &&& m.created_at == now
            &&& m.id == Some(rumor_id(m))
            &&& m.tags.len() > 0
            &&& last.len() == 2
            &&& last[0] == "ms"@
            &&& last[1] == decimal(millis.0 as nat)
            &&& content matches DirectMessageContent::Text(text) ==> m.kind == 1 && m.content
                == text@ && m.tags.len() == 1
            &&& content matches DirectMessageContent::Reaction { message_id, emoji } ==> m.kind == 7
                && m.content == emoji@ && m.tags.len() == 2 && m.tags[0] == seq![
                "e"@,
                message_id@,
            ]
            &&& content matches DirectMessageContent::Reply { reply_to, text } ==> m.kind == 14
                && m.content == text@ && m.tags.len() == 2 && m.tags[0] == seq!["e"@, reply_to@]
            &&& content matches DirectMessageContent::Receipt { receipt_type, message_ids }
                ==> m.kind == 15 && m.content == receipt_type@ && m.tags.len()
                == message_ids@.len() + 1 && forall|i: int|
                0 <= i < message_ids@.len() ==> #[trigger] m.tags[i] == seq![
                    "e"@,
                    message_ids@[i]@,
                ]
            &&& content is Typing ==> m.kind == 25 && m.content == "typing"@ && m.tags.len() == 1
        }),
{
}

/// The identifier of a message depends on what it says, not on the one that it
/// has. One that has none gets its own; one that has one keeps it. Nothing else
/// changes.
pub proof fn messages_get_one_identifier(m: RumorModel, other: Option<Seq<char>>)
    ensures
        rumor_id((RumorModel { id: other, ..m })) == rumor_id(m),
        identified(m).id == Some(rumor_id(m)),
        ensured(m).id == (match m.id {
            Some(id) => Some(id),
            None => Some(rumor_id(m)),
        }),
        ensured(ensured(m)) == ensured(m),
        ({
            let e = ensured(m);
            let i = identified(m);
            &&& e.pubkey == m.pubkey && i.pubkey == m.pubkey
            &&& e.created_at == m.created_at && i.created_at == m.created_at
            &&& e.kind == m.kind && i.kind == m.kind
            &&& e.tags == m.tags && i.tags == m.tags
            &&& e.content == m.content && i.content == m.content
        }),
{
}

/// Of the tags of an event those are left out that mention its author, and just
/// those.
pub proof fn only_mentions_of_the_author_are_left_out(
    tags: Seq<Seq<Seq<char>>>,
    author: Seq<char>,
    tag: Seq<Seq<char>>,
)
    ensures
        without_mentions(tags, author).contains(tag) <==> tags.contains(tag) && !(tag.len() > 1
            && tag[0] == "p"@ && tag[1] == author),
        without_mentions(tags, author).len() <= tags.len(),
        (forall|i: int|
            0 <= i < tags.len() ==> !((#[trigger] tags[i]).len() > 1 && tags[i][0] == "p"@
                && tags[i][1] == author)) ==> without_mentions(tags, author) == tags,
    decreases tags.len(),
{
    if tags.len() > 0 {
        let fewer = tags.drop_last();
        only_mentions_of_the_author_are_left_out(fewer, author, tag);
        let rest = without_mentions(fewer, author);
        let all = without_mentions(tags, author);
        if tags.contains(tag) {
            let i = choose|i: int| 0 <= i < tags.len() && tags[i] == tag;
            if i < fewer.len() {
                assert(fewer[i] == tag);
            }
        }
        if fewer.contains(tag) {
            let i = choose|i: int| 0 <= i < fewer.len() && fewer[i] == tag;
            assert(tags[i] == tag);
        }
        assert(tags.contains(tags.last())) by {
            assert(tags[tags.len() - 1] == tags.last());
        }
        if all.contains(tag) {
            let k = choose|k: int| 0 <= k < all.len() && all[k] == tag;
            if k < rest.len() {
                assert(rest[k] == tag);
            }
        }
        if rest.contains(tag) {
            let k = choose|k: int| 0 <= k < rest.len() && rest[k] == tag;
            assert(all[k] == tag);
        }
        if !crate::event::mentions(tags.last(), author) {
            assert(all[all.len() - 1] == tags.last());
        }
        if forall|i: int|
            0 <= i < tags.len() ==> !((#[trigger] tags[i]).len() > 1 && tags[i][0] == "p"@
                && tags[i][1] == author) {
            assert forall|i: int| 0 <= i < fewer.len() implies !((#[trigger] fewer[i]).len() > 1
                && fewer[i][0] == "p"@ && fewer[i][1] == author) by {
                assert(fewer[i] == tags[i]);
            }
            assert(tags[tags.len() - 1] == tags.last());
            assert(all =~= tags);
        }
    } else {
        assert(without_mentions(tags, author) =~= tags);
    }
}

} // verus!
