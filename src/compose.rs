//! The text of a new trigger, taken from the user's latest chat message.

use vstd::prelude::*;
use vstd::string::StringExecFns;

use crate::DiscordId;

verus! {

/// A chat message as the command surface sees it.
#[derive(Debug)]
pub struct ChatMessage {
    pub author_id: DiscordId,
    pub content: String,
    pub attachment_urls: Vec<String>,
}

/// One line per attachment URL, each after a line break.
pub open spec fn attachment_lines(urls: Seq<Seq<char>>) -> Seq<char>
    decreases urls.len(),
{
    if urls.len() == 0 {
        Seq::empty()
    } else {
        attachment_lines(urls.drop_last()) + seq!['\n'] + urls.last()
    }
}

/// The stored text: the content, then, when there are attachments, a line
/// break followed by their lines.
pub open spec fn trigger_text_of(content: Seq<char>, urls: Seq<Seq<char>>) -> Seq<char> {
    if urls.len() == 0 {
        content
    } else {
        content + seq!['\n'] + attachment_lines(urls)
    }
}

/// The views of some strings.
pub open spec fn views(v: Seq<String>) -> Seq<Seq<char>> {
    v.map_values(|s: String| s@)
}

/// The message a trigger is made from: the first one, newest first, that the
/// user wrote and that has text.
pub fn latest_own_message(history: &Vec<ChatMessage>, user_id: DiscordId) -> (r: Option<usize>)
    ensures
        match r {
            Some(i) => {
                &&& i < history@.len()
                &&& history@[i as int].author_id == user_id
                &&& history@[i as int].content@.len() > 0
                &&& forall|j: int| 0 <= j < i ==> !(history@[j].author_id == user_id && history@[j].content@.len() > 0)
            },
            None => forall|j: int| 0 <= j < history@.len() ==> !(history@[j].author_id == user_id && history@[j].content@.len() > 0),
        },
{
    let mut i: usize = 0;
    while i < history.len()
        invariant
            i <= history@.len(),
            forall|j: int| 0 <= j < i ==> !(history@[j].author_id == user_id && history@[j].content@.len() > 0),
        decreases history@.len() - i,
    {
        if history[i].author_id == user_id && !history[i].content.as_str().is_empty() {
            return Some(i);
        }
        i = i + 1;
    }
    None
}

/// The text stored for a trigger made from `message`.
pub fn trigger_text(message: &ChatMessage) -> (r: String)
    ensures
        r@ == trigger_text_of(message.content@, views(message.attachment_urls@)),
{
    let mut text = message.content.clone();
    let urls = &message.attachment_urls;
    if urls.len() == 0 {
        return text;
    }
    proof { reveal_strlit("\n"); }
    text.append("\n");
    let ghost head = text@;
    let mut i: usize = 0;
    while i < urls.len()
        invariant
            i <= urls@.len(),
            head == message.content@ + seq!['\n'],
            text@ == head + attachment_lines(views(urls@.subrange(0, i as int))),
        decreases urls@.len() - i,
    {
        proof {
            reveal_strlit("\n");
            let pre = views(urls@.subrange(0, i as int));
            let next = views(urls@.subrange(0, i + 1));
            assert(next.drop_last() =~= pre);
            assert(next.last() == urls@[i as int]@);
        }
        text.append("\n");
        text.append(urls[i].as_str());
        i = i + 1;
    }
    proof {
        assert(urls@.subrange(0, urls@.len() as int) =~= urls@);
        assert(text@ =~= trigger_text_of(message.content@, views(message.attachment_urls@)));
    }
    text
}

} // verus!
