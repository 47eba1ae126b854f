//! Conversations and their messages, and what a sent message becomes before
//! it reaches the model.
use vstd::prelude::*;

use crate::inference::{InferenceEngine, OllamaMessage};
use crate::text::{chars_of, trim, trim_string};

verus! {

/// A stored chat message.
pub struct Message {
    pub id: String,
    pub role: String,
    pub content: String,
    pub timestamp: i64,
}

/// A conversation, with its messages when they were asked for.
pub struct Conversation {
    pub id: String,
    pub title: String,
    pub created_at: i64,
    pub updated_at: i64,
    pub model_id: String,
    pub messages: Vec<Message>,
}

/// A message the user sends to a conversation.
pub struct SendMessageRequest {
    pub conversation_id: String,
    pub content: String,
    pub model_id: Option<String>,
}

/// The error for a message with nothing but white space.
pub open spec fn empty_message_error() -> Seq<char> {
    "Message content is empty."@
}

/// What is sent of a message: its content without surrounding white space;
/// refused when nothing is left.
pub fn prepare_message_content(content: &str) -> (r: Result<String, String>)
    ensures
        trim(content@).len() == 0 ==> (r matches Err(e) && e@ == empty_message_error()),
        trim(content@).len() > 0 ==> (r matches Ok(s) && s@ == trim(content@)),
{
    let t = trim_string(content);
    let tv = chars_of(t.as_str());
    if tv.len() == 0 {
        Err(String::from_str("Message content is empty."))
    } else {
        Ok(t)
    }
}

/// What becomes of a streamed reply once the stream has ended (the done
/// event is sent before, whatever the outcome): the assistant's reply to
/// store, which is the reply when the stream succeeded and the reply is not
/// empty; and the command's result, the stream's error passed on.
pub fn finish_reply(streamed: Result<String, String>) -> (r: (Option<String>, Result<(), String>))
    ensures
        match streamed {
            Ok(s) => (s@.len() > 0 ==> (r.0 matches Some(t) && t@ == s@)) && (s@.len() == 0 ==> r.0 is None)
                && r.1 is Ok,
            Err(e) => r.0 is None && (r.1 matches Err(f) && f@ == e@),
        },
{
    match streamed {
        Ok(s) => {
            let sv = chars_of(s.as_str());
            if sv.len() > 0 {
                (Some(s), Ok(()))
            } else {
                (None, Ok(()))
            }
        },
        Err(e) => (None, Err(e)),
    }
}

/// The conversation's history as the model reads it: each message's role
/// and content, in order.
pub fn history_to_ollama(messages: &Vec<Message>) -> (r: Vec<OllamaMessage>)
    ensures
        r.len() == messages.len(),
        forall|k: int|
            0 <= k < r.len() ==> #[trigger] r@[k].role@ == messages@[k].role@ && r@[k].content@
                == messages@[k].content@,
{
    let mut r: Vec<OllamaMessage> = Vec::new();
    let mut i: usize = 0;
    while i < messages.len()
        invariant
            i <= messages.len(),
            r.len() == i,
            forall|k: int|
                0 <= k < i ==> #[trigger] r@[k].role@ == messages@[k].role@ && r@[k].content@
                    == messages@[k].content@,
        decreases messages.len() - i,
    {
        let m = &messages[i];
        r.push(OllamaMessage { role: m.role.clone(), content: m.content.clone() });
        i = i + 1;
    }
    r
}

/// The title a new conversation gets: the one asked for, or `New Chat` when
/// it is only white space.
pub fn conversation_title(title: String) -> (r: String)
    ensures
        trim(title@).len() == 0 ==> r@ == "New Chat"@,
        trim(title@).len() > 0 ==> r@ == title@,
{
    let t = trim_string(title.as_str());
    let tv = chars_of(t.as_str());
    if tv.len() == 0 {
        String::from_str("New Chat")
    } else {
        title
    }
}

/// Asks the reply being generated to stop.
pub fn stop_generation(engine: &InferenceEngine) -> (r: Result<(), String>)
    ensures
        r is Ok,
{
    engine.stop();
    Ok(())
}

} // verus!
