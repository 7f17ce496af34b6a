use vstd::prelude::*;
use crate::protocol::{Key, Reply, key_named, settable};
use crate::text::{
    lower_of, lowercase, chars_of, split_words, same_text, parse_u8, words_of, u8_text,
};

verus! {

/// Type of session identifiers; 0 stands for "no session".
pub type SessionID = u32;

/// A request that a session forwards to the server.
#[allow(inconsistent_fields)]
#[derive(Clone, Debug, PartialEq, Eq)]
pub enum Message {
    Ping { id: SessionID },
    /// The key is taken as written; the server looks it up.
    GetVal { id: SessionID, key: Vec<char> },
    SetVal { id: SessionID, key: Key, val: u8 },
}

/// What a session does with a line it received.
#[derive(Clone, Debug, PartialEq, Eq)]
pub enum TextOutcome {
    /// Hand the request to the server.
    Forward(Message),
    /// Answer the sender directly; nothing reaches the server.
    Respond(Reply),
}

/// How a session with id `id` handles an already lower-cased line.
pub open spec fn line_outcome(id: SessionID, line: Seq<char>, r: TextOutcome) -> bool {
    let w = words_of(line);
    if w.len() == 3 && w[0] == "set"@ {
        match key_named(w[1]) {
            Some(k) => if !settable(k) {
                r == TextOutcome::Respond(Reply::UnknownKey)
            } else {
                match u8_text(w[2]) {
                    Some(v) => r == TextOutcome::Forward(Message::SetVal { id, key: k, val: v }),
                    None => r == TextOutcome::Respond(Reply::BadValue { key: k }),
                }
            },
            None => r == TextOutcome::Respond(Reply::UnknownKey),
        }
    } else if w.len() == 2 && w[0] == "get"@ {
        match r {
            TextOutcome::Forward(Message::GetVal { id: i, key }) => i == id && key@ == w[1],
            _ => false,
        }
    } else if w.len() == 1 && w[0] == "ping"@ {
        r == TextOutcome::Forward(Message::Ping { id })
    } else {
        r == TextOutcome::Respond(Reply::UnknownInput)
    }
}

/// Looks up a key by its name.
pub fn key_from_name(name: &Vec<char>) -> (r: Option<Key>)
    ensures
        r == key_named(name@),
{
    if same_text(name, "tracker") {
        Some(Key::Tracker)
    } else if same_text(name, "bpm") {
        Some(Key::Bpm)
    } else if same_text(name, "battery") {
        Some(Key::Battery)
    } else {
        None
    }
}

/// Handles a line that is already in lower case, for the session `id`.
pub fn parse_lowered(id: SessionID, line: &str) -> (r: TextOutcome)
    ensures
        line_outcome(id, line@, r),
{
    let chars = chars_of(line);
    let words = split_words(&chars);
    let ghost w = words_of(line@);
    assert(words@.len() == w.len());
    if words.len() == 3 && same_text(&words[0], "set") {
        assert(words@[0]@ == w[0] && words@[1]@ == w[1] && words@[2]@ == w[2]);
        match key_from_name(&words[1]) {
            Some(k) => {
                if !k.is_settable() {
                    TextOutcome::Respond(Reply::UnknownKey)
                } else {
                    match parse_u8(&words[2]) {
                        Some(v) => TextOutcome::Forward(Message::SetVal { id, key: k, val: v }),
                        None => TextOutcome::Respond(Reply::BadValue { key: k }),
                    }
                }
            },
            None => TextOutcome::Respond(Reply::UnknownKey),
        }
    } else if words.len() == 2 && same_text(&words[0], "get") {
        assert(words@[1]@ == w[1]);
        let key = words[1].clone();
        TextOutcome::Forward(Message::GetVal { id, key })
    } else if words.len() == 1 && same_text(&words[0], "ping") {
        TextOutcome::Forward(Message::Ping { id })
    } else {
        TextOutcome::Respond(Reply::UnknownInput)
    }
}

/// One connected client, as seen from its own connection.
pub struct HeartsockSession {
    id: SessionID,
}

impl HeartsockSession {
    pub fn new(id: SessionID) -> (r: HeartsockSession)
        ensures
            r.spec_id() == id,
    {
        HeartsockSession { id }
    }

    pub closed spec fn spec_id(&self) -> SessionID {
        self.id
    }

    pub fn id(&self) -> (r: SessionID)
        ensures
            r == self.spec_id(),
    {
        self.id
    }

    /// Handles a line of text received from the client: the line is read in
    /// lower case and split into words on white space.
    pub fn on_text(&self, text: &str) -> (r: TextOutcome)
        ensures
            line_outcome(self.spec_id(), lower_of(text@), r),
    {
        let lowered = lowercase(text);
        parse_lowered(self.id, lowered.as_str())
    }

    /// Binary frames are not part of the protocol.
    pub fn on_binary(&self, _bytes: &[u8]) -> (r: Reply)
        ensures
            r == Reply::BinaryUnsupported,
    {
        Reply::BinaryUnsupported
    }
}

} // verus!
