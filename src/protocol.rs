use vstd::prelude::*;
use vstd::string::*;

verus! {

/// The tracked values: a fixed, closed set.
#[derive(Clone, Copy, Debug, PartialEq, Eq, Structural)]
pub enum Key {
    /// Derived flag: 1 while a tracker holds the claim, else 0.
    Tracker,
    Bpm,
    Battery,
}

/// The name of a key on the wire.
pub open spec fn key_name(k: Key) -> Seq<char> {
    match k {
        Key::Tracker => "tracker"@,
        Key::Bpm => "bpm"@,
        Key::Battery => "battery"@,
    }
}

/// The key with the given name, if any.
pub open spec fn key_named(name: Seq<char>) -> Option<Key> {
    if name == "tracker"@ {
        Some(Key::Tracker)
    } else if name == "bpm"@ {
        Some(Key::Bpm)
    } else if name == "battery"@ {
        Some(Key::Battery)
    } else {
        None
    }
}

/// Keys a tracker may write; `tracker` is read-only.
pub open spec fn settable(k: Key) -> bool {
    k != Key::Tracker
}

impl Key {
    pub fn name(&self) -> (r: &'static str)
        ensures
            r@ == key_name(*self),
    {
        match self {
            Key::Tracker => "tracker",
            Key::Bpm => "bpm",
            Key::Battery => "battery",
        }
    }

    pub fn is_settable(&self) -> (r: bool)
        ensures
            r == settable(*self),
    {
        match self {
            Key::Tracker => false,
            _ => true,
        }
    }
}

/// A line of text the server sends to one session.
#[derive(Clone, Copy, Debug, PartialEq, Eq, Structural)]
pub enum Reply {
    Pong,
    /// `<key>: <value>`, a stored value or a change of it.
    Value { key: Key, val: u8 },
    /// `ok`: a write was accepted.
    Acknowledged,
    TrackerConflict,
    UnknownInput,
    UnknownKey,
    /// The value of a `set` is not an unsigned 8-bit number.
    BadValue { key: Key },
    BinaryUnsupported,
}

/// The text of one decimal digit.
pub open spec fn digit_text(d: nat) -> Seq<char> {
    if d == 0 { "0"@ }
    else if d == 1 { "1"@ }
    else if d == 2 { "2"@ }
    else if d == 3 { "3"@ }
    else if d == 4 { "4"@ }
    else if d == 5 { "5"@ }
    else if d == 6 { "6"@ }
    else if d == 7 { "7"@ }
    else if d == 8 { "8"@ }
    else { "9"@ }
}

/// A number written in decimal, without leading zeros.
pub open spec fn decimal(v: nat) -> Seq<char>
    decreases v,
{
    if v < 10 {
        digit_text(v)
    } else {
        decimal(v / 10) + digit_text(v % 10)
    }
}

/// What the session reads for each reply.
pub open spec fn reply_text(r: Reply) -> Seq<char> {
    match r {
        Reply::Pong => "pong"@,
        Reply::Value { key, val } => key_name(key) + ": "@ + decimal(val as nat),
        Reply::Acknowledged => "ok"@,
        Reply::TrackerConflict => "error: a tracker is already connected"@,
        Reply::UnknownInput => "error: unknown input"@,
        Reply::UnknownKey => "error: unknown value key"@,
        Reply::BadValue { key } => "error: unknown input for "@ + key_name(key) + " value"@,
        Reply::BinaryUnsupported => "error: binary data unsupported"@,
    }
}

fn digit_str(d: u8) -> (r: &'static str)
    requires
        d < 10,
    ensures
        r@ == digit_text(d as nat),
{
    match d {
        0 => "0",
        1 => "1",
        2 => "2",
        3 => "3",
        4 => "4",
        5 => "5",
        6 => "6",
        7 => "7",
        8 => "8",
        _ => "9",
    }
}

/// Writes `v` in decimal.
pub fn render_u8(v: u8) -> (r: String)
    ensures
        r@ == decimal(v as nat),
{
    if v < 10 {
        String::from_str(digit_str(v))
    } else if v < 100 {
        let mut s = String::from_str(digit_str(v / 10));
        s.append(digit_str(v % 10));
        proof {
            assert(decimal((v / 10) as nat) == digit_text((v / 10) as nat));
        }
        s
    } else {
        let mut s = String::from_str(digit_str(v / 100));
        s.append(digit_str((v / 10) % 10));
        s.append(digit_str(v % 10));
        proof {
            let h = (v / 100) as nat;
            let t = (v / 10) as nat;
            assert(t / 10 == h);
            assert(decimal(h) == digit_text(h));
            assert(decimal(t) == decimal(h) + digit_text(t % 10));
        }
        s
    }
}

impl Reply {
    /// The line of text to deliver for this reply.
    pub fn text(&self) -> (r: String)
        ensures
            r@ == reply_text(*self),
    {
        match self {
            Reply::Pong => String::from_str("pong"),
            Reply::Value { key, val } => {
                let mut s = String::from_str(key.name());
                s.append(": ");
                let digits = render_u8(*val);
                s.append(digits.as_str());
                s
            },
            Reply::Acknowledged => String::from_str("ok"),
            Reply::TrackerConflict => String::from_str("error: a tracker is already connected"),
            Reply::UnknownInput => String::from_str("error: unknown input"),
            Reply::UnknownKey => String::from_str("error: unknown value key"),
            Reply::BadValue { key } => {
                let mut s = String::from_str("error: unknown input for ");
                s.append(key.name());
                s.append(" value");
                s
            },
            Reply::BinaryUnsupported => String::from_str("error: binary data unsupported"),
        }
    }
}

} // verus!
