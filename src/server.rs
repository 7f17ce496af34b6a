use vstd::prelude::*;
use crate::protocol::{Key, Reply, key_named, settable};
use crate::session::{Message, SessionID};
use crate::store::ValueStore;

verus! {

broadcast use vstd::seq_lib::group_filter_ensures;

/// A reply addressed to one session.
#[derive(Clone, Copy, Debug, PartialEq, Eq, Structural)]
pub struct Outbound {
    pub to: SessionID,
    pub reply: Reply,
}

/// Why the server could not act on an event.
#[derive(Clone, Copy, Debug, PartialEq, Eq, Structural)]
pub enum ServerError {
    /// No connected session has this id.
    UnknownSession,
}

/// The state of the server as a mathematical value.
pub struct ServerView {
    /// Connected sessions, in the order in which they connected.
    pub sessions: Seq<SessionID>,
    /// The last id handed out; 0 before the first connect.
    pub latest_id: SessionID,
    /// The session that holds the tracker claim, or 0.
    pub tracker_id: SessionID,
    pub tracker: u8,
    pub bpm: u8,
    pub battery: u8,
}

pub open spec fn value_of(v: ServerView, k: Key) -> u8 {
    match k {
        Key::Tracker => v.tracker,
        Key::Bpm => v.bpm,
        Key::Battery => v.battery,
    }
}

pub open spec fn with_value(v: ServerView, k: Key, val: u8) -> ServerView {
    match k {
        Key::Tracker => ServerView { tracker: val, ..v },
        Key::Bpm => ServerView { bpm: val, ..v },
        Key::Battery => ServerView { battery: val, ..v },
    }
}

pub open spec fn increasing(s: Seq<SessionID>) -> bool {
    forall|i: int, j: int| 0 <= i < j < s.len() ==> s[i] < s[j]
}

/// Every id of `s` is one that was handed out by the time `latest` was.
pub open spec fn issued(s: Seq<SessionID>, latest: SessionID) -> bool {
    forall|i: int| 0 <= i < s.len() ==> 0 < #[trigger] s[i] <= latest
}

/// The state invariant: ids are handed out in increasing order and never
/// reused, the tracker is 0 or a connected session, and the `tracker` value
/// says whether a tracker holds the claim.
pub open spec fn valid(v: ServerView) -> bool {
    &&& increasing(v.sessions)
    &&& issued(v.sessions, v.latest_id)
    &&& (v.tracker_id == 0 || v.sessions.contains(v.tracker_id))
    &&& v.tracker == (if v.tracker_id == 0 { 0u8 } else { 1u8 })
}

/// The sessions of `ids` other than `skip`, in order.
pub open spec fn others(ids: Seq<SessionID>, skip: SessionID) -> Seq<SessionID> {
    ids.filter(|i: SessionID| i != skip)
}

/// `<key>: <val>` to every session of `ids` but `skip`, in order.
pub open spec fn notify(ids: Seq<SessionID>, skip: SessionID, key: Key, val: u8) -> Seq<Outbound> {
    others(ids, skip).map_values(|i: SessionID| Outbound { to: i, reply: Reply::Value { key, val } })
}

/// The current value of every key, sent to `id`.
pub open spec fn snapshot(v: ServerView, id: SessionID) -> Seq<Outbound> {
    seq![
        Outbound { to: id, reply: Reply::Value { key: Key::Tracker, val: v.tracker } },
        Outbound { to: id, reply: Reply::Value { key: Key::Bpm, val: v.bpm } },
        Outbound { to: id, reply: Reply::Value { key: Key::Battery, val: v.battery } },
    ]
}

/// The state after a new session connects.
pub open spec fn after_connect(v: ServerView) -> ServerView {
    let id = (v.latest_id + 1) as SessionID;
    ServerView { sessions: v.sessions.push(id), latest_id: id, ..v }
}

/// The state after session `id` disconnects: it leaves the registry, and if it
/// held the tracker claim the claim and the `tracker` value return to 0.
pub open spec fn after_disconnect(v: ServerView, id: SessionID) -> ServerView {
    let sessions = others(v.sessions, id);
    if id == v.tracker_id {
        ServerView { sessions, tracker_id: 0, tracker: 0, ..v }
    } else {
        ServerView { sessions, ..v }
    }
}

/// What a disconnect sends: `tracker: 0` to every remaining session when the
/// tracker left, else nothing.
pub open spec fn disconnect_out(v: ServerView, id: SessionID) -> Seq<Outbound> {
    if id == v.tracker_id {
        notify(others(v.sessions, id), 0, Key::Tracker, 0)
    } else {
        seq![]
    }
}

/// The session that sent a request.
pub open spec fn caller(m: Message) -> SessionID {
    match m {
        Message::Ping { id } => id,
        Message::GetVal { id, .. } => id,
        Message::SetVal { id, .. } => id,
    }
}

/// `v` with `id` holding the tracker claim.
pub open spec fn claimed(v: ServerView, id: SessionID) -> ServerView {
    ServerView { tracker_id: id, tracker: 1, ..v }
}

/// What a write by the tracker `id` sends: the change to every other session
/// if the value changed, then `ok` to the writer.
pub open spec fn write_out(v: ServerView, id: SessionID, key: Key, val: u8) -> Seq<Outbound> {
    let changes = if value_of(v, key) != val {
        notify(v.sessions, v.tracker_id, key, val)
    } else {
        seq![]
    };
    changes.push(Outbound { to: id, reply: Reply::Acknowledged })
}

/// The state after a request from a connected session.
pub open spec fn after_call(v: ServerView, m: Message) -> ServerView {
    match m {
        Message::SetVal { id, key, val } => if !settable(key) {
            v
        } else if v.tracker_id == 0 {
            with_value(claimed(v, id), key, val)
        } else if v.tracker_id == id {
            with_value(v, key, val)
        } else {
            v
        },
        _ => v,
    }
}

/// What a request from a connected session sends, in order.
pub open spec fn call_out(v: ServerView, m: Message) -> Seq<Outbound> {
    match m {
        Message::Ping { id } => seq![Outbound { to: id, reply: Reply::Pong }],
        Message::GetVal { id, key } => match key_named(key@) {
            Some(k) => seq![Outbound { to: id, reply: Reply::Value { key: k, val: value_of(v, k) } }],
            None => seq![Outbound { to: id, reply: Reply::UnknownKey }],
        },
        Message::SetVal { id, key, val } => if !settable(key) {
            seq![Outbound { to: id, reply: Reply::UnknownKey }]
        } else if v.tracker_id == 0 {
            notify(v.sessions, id, Key::Tracker, 1) + write_out(claimed(v, id), id, key, val)
        } else if v.tracker_id == id {
            write_out(v, id, key, val)
        } else {
            seq![Outbound { to: id, reply: Reply::TrackerConflict }]
        },
    }
}

/// How a disconnect of `id` from `pre` ended: an unknown id changes nothing.
pub open spec fn disconnect_done(
    pre: ServerView,
    id: SessionID,
    post: ServerView,
    r: Result<Vec<Outbound>, ServerError>,
) -> bool {
    match r {
        Ok(out) => pre.sessions.contains(id) && post == after_disconnect(pre, id)
            && out@ == disconnect_out(pre, id),
        Err(e) => !pre.sessions.contains(id) && e == ServerError::UnknownSession && post == pre,
    }
}

/// How a request `m` to `pre` ended: one from an unknown session changes
/// nothing.
pub open spec fn call_done(
    pre: ServerView,
    m: Message,
    post: ServerView,
    r: Result<Vec<Outbound>, ServerError>,
) -> bool {
    match r {
        Ok(out) => pre.sessions.contains(caller(m)) && post == after_call(pre, m)
            && out@ == call_out(pre, m),
        Err(e) => !pre.sessions.contains(caller(m)) && e == ServerError::UnknownSession
            && post == pre,
    }
}

/// The server: the registry of sessions, the tracker claim and the values.
pub struct HeartsockServer {
    sessions: Vec<SessionID>,
    latest_id: SessionID,
    tracker_id: SessionID,
    values: ValueStore,
}

impl HeartsockServer {
    pub closed spec fn view(&self) -> ServerView {
        ServerView {
            sessions: self.sessions@,
            latest_id: self.latest_id,
            tracker_id: self.tracker_id,
            tracker: self.values.value(Key::Tracker),
            bpm: self.values.value(Key::Bpm),
            battery: self.values.value(Key::Battery),
        }
    }

    pub open spec fn wf(&self) -> bool {
        valid(self.view())
    }

    /// A server with no sessions, no tracker and every value at 0.
    pub fn new() -> (r: HeartsockServer)
        ensures
            r.wf(),
            r.view().sessions.len() == 0,
            r.view().latest_id == 0,
            r.view().tracker_id == 0,
            r.view().tracker == 0 && r.view().bpm == 0 && r.view().battery == 0,
    {
        HeartsockServer {
            sessions: Vec::new(),
            latest_id: 0,
            tracker_id: 0,
            values: ValueStore::new(),
        }
    }

    /// The last id handed out.
    pub fn latest_id(&self) -> (r: SessionID)
        ensures
            r == self.view().latest_id,
    {
        self.latest_id
    }

    /// The session that holds the tracker claim, or 0.
    pub fn tracker_id(&self) -> (r: SessionID)
        ensures
            r == self.view().tracker_id,
    {
        self.tracker_id
    }

    pub fn get_val(&self, key: Key) -> (r: u8)
        ensures
            r == value_of(self.view(), key),
    {
        self.values.get(key)
    }

    /// Appends `<key>: <val>` for every session but the tracker.
    pub fn notify_sessions(&self, key: Key, val: u8, out: &mut Vec<Outbound>)
        ensures
            final(out)@ == old(out)@ + notify(self.view().sessions, self.view().tracker_id, key, val),
    {
        let ghost ids = self.sessions@;
        let ghost skip = self.tracker_id;
        let ghost start = out@;
        let mut i: usize = 0;
        while i < self.sessions.len()
            invariant
                ids == self.sessions@,
                skip == self.tracker_id,
                i <= ids.len(),
                out@ == start + notify(ids.take(i as int), skip, key, val),
            decreases ids.len() - i,
        {
            let id = self.sessions[i];
            proof {
                reveal(Seq::filter);
                assert(ids.take(i + 1).drop_last() =~= ids.take(i as int));
            }
            if id != self.tracker_id {
                out.push(Outbound { to: id, reply: Reply::Value { key, val } });
                assert(notify(ids.take(i + 1), skip, key, val) =~= notify(ids.take(i as int), skip, key, val).push(Outbound { to: id, reply: Reply::Value { key, val } }));
            } else {
                assert(notify(ids.take(i + 1), skip, key, val) =~= notify(ids.take(i as int), skip, key, val));
            }
            i = i + 1;
        }
        assert(ids.take(ids.len() as int) =~= ids);
    }

    /// Registers a new session under a fresh id and returns the id with the
    /// current value of every key, addressed to it.
    pub fn on_connect(&mut self) -> (r: (SessionID, Vec<Outbound>))
        requires
            old(self).wf(),
            old(self).view().latest_id < SessionID::MAX,
        ensures
            final(self).wf(),
            r.0 == old(self).view().latest_id + 1,
            final(self).view() == after_connect(old(self).view()),
            r.1@ == snapshot(old(self).view(), r.0),
    {
        self.latest_id = self.latest_id + 1;
        let id = self.latest_id;
        self.sessions.push(id);
        let mut out: Vec<Outbound> = Vec::new();
        out.push(Outbound { to: id, reply: Reply::Value { key: Key::Tracker, val: self.values.get(Key::Tracker) } });
        out.push(Outbound { to: id, reply: Reply::Value { key: Key::Bpm, val: self.values.get(Key::Bpm) } });
        out.push(Outbound { to: id, reply: Reply::Value { key: Key::Battery, val: self.values.get(Key::Battery) } });
        proof {
            let v = self.view();
            assert(v.sessions.last() == id);
            assert forall|i: int| 0 <= i < v.sessions.len() implies 0 < #[trigger] v.sessions[i] <= v.latest_id by {
                if i < v.sessions.len() - 1 {
                    assert(v.sessions[i] == old(self).view().sessions[i]);
                }
            }
            if self.tracker_id != 0 {
                assert(old(self).view().sessions.contains(self.tracker_id));
                let k = choose|k: int| 0 <= k < old(self).view().sessions.len() && old(self).view().sessions[k] == self.tracker_id;
                assert(v.sessions[k] == self.tracker_id);
            }
            assert(v == after_connect(old(self).view()));
            assert(out@ =~= snapshot(old(self).view(), id));
        }
        (id, out)
    }
    /// Finds where session `id` stands in the registry.
    pub fn get_session(&self, id: SessionID) -> (r: Result<usize, ServerError>)
        ensures
            match r {
                Ok(i) => i < self.view().sessions.len() && self.view().sessions[i as int] == id,
                Err(e) => !self.view().sessions.contains(id) && e == ServerError::UnknownSession,
            },
    {
        let mut i: usize = 0;
        while i < self.sessions.len()
            invariant
                i <= self.sessions@.len(),
                forall|j: int| 0 <= j < i ==> self.sessions@[j] != id,
            decreases self.sessions@.len() - i,
        {
            if self.sessions[i] == id {
                return Ok(i);
            }
            i = i + 1;
        }
        Err(ServerError::UnknownSession)
    }

    /// Stores a value and, if it changed, tells every session but the
    /// tracker; returns the value it had before.
    fn set_val(&mut self, key: Key, val: u8, out: &mut Vec<Outbound>) -> (r: u8)
        ensures
            r == value_of(old(self).view(), key),
            final(self).view() == with_value(old(self).view(), key, val),
            final(out)@ == old(out)@ + (if r != val {
                notify(old(self).view().sessions, old(self).view().tracker_id, key, val)
            } else {
                seq![]
            }),
    {
        let prev = self.values.set(key, val);
        if prev != val {
            self.notify_sessions(key, val, out);
        } else {
            assert(out@ =~= out@ + Seq::<Outbound>::empty());
        }
        proof {
            let a = self.view();
            let b = with_value(old(self).view(), key, val);
            match key {
                Key::Tracker => {},
                Key::Bpm => {},
                Key::Battery => {},
            }
            assert(a == b);
        }
        prev
    }

    /// Removes session `id` from the registry, keeping the order of the rest.
    fn remove_session(&mut self, id: SessionID)
        requires
            valid(old(self).view()),
        ensures
            final(self).view() == (ServerView { sessions: others(old(self).view().sessions, id), ..old(self).view() }),
            increasing(final(self).view().sessions),
            issued(final(self).view().sessions, old(self).view().latest_id),
    {
        let ghost ids = self.sessions@;
        let ghost latest = self.latest_id;
        let mut kept: Vec<SessionID> = Vec::new();
        let mut i: usize = 0;
        while i < self.sessions.len()
            invariant
                ids == self.sessions@,
                latest == self.latest_id,
                valid(self.view()),
                i <= ids.len(),
                kept@ == others(ids.take(i as int), id),
                increasing(kept@),
                issued(kept@, latest),
                forall|a: int, j: int| 0 <= a < kept@.len() && i <= j < ids.len() ==> kept@[a] < ids[j],
            decreases ids.len() - i,
        {
            let s = self.sessions[i];
            proof {
                reveal(Seq::filter);
                assert(ids.take(i + 1).drop_last() =~= ids.take(i as int));
            }
            if s != id {
                kept.push(s);
                assert(others(ids.take(i + 1), id) =~= others(ids.take(i as int), id).push(s));
            } else {
                assert(others(ids.take(i + 1), id) =~= others(ids.take(i as int), id));
            }
            i = i + 1;
        }
        assert(ids.take(ids.len() as int) =~= ids);
        self.sessions = kept;
    }

    /// Removes a disconnected session. If it held the tracker claim, the claim
    /// is released and every remaining session is told `tracker: 0`.
    pub fn on_disconnect(&mut self, id: SessionID) -> (r: Result<Vec<Outbound>, ServerError>)
        requires
            old(self).wf(),
        ensures
            final(self).wf(),
            disconnect_done(old(self).view(), id, final(self).view(), r),
    {
        match self.get_session(id) {
            Err(e) => Err(e),
            Ok(_) => {
                let ghost pre = self.view();
                self.remove_session(id);
                let mut out: Vec<Outbound> = Vec::new();
                if id == self.tracker_id {
                    self.tracker_id = 0;
                    self.set_val(Key::Tracker, 0, &mut out);
                    assert(out@ =~= disconnect_out(pre, id));
                } else {
                    assert(out@ =~= disconnect_out(pre, id));
                }
                proof {
                    let v = self.view();
                    if v.tracker_id != 0 {
                        let k = choose|k: int| 0 <= k < pre.sessions.len() && pre.sessions[k] == v.tracker_id;
                        assert(v.sessions.contains(pre.sessions[k]));
                    }
                    assert(v == after_disconnect(pre, id));
                }
                Ok(out)
            },
        }
    }
    /// Acts on a request from a session: answers `ping` and `get`, and applies
    /// `set` under the tracker claim. The first `set` while no tracker holds
    /// the claim takes it; a `set` from anyone else is refused.
    pub fn on_call(&mut self, call: Message) -> (r: Result<Vec<Outbound>, ServerError>)
        requires
            old(self).wf(),
        ensures
            final(self).wf(),
            call_done(old(self).view(), call, final(self).view(), r),
    {
        let ghost pre = self.view();
        let ghost m = call;
        let mut out: Vec<Outbound> = Vec::new();
        match call {
            Message::Ping { id } => {
                self.get_session(id)?;
                out.push(Outbound { to: id, reply: Reply::Pong });
                assert(out@ =~= call_out(pre, m));
            },
            Message::GetVal { id, key } => {
                self.get_session(id)?;
                match crate::session::key_from_name(&key) {
                    Some(k) => {
                        let val = self.get_val(k);
                        out.push(Outbound { to: id, reply: Reply::Value { key: k, val } });
                    },
                    None => {
                        out.push(Outbound { to: id, reply: Reply::UnknownKey });
                    },
                }
                assert(out@ =~= call_out(pre, m));
            },
            Message::SetVal { id, key, val } => {
                self.get_session(id)?;
                if !key.is_settable() {
                    out.push(Outbound { to: id, reply: Reply::UnknownKey });
                    assert(out@ =~= call_out(pre, m));
                } else if self.tracker_id == 0 || self.tracker_id == id {
                    if self.tracker_id == 0 {
                        self.tracker_id = id;
                        self.set_val(Key::Tracker, 1, &mut out);
                        assert(self.view() == claimed(pre, id));
                    }
                    let ghost mid = self.view();
                    let ghost before = out@;
                    self.set_val(key, val, &mut out);
                    out.push(Outbound { to: id, reply: Reply::Acknowledged });
                    assert(out@ =~= before + write_out(mid, id, key, val));
                    assert(out@ =~= call_out(pre, m));
                } else {
                    out.push(Outbound { to: id, reply: Reply::TrackerConflict });
                    assert(out@ =~= call_out(pre, m));
                }
            },
        }
        proof {
            let v = self.view();
            if pre.tracker_id == 0 && v.tracker_id != 0 {
                let k = choose|k: int| 0 <= k < pre.sessions.len() && pre.sessions[k] == caller(m);
                assert(v.sessions[k] == v.tracker_id);
            }
            assert(v == after_call(pre, m));
        }
        Ok(out)
    }
}

} // verus!
