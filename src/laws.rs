use vstd::prelude::*;
use crate::protocol::{Key, Reply, settable};
use crate::session::{Message, SessionID};
use crate::server::{
    ServerView, Outbound, valid, increasing, issued, others, notify, snapshot, value_of,
    after_connect, after_disconnect, disconnect_out, after_call, call_out, caller,
};

verus! {

/// One event as the transport reports it.
pub enum Event {
    Connect,
    Disconnect { id: SessionID },
    Request { call: Message },
}

/// The state after one event. An event that the server refuses (a connect
/// once every id is used, an unknown session) leaves the state as it was.
pub open spec fn step(v: ServerView, e: Event) -> ServerView {
    match e {
        Event::Connect => if v.latest_id < SessionID::MAX { after_connect(v) } else { v },
        Event::Disconnect { id } => if v.sessions.contains(id) { after_disconnect(v, id) } else { v },
        Event::Request { call } => if v.sessions.contains(caller(call)) {
            after_call(v, call)
        } else {
            v
        },
    }
}

/// The state after a sequence of events, in order.
pub open spec fn run(v: ServerView, events: Seq<Event>) -> ServerView
    decreases events.len(),
{
    if events.len() == 0 {
        v
    } else {
        step(run(v, events.drop_last()), events.last())
    }
}

/// Removing an id from an increasing sequence of issued ids keeps it
/// increasing and issued, and keeps every other id.
pub proof fn lemma_others(s: Seq<SessionID>, x: SessionID, latest: SessionID)
    requires
        increasing(s),
        issued(s, latest),
    ensures
        increasing(others(s, x)),
        issued(others(s, x), latest),
        forall|y: SessionID| #[trigger] others(s, x).contains(y) <==> (s.contains(y) && y != x),
        others(s, x).len() > 0 ==> others(s, x).last() <= s.last(),
    decreases s.len(),
{
    reveal(Seq::filter);
    if s.len() > 0 {
        let init = s.drop_last();
        lemma_others(init, x, latest);
        let o = others(s, x);
        let oi = others(init, x);
        if s.last() != x {
            assert(o =~= oi.push(s.last()));
        } else {
            assert(o =~= oi);
        }
        assert forall|y: SessionID| o.contains(y) <==> (s.contains(y) && y != x) by {
            if s.contains(y) && y != x {
                let k = choose|k: int| 0 <= k < s.len() && s[k] == y;
                if k < s.len() - 1 {
                    assert(init[k] == y);
                    assert(init.contains(y));
                    assert(oi.contains(y));
                    let j = choose|j: int| 0 <= j < oi.len() && oi[j] == y;
                    assert(o[j] == y);
                } else {
                    assert(o[o.len() - 1] == y);
                }
            }
            if o.contains(y) {
                let j = choose|j: int| 0 <= j < o.len() && o[j] == y;
                if j < oi.len() {
                    assert(oi[j] == y);
                    assert(oi.contains(y));
                    let k = choose|k: int| 0 <= k < init.len() && init[k] == y;
                    assert(s[k] == y);
                } else {
                    assert(y == s.last());
                    assert(s[s.len() - 1] == y);
                }
            }
        }
        if oi.len() > 0 {
            assert(oi.contains(oi.last()));
            let k = choose|k: int| 0 <= k < init.len() && init[k] == oi.last();
            assert(s[k] == oi.last());
        }
        assert forall|i: int| 0 <= i < o.len() implies 0 < #[trigger] o[i] <= latest by {
            assert(o.contains(o[i]));
        }
    }
}

/// Filtering out an id that is not present keeps the sequence as it is.
pub proof fn lemma_others_absent(s: Seq<SessionID>, x: SessionID)
    requires
        !s.contains(x),
    ensures
        others(s, x) == s,
    decreases s.len(),
{
    reveal(Seq::filter);
    if s.len() > 0 {
        lemma_others_absent(s.drop_last(), x);
        assert(s.drop_last().push(s.last()) =~= s);
    }
}

pub proof fn lemma_connect_valid(v: ServerView)
    requires
        valid(v),
        v.latest_id < SessionID::MAX,
    ensures
        valid(after_connect(v)),
{
    let w = after_connect(v);
    assert forall|i: int| 0 <= i < w.sessions.len() implies 0 < #[trigger] w.sessions[i] <= w.latest_id by {
        if i < v.sessions.len() {
            assert(w.sessions[i] == v.sessions[i]);
        }
    }
    if v.tracker_id != 0 {
        let k = choose|k: int| 0 <= k < v.sessions.len() && v.sessions[k] == v.tracker_id;
        assert(w.sessions[k] == v.tracker_id);
    }
}

pub proof fn lemma_disconnect_valid(v: ServerView, id: SessionID)
    requires
        valid(v),
    ensures
        valid(after_disconnect(v, id)),
{
    lemma_others(v.sessions, id, v.latest_id);
}

pub proof fn lemma_call_valid(v: ServerView, m: Message)
    requires
        valid(v),
        v.sessions.contains(caller(m)),
    ensures
        valid(after_call(v, m)),
{
}

/// The invariant holds after every sequence of events: in particular the
/// tracker is always 0 or a connected session, and ids are never reused.
pub proof fn lemma_tracker_never_dangles(v: ServerView, events: Seq<Event>)
    requires
        valid(v),
    ensures
        valid(run(v, events)),
        run(v, events).tracker_id == 0 || run(v, events).sessions.contains(run(v, events).tracker_id),
    decreases events.len(),
{
    if events.len() > 0 {
        lemma_tracker_never_dangles(v, events.drop_last());
        let u = run(v, events.drop_last());
        match events.last() {
            Event::Connect => if u.latest_id < SessionID::MAX {
                lemma_connect_valid(u);
            },
            Event::Disconnect { id } => lemma_disconnect_valid(u, id),
            Event::Request { call } => if u.sessions.contains(caller(call)) {
                lemma_call_valid(u, call);
            },
        }
    }
}

/// While one session holds the tracker claim, a `set` from any other session
/// changes nothing and answers that session, and only it, with the conflict
/// error.
pub proof fn lemma_conflict_leaves_store(v: ServerView, b: SessionID, key: Key, val: u8)
    requires
        valid(v),
        v.tracker_id != 0,
        b != v.tracker_id,
        settable(key),
    ensures
        after_call(v, Message::SetVal { id: b, key, val }) == v,
        call_out(v, Message::SetVal { id: b, key, val })
            == seq![Outbound { to: b, reply: Reply::TrackerConflict }],
{
}

/// A `set` by the tracker that writes a key's current value changes nothing
/// and sends `ok` to the writer alone.
pub proof fn lemma_same_value_is_silent(v: ServerView, key: Key)
    requires
        valid(v),
        v.tracker_id != 0,
        settable(key),
    ensures
        after_call(v, Message::SetVal { id: v.tracker_id, key, val: value_of(v, key) }) == v,
        call_out(v, Message::SetVal { id: v.tracker_id, key, val: value_of(v, key) })
            == seq![Outbound { to: v.tracker_id, reply: Reply::Acknowledged }],
{
    let m = Message::SetVal { id: v.tracker_id, key, val: value_of(v, key) };
    assert(call_out(v, m) =~= seq![Outbound { to: v.tracker_id, reply: Reply::Acknowledged }]);
    match key {
        Key::Tracker => {},
        Key::Bpm => assert(after_call(v, m) == v),
        Key::Battery => assert(after_call(v, m) == v),
    }
}

/// A first `set` that writes a key's current value takes the claim and sends
/// nothing but the claim notice to the others and `ok` to the writer: the
/// value itself is not broadcast.
pub proof fn lemma_same_value_on_claim(v: ServerView, id: SessionID, key: Key)
    requires
        valid(v),
        v.tracker_id == 0,
        id != 0,
        settable(key),
    ensures
        call_out(v, Message::SetVal { id, key, val: value_of(v, key) })
            == notify(v.sessions, id, Key::Tracker, 1).push(
            Outbound { to: id, reply: Reply::Acknowledged }),
{
    let m = Message::SetVal { id, key, val: value_of(v, key) };
    let c = ServerView { tracker_id: id, tracker: 1, ..v };
    assert(value_of(c, key) == value_of(v, key));
    assert(call_out(v, m) =~= notify(v.sessions, id, Key::Tracker, 1).push(
        Outbound { to: id, reply: Reply::Acknowledged }));
}

/// Disconnecting the tracker releases the claim, sets `tracker` to 0, and
/// sends `tracker: 0` once to each remaining session and to nobody else.
pub proof fn lemma_tracker_loss(v: ServerView)
    requires
        valid(v),
        v.tracker_id != 0,
    ensures
        after_disconnect(v, v.tracker_id).tracker_id == 0,
        value_of(after_disconnect(v, v.tracker_id), Key::Tracker) == 0,
        after_disconnect(v, v.tracker_id).sessions.no_duplicates(),
        !after_disconnect(v, v.tracker_id).sessions.contains(v.tracker_id),
        disconnect_out(v, v.tracker_id).len() == after_disconnect(v, v.tracker_id).sessions.len(),
        forall|i: int| 0 <= i < disconnect_out(v, v.tracker_id).len()
            ==> #[trigger] disconnect_out(v, v.tracker_id)[i] == (Outbound {
                to: after_disconnect(v, v.tracker_id).sessions[i],
                reply: Reply::Value { key: Key::Tracker, val: 0 },
            }),
{
    let t = v.tracker_id;
    let rest = others(v.sessions, t);
    lemma_others(v.sessions, t, v.latest_id);
    assert(!rest.contains(0u32)) by {
        if rest.contains(0u32) {
            let k = choose|k: int| 0 <= k < rest.len() && rest[k] == 0u32;
        }
    }
    lemma_others_absent(rest, 0);
}

/// What the key of a reply is, if it carries a value.
pub open spec fn value_key(r: Reply) -> Option<Key> {
    match r {
        Reply::Value { key, .. } => Some(key),
        _ => None,
    }
}

/// A new session gets one message per key, each with the value last stored,
/// all addressed to it; from then on it is among the sessions that changes
/// are sent to.
pub proof fn lemma_snapshot_complete(v: ServerView)
    requires
        valid(v),
        v.latest_id < SessionID::MAX,
    ensures
        ({
            let id = (v.latest_id + 1) as SessionID;
            let out = snapshot(v, id);
            &&& out.len() == 3
            &&& forall|i: int| 0 <= i < 3 ==> (#[trigger] out[i]).to == id
            &&& forall|k: Key| #![trigger value_of(v, k)] exists|i: int| 0 <= i < 3
                && (#[trigger] out[i]).reply == (Reply::Value { key: k, val: value_of(v, k) })
            &&& forall|i: int, j: int| 0 <= i < j < 3
                ==> value_key(out[i].reply) != value_key(out[j].reply)
            &&& after_connect(v).sessions.contains(id)
            &&& forall|key: Key, val: u8| #![auto] after_connect(v).tracker_id != id
                ==> notify(after_connect(v).sessions, after_connect(v).tracker_id, key, val).contains(
                Outbound { to: id, reply: Reply::Value { key, val } })
        }),
{
    let id = (v.latest_id + 1) as SessionID;
    let out = snapshot(v, id);
    let w = after_connect(v);
    assert(w.sessions[w.sessions.len() - 1] == id);
    assert forall|k: Key| #![trigger value_of(v, k)] exists|i: int| 0 <= i < 3
        && (#[trigger] out[i]).reply == (Reply::Value { key: k, val: value_of(v, k) }) by {
        match k {
            Key::Tracker => assert(out[0].reply == Reply::Value { key: k, val: value_of(v, k) }),
            Key::Bpm => assert(out[1].reply == Reply::Value { key: k, val: value_of(v, k) }),
            Key::Battery => assert(out[2].reply == Reply::Value { key: k, val: value_of(v, k) }),
        }
    }
    assert forall|key: Key, val: u8| #![auto] w.tracker_id != id
        implies notify(w.sessions, w.tracker_id, key, val).contains(
        Outbound { to: id, reply: Reply::Value { key, val } }) by {
        let o = others(w.sessions, w.tracker_id);
        assert(o.contains(w.sessions[w.sessions.len() - 1]));
        let k = choose|k: int| 0 <= k < o.len() && o[k] == id;
        let n = notify(w.sessions, w.tracker_id, key, val);
        assert(n[k] == Outbound { to: id, reply: Reply::Value { key, val } });
    }
}

} // verus!
