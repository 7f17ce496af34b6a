use heartsock::{HeartsockServer, Key, Message, Outbound, Reply, ServerError};

fn value(to: u32, key: Key, val: u8) -> Outbound {
    Outbound { to, reply: Reply::Value { key, val } }
}

fn set(id: u32, key: Key, val: u8) -> Message {
    Message::SetVal { id, key, val }
}

#[test]
fn scenario_tracker_claim_and_release() {
    let mut server = HeartsockServer::new();

    let (one, snap) = server.on_connect();
    assert_eq!(one, 1);
    assert_eq!(snap, vec![value(1, Key::Tracker, 0), value(1, Key::Bpm, 0), value(1, Key::Battery, 0)]);

    // No one else is connected: the claim broadcast reaches nobody.
    let out = server.on_call(set(1, Key::Bpm, 72)).unwrap();
    assert_eq!(out, vec![Outbound { to: 1, reply: Reply::Acknowledged }]);
    assert_eq!(server.tracker_id(), 1);

    let (two, snap) = server.on_connect();
    assert_eq!(two, 2);
    assert_eq!(snap, vec![value(2, Key::Tracker, 1), value(2, Key::Bpm, 72), value(2, Key::Battery, 0)]);

    let out = server.on_call(set(2, Key::Bpm, 80)).unwrap();
    assert_eq!(out, vec![Outbound { to: 2, reply: Reply::TrackerConflict }]);
    assert_eq!(server.get_val(Key::Bpm), 72);

    let out = server.on_call(set(1, Key::Bpm, 80)).unwrap();
    assert_eq!(out, vec![value(2, Key::Bpm, 80), Outbound { to: 1, reply: Reply::Acknowledged }]);

    let out = server.on_disconnect(1).unwrap();
    assert_eq!(out, vec![value(2, Key::Tracker, 0)]);
    assert_eq!(server.tracker_id(), 0);
    assert_eq!(server.get_val(Key::Tracker), 0);
}

#[test]
fn claim_is_broadcast_to_others() {
    let mut server = HeartsockServer::new();
    server.on_connect();
    server.on_connect();
    server.on_connect();
    let out = server.on_call(set(2, Key::Battery, 55)).unwrap();
    assert_eq!(
        out,
        vec![
            value(1, Key::Tracker, 1),
            value(3, Key::Tracker, 1),
            value(1, Key::Battery, 55),
            value(3, Key::Battery, 55),
            Outbound { to: 2, reply: Reply::Acknowledged },
        ]
    );
}

#[test]
fn conflicting_set_leaves_store_unchanged() {
    let mut server = HeartsockServer::new();
    server.on_connect();
    server.on_connect();
    server.on_call(set(1, Key::Battery, 90)).unwrap();
    let out = server.on_call(set(2, Key::Battery, 10)).unwrap();
    assert_eq!(out, vec![Outbound { to: 2, reply: Reply::TrackerConflict }]);
    assert_eq!(server.get_val(Key::Battery), 90);
    assert_eq!(server.get_val(Key::Bpm), 0);
    assert_eq!(server.tracker_id(), 1);
}

#[test]
fn same_value_write_is_silent() {
    let mut server = HeartsockServer::new();
    server.on_connect();
    server.on_connect();
    server.on_call(set(1, Key::Bpm, 60)).unwrap();
    let out = server.on_call(set(1, Key::Bpm, 60)).unwrap();
    assert_eq!(out, vec![Outbound { to: 1, reply: Reply::Acknowledged }]);
}

#[test]
fn tracker_loss_reaches_every_remaining_session_once() {
    let mut server = HeartsockServer::new();
    for _ in 0..4 {
        server.on_connect();
    }
    server.on_call(set(3, Key::Bpm, 100)).unwrap();
    let out = server.on_disconnect(3).unwrap();
    assert_eq!(out, vec![value(1, Key::Tracker, 0), value(2, Key::Tracker, 0), value(4, Key::Tracker, 0)]);
    // The claim is free again: the next writer takes it.
    let out = server.on_call(set(4, Key::Bpm, 100)).unwrap();
    assert_eq!(
        out,
        vec![value(1, Key::Tracker, 1), value(2, Key::Tracker, 1), Outbound { to: 4, reply: Reply::Acknowledged }]
    );
}

#[test]
fn non_tracker_disconnect_sends_nothing() {
    let mut server = HeartsockServer::new();
    server.on_connect();
    server.on_connect();
    server.on_call(set(1, Key::Bpm, 70)).unwrap();
    assert_eq!(server.on_disconnect(2), Ok(vec![]));
    assert_eq!(server.tracker_id(), 1);
}

#[test]
fn snapshot_reflects_latest_values() {
    let mut server = HeartsockServer::new();
    server.on_connect();
    server.on_call(set(1, Key::Bpm, 65)).unwrap();
    server.on_call(set(1, Key::Battery, 42)).unwrap();
    let (id, snap) = server.on_connect();
    assert_eq!(id, 2);
    assert_eq!(snap, vec![value(2, Key::Tracker, 1), value(2, Key::Bpm, 65), value(2, Key::Battery, 42)]);
    // The new session is among those told of later changes.
    let out = server.on_call(set(1, Key::Bpm, 66)).unwrap();
    assert_eq!(out, vec![value(2, Key::Bpm, 66), Outbound { to: 1, reply: Reply::Acknowledged }]);
}

#[test]
fn ping_and_get() {
    let mut server = HeartsockServer::new();
    server.on_connect();
    assert_eq!(server.on_call(Message::Ping { id: 1 }), Ok(vec![Outbound { to: 1, reply: Reply::Pong }]));
    let get = Message::GetVal { id: 1, key: "bpm".chars().collect() };
    assert_eq!(server.on_call(get), Ok(vec![value(1, Key::Bpm, 0)]));
    let get = Message::GetVal { id: 1, key: "tracker".chars().collect() };
    assert_eq!(server.on_call(get), Ok(vec![value(1, Key::Tracker, 0)]));
    let get = Message::GetVal { id: 1, key: "speed".chars().collect() };
    assert_eq!(server.on_call(get), Ok(vec![Outbound { to: 1, reply: Reply::UnknownKey }]));
}

#[test]
fn tracker_key_cannot_be_set() {
    let mut server = HeartsockServer::new();
    server.on_connect();
    let out = server.on_call(set(1, Key::Tracker, 1)).unwrap();
    assert_eq!(out, vec![Outbound { to: 1, reply: Reply::UnknownKey }]);
    assert_eq!(server.tracker_id(), 0);
}

#[test]
fn unknown_session_is_refused() {
    let mut server = HeartsockServer::new();
    server.on_connect();
    assert_eq!(server.on_call(Message::Ping { id: 7 }), Err(ServerError::UnknownSession));
    assert_eq!(server.on_call(set(0, Key::Bpm, 1)), Err(ServerError::UnknownSession));
    assert_eq!(server.on_disconnect(9), Err(ServerError::UnknownSession));
    assert_eq!(server.on_disconnect(1), Ok(vec![]));
    assert_eq!(server.on_disconnect(1), Err(ServerError::UnknownSession));
    assert_eq!(server.tracker_id(), 0);
}

#[test]
fn ids_are_never_reused() {
    let mut server = HeartsockServer::new();
    let (a, _) = server.on_connect();
    server.on_disconnect(a).unwrap();
    let (b, _) = server.on_connect();
    assert_eq!((a, b), (1, 2));
    assert_eq!(server.latest_id(), 2);
}

#[test]
fn get_session_finds_position() {
    let mut server = HeartsockServer::new();
    server.on_connect();
    server.on_connect();
    server.on_connect();
    server.on_disconnect(2).unwrap();
    assert_eq!(server.get_session(3), Ok(1));
    assert_eq!(server.get_session(2), Err(ServerError::UnknownSession));
}

/// Runs one line from `session` through the session endpoint and the server,
/// and returns each delivered line with its addressee.
fn line(server: &mut HeartsockServer, session: u32, text: &str) -> Vec<(u32, String)> {
    let out = match heartsock::HeartsockSession::new(session).on_text(text) {
        heartsock::TextOutcome::Forward(m) => server.on_call(m).unwrap(),
        heartsock::TextOutcome::Respond(r) => vec![Outbound { to: session, reply: r }],
    };
    out.into_iter().map(|o| (o.to, o.reply.text())).collect()
}

fn texts(out: Vec<Outbound>) -> Vec<(u32, String)> {
    out.into_iter().map(|o| (o.to, o.reply.text())).collect()
}

#[test]
fn scenario_over_text() {
    let mut server = HeartsockServer::new();
    let (_, snap) = server.on_connect();
    let mut got = texts(snap);
    got.sort();
    let mut want = vec![(1, "tracker: 0".to_string()), (1, "bpm: 0".to_string()), (1, "battery: 0".to_string())];
    want.sort();
    assert_eq!(got, want);

    assert_eq!(line(&mut server, 1, "set bpm 72"), vec![(1, "ok".to_string())]);

    let (_, snap) = server.on_connect();
    let mut got = texts(snap);
    got.sort();
    let mut want = vec![(2, "tracker: 1".to_string()), (2, "bpm: 72".to_string()), (2, "battery: 0".to_string())];
    want.sort();
    assert_eq!(got, want);

    assert_eq!(
        line(&mut server, 2, "set bpm 80"),
        vec![(2, "error: a tracker is already connected".to_string())]
    );
    assert_eq!(line(&mut server, 2, "get bpm"), vec![(2, "bpm: 72".to_string())]);

    assert_eq!(line(&mut server, 1, "SET BPM 80"), vec![(2, "bpm: 80".to_string()), (1, "ok".to_string())]);
    assert_eq!(line(&mut server, 2, "ping"), vec![(2, "pong".to_string())]);
    assert_eq!(line(&mut server, 2, "hello"), vec![(2, "error: unknown input".to_string())]);
    assert_eq!(line(&mut server, 2, "get speed"), vec![(2, "error: unknown value key".to_string())]);

    assert_eq!(texts(server.on_disconnect(1).unwrap()), vec![(2, "tracker: 0".to_string())]);
}

#[test]
fn tracker_is_always_zero_or_connected() {
    let mut server = HeartsockServer::new();
    let mut live: Vec<u32> = Vec::new();
    // A fixed pseudo-random walk over connects, writes and disconnects.
    let mut seed: u32 = 12345;
    for _ in 0..400 {
        seed = seed.wrapping_mul(1103515245).wrapping_add(12345);
        let pick = (seed >> 16) % 3;
        if pick == 0 || live.is_empty() {
            let (id, _) = server.on_connect();
            live.push(id);
        } else {
            let who = live[((seed >> 8) as usize) % live.len()];
            if pick == 1 {
                server.on_call(set(who, Key::Bpm, (seed % 200) as u8)).unwrap();
            } else {
                server.on_disconnect(who).unwrap();
                live.retain(|&x| x != who);
            }
        }
        let t = server.tracker_id();
        assert!(t == 0 || live.contains(&t));
        assert_eq!(server.get_val(Key::Tracker), if t == 0 { 0 } else { 1 });
    }
}
