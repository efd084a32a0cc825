use mozaic::client_controller::CCReactor;
use mozaic::handles::{Effect, ReactorHandle, TargetReactor};
use mozaic::ids::ReactorID;
use mozaic::message::{Payload, TAG_CLIENT_KICKED, TAG_CLOSE, TAG_DATA};
use mozaic::net::Accepted;
use mozaic::types::Data;

fn rid(n: u64) -> ReactorID {
    ReactorID { high: 2, low: n }
}

fn data_values_to(effects: &mut Vec<Effect>, peer: ReactorID) -> Vec<String> {
    let mut out = Vec::new();
    for e in effects {
        if let Effect::Internal(msg, TargetReactor::Link(to)) = e {
            if *to == peer && msg.tag() == TAG_DATA {
                if let Ok(Payload::Data(d)) = msg.take_as(TAG_DATA) {
                    out.push(d.value);
                }
            }
        }
    }
    out
}

#[test]
fn buffered_traffic_is_flushed_in_order_on_attach() {
    let cm = rid(1);
    let host = rid(2);
    let session = rid(3);
    let mut cc = CCReactor::params(10, cm, host, 16);
    let mut handle = ReactorHandle::new(rid(4));
    for text in ["first", "second", "third"] {
        cc.handle_host_msg(&mut handle, Data { value: String::from(text) });
    }
    assert!(handle.effects.is_empty(), "nothing leaves while detached");

    cc.handle_connect(&mut handle, &Accepted { player: 10, client_id: session, contr_id: rid(4) });
    let mut effects = handle.effects;
    let flushed = data_values_to(&mut effects, session);
    assert_eq!(flushed, vec!["first", "second", "third"]);

    // live traffic now passes straight through, after the backlog
    let mut handle = ReactorHandle::new(rid(4));
    cc.handle_host_msg(&mut handle, Data { value: String::from("live") });
    let mut effects = handle.effects;
    assert_eq!(data_values_to(&mut effects, session), vec!["live"]);
}

#[test]
fn a_full_buffer_drops_the_oldest_entry() {
    let mut cc = CCReactor::params(10, rid(1), rid(2), 2);
    let mut handle = ReactorHandle::new(rid(4));
    cc.handle_host_msg(&mut handle, Data { value: String::from("a") });
    cc.handle_host_msg(&mut handle, Data { value: String::from("b") });
    cc.handle_host_msg(&mut handle, Data { value: String::from("c") });

    let session = rid(3);
    cc.handle_connect(&mut handle, &Accepted { player: 10, client_id: session, contr_id: rid(4) });
    let mut effects = handle.effects;
    assert_eq!(data_values_to(&mut effects, session), vec!["b", "c"]);
}

#[test]
fn a_second_session_replaces_the_first() {
    let mut cc = CCReactor::params(10, rid(1), rid(2), 4);
    let mut handle = ReactorHandle::new(rid(4));
    let s1 = rid(31);
    let s2 = rid(32);
    cc.handle_connect(&mut handle, &Accepted { player: 10, client_id: s1, contr_id: rid(4) });
    cc.handle_connect(&mut handle, &Accepted { player: 10, client_id: s2, contr_id: rid(4) });

    let mut saw_stale_close = false;
    for e in &handle.effects {
        if let Effect::CloseLinkHard(peer) = e {
            if *peer == s1 {
                saw_stale_close = true;
            }
        }
    }
    assert!(saw_stale_close, "the first session's link is dropped hard");

    // traffic now goes to the second session only
    let mut handle = ReactorHandle::new(rid(4));
    cc.handle_host_msg(&mut handle, Data { value: String::from("x") });
    let mut effects = handle.effects;
    assert_eq!(data_values_to(&mut effects, s1), Vec::<String>::new());
    assert_eq!(data_values_to(&mut effects, s2), vec!["x"]);
}

#[test]
fn a_detached_session_stops_the_flow() {
    let mut cc = CCReactor::params(10, rid(1), rid(2), 4);
    let mut handle = ReactorHandle::new(rid(4));
    let s = rid(31);
    cc.handle_connect(&mut handle, &Accepted { player: 10, client_id: s, contr_id: rid(4) });
    cc.handle_peer_closed(&mut handle, s);

    let mut handle = ReactorHandle::new(rid(4));
    cc.handle_host_msg(&mut handle, Data { value: String::from("while away") });
    assert!(handle.effects.is_empty(), "traffic queues again after the detach");
}

#[test]
fn a_kick_tells_everyone_and_ends_the_controller() {
    let cm = rid(1);
    let host = rid(2);
    let session = rid(3);
    let mut cc = CCReactor::params(10, cm, host, 4);
    let mut handle = ReactorHandle::new(rid(4));
    cc.handle_connect(&mut handle, &Accepted { player: 10, client_id: session, contr_id: rid(4) });

    let mut handle = ReactorHandle::new(rid(4));
    cc.handle_kicked(&mut handle);
    let mut effects = handle.effects;
    assert_eq!(effects.len(), 5);
    match &mut effects[0] {
        Effect::Internal(msg, TargetReactor::Link(to)) => {
            assert_eq!(*to, session);
            assert!(matches!(msg.take_as(TAG_CLIENT_KICKED), Ok(Payload::ClientKicked(10))));
        },
        other => panic!("unexpected: {:?}", other),
    }
    match &mut effects[1] {
        Effect::Internal(msg, TargetReactor::Link(to)) => {
            assert_eq!(*to, session);
            assert!(matches!(msg.take_as(TAG_CLOSE), Ok(Payload::Close(_))));
        },
        other => panic!("unexpected: {:?}", other),
    }
    match &mut effects[2] {
        Effect::Internal(msg, TargetReactor::Link(to)) => {
            assert_eq!(*to, host);
            assert!(matches!(msg.take_as(TAG_CLIENT_KICKED), Ok(Payload::ClientKicked(10))));
        },
        other => panic!("unexpected: {:?}", other),
    }
    // the controller reports its own exit to the client manager, so the
    // manager can forget this controller's tokens
    match &mut effects[3] {
        Effect::Internal(msg, TargetReactor::Link(to)) => {
            assert_eq!(*to, cm);
            assert!(matches!(
                msg.take_as(mozaic::message::TAG_PEER_CLOSED),
                Ok(Payload::PeerClosed(p)) if p == rid(4)
            ));
        },
        other => panic!("unexpected: {:?}", other),
    }
    assert!(matches!(effects[4], Effect::Destroy));
}

#[test]
fn the_controller_stamps_its_player_on_outgoing_messages() {
    let cc = CCReactor::params(10, rid(1), rid(2), 4);
    let msg = cc.player_msg(String::from("from the wire"));
    assert_eq!(msg.id, 10);
    assert_eq!(msg.data, Some(Data { value: String::from("from the wire") }));
}
