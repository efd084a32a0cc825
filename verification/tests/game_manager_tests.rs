use mozaic::broker::Broker;
use mozaic::errors::ErrorKind;
use mozaic::game_manager::{GameManager, GameOpRes};
use mozaic::handles::Envelope;
use mozaic::ids::ReactorID;
use mozaic::message::{Message, Payload, TAG_KILL_REQUEST, TAG_REGISTER_GAME, TAG_STATE_REQUEST};

fn rid(n: u64) -> ReactorID {
    ReactorID { high: 3, low: n }
}

/// Drive the supervisor through build, state, kill and a final state
/// request, playing the match reactor's side by hand over the broker.
#[test]
fn build_state_kill_state_round_trip() {
    let rt = rid(0);
    let gm_id = rid(1);
    let cm_id = rid(2);
    let host_id = rid(3);
    let mut broker = Broker::new(rt);
    broker.register(cm_id).unwrap();
    broker.register(host_id).unwrap();
    let mut gm = GameManager::new(gm_id, cm_id);

    // build
    gm.new_request(1);
    let r = gm.handle_gamebuilder(&mut broker, 1, host_id, vec![(10, rid(100))]);
    let game = match r {
        Some(GameOpRes::Built(Some(g))) => g,
        other => panic!("build not acknowledged: {:?}", other),
    };
    // the client manager was told about the new match
    let mut announcement = broker.recv(cm_id).expect("no match announcement");
    assert_eq!(announcement.from, gm_id);
    match announcement.msg.take_as(TAG_REGISTER_GAME) {
        Ok(Payload::RegisterGame(reg)) => {
            assert_eq!(reg.game, game);
            assert_eq!(reg.players, vec![(10, rid(100))]);
        },
        other => panic!("not a match announcement: {:?}", other),
    }

    // state: forwarded to the match reactor, answered on its response
    gm.new_request(2);
    assert_eq!(gm.handle_state(&mut broker, 2, game), None);
    let mut req = broker.recv(host_id).expect("no state request");
    assert!(matches!(req.msg.take_as(TAG_STATE_REQUEST), Ok(Payload::StateRequest(2))));
    let reply = gm.handle_response(host_id, Message::wrap(Payload::StateResponse(
        2,
        String::from("{\"testing\":123}"),
    )));
    assert_eq!(reply, Some(GameOpRes::State(Some(String::from("{\"testing\":123}")))));

    // kill: forwarded, acknowledged
    gm.new_request(3);
    assert_eq!(gm.handle_kill(&mut broker, 3, game), None);
    let mut req = broker.recv(host_id).expect("no kill request");
    assert!(matches!(req.msg.take_as(TAG_KILL_REQUEST), Ok(Payload::KillRequest(3))));
    let reply = gm.handle_response(host_id, Message::wrap(Payload::KillAck(3)));
    assert_eq!(reply, Some(GameOpRes::Kill(Some(()))));

    // the match reactor exits; a further state request is answered empty
    broker.unregister(host_id);
    gm.new_request(4);
    assert_eq!(gm.handle_state(&mut broker, 4, game), Some(GameOpRes::State(None)));
}

#[test]
fn a_natural_game_over_answers_one_last_state_query() {
    let rt = rid(0);
    let gm_id = rid(1);
    let cm_id = rid(2);
    let host_id = rid(3);
    let mut broker = Broker::new(rt);
    broker.register(cm_id).unwrap();
    broker.register(host_id).unwrap();
    let mut gm = GameManager::new(gm_id, cm_id);
    gm.new_request(1);
    let game = match gm.handle_gamebuilder(&mut broker, 1, host_id, vec![(10, rid(100))]) {
        Some(GameOpRes::Built(Some(g))) => g,
        other => panic!("build not acknowledged: {:?}", other),
    };

    // the match ends on its own: the host publishes the final value and
    // exits
    let reply = gm.handle_response(host_id, Message::wrap(Payload::FinalState(String::from(
        "{\"testing\":123}",
    ))));
    assert_eq!(reply, None);
    broker.unregister(host_id);

    // the first state query reads the final value; the next reads gone
    gm.new_request(2);
    assert_eq!(
        gm.handle_state(&mut broker, 2, game),
        Some(GameOpRes::State(Some(String::from("{\"testing\":123}")))),
    );
    gm.new_request(3);
    assert_eq!(gm.handle_state(&mut broker, 3, game), Some(GameOpRes::State(None)));
}

#[test]
fn a_kill_erases_the_final_value() {
    let rt = rid(0);
    let gm_id = rid(1);
    let cm_id = rid(2);
    let host_id = rid(3);
    let mut broker = Broker::new(rt);
    broker.register(cm_id).unwrap();
    broker.register(host_id).unwrap();
    let mut gm = GameManager::new(gm_id, cm_id);
    gm.new_request(1);
    let game = match gm.handle_gamebuilder(&mut broker, 1, host_id, vec![(10, rid(100))]) {
        Some(GameOpRes::Built(Some(g))) => g,
        other => panic!("build not acknowledged: {:?}", other),
    };

    // a kill: the host publishes the final value, acknowledges, and exits
    gm.new_request(2);
    assert_eq!(gm.handle_kill(&mut broker, 2, game), None);
    let _ = broker.recv(host_id);
    let reply = gm.handle_response(host_id, Message::wrap(Payload::FinalState(String::from(
        "{\"testing\":123}",
    ))));
    assert_eq!(reply, None);
    let reply = gm.handle_response(host_id, Message::wrap(Payload::KillAck(2)));
    assert_eq!(reply, Some(GameOpRes::Kill(Some(()))));
    broker.unregister(host_id);

    // a killed match reads as gone, final value or not
    gm.new_request(3);
    assert_eq!(gm.handle_state(&mut broker, 3, game), Some(GameOpRes::State(None)));
}

#[test]
fn unknown_match_numbers_are_answered_empty_at_once() {
    let mut broker = Broker::new(rid(0));
    let mut gm = GameManager::new(rid(1), rid(2));
    gm.new_request(1);
    assert_eq!(gm.handle_state(&mut broker, 1, 999), Some(GameOpRes::State(None)));
    gm.new_request(2);
    assert_eq!(gm.handle_kill(&mut broker, 2, 999), Some(GameOpRes::Kill(None)));
}

#[test]
fn a_stray_reply_is_discarded() {
    let mut gm = GameManager::new(rid(1), rid(2));
    let reply = gm.handle_response(rid(9), Message::wrap(Payload::KillAck(77)));
    assert_eq!(reply, None);
}

#[test]
fn dispatch_to_an_unknown_receiver_reaches_nobody() {
    let rt = rid(0);
    let known = rid(5);
    let mut broker = Broker::new(rt);
    broker.register(known).unwrap();
    let env = Envelope {
        from: known,
        to: ReactorID { high: 0xdead, low: 0xbeef },
        msg: Message::wrap(Payload::Tick),
    };
    assert_eq!(broker.dispatch(env), Err(ErrorKind::NoSuchReactor));
    assert!(broker.recv(known).is_none(), "no reactor observed anything");
}

#[test]
fn registering_twice_is_refused() {
    let mut broker = Broker::new(rid(0));
    assert_eq!(broker.register(rid(1)), Ok(()));
    assert_eq!(broker.register(rid(1)), Err(ErrorKind::Duplicate));
}

#[test]
fn dispatch_to_the_runtime_identifier_is_refused() {
    let rt = rid(0);
    let mut broker = Broker::new(rt);
    let env = Envelope { from: rid(1), to: rt, msg: Message::wrap(Payload::Tick) };
    assert_eq!(broker.dispatch(env), Err(ErrorKind::Internal));
}

#[test]
fn mailboxes_preserve_per_pair_order() {
    let rt = rid(0);
    let a = rid(1);
    let b = rid(2);
    let mut broker = Broker::new(rt);
    broker.register(b).unwrap();
    for text in ["one", "two", "three"] {
        let env = Envelope {
            from: a,
            to: b,
            msg: Message::wrap(Payload::Data(mozaic::types::Data {
                value: String::from(text),
            })),
        };
        broker.dispatch(env).unwrap();
    }
    let mut seen = Vec::new();
    while let Some(mut env) = broker.recv(b) {
        if let Ok(Payload::Data(d)) = env.msg.take_as(mozaic::message::TAG_DATA) {
            seen.push(d.value);
        }
    }
    assert_eq!(seen, vec!["one", "two", "three"]);
}

#[test]
fn interleaved_senders_keep_their_own_order() {
    let rt = rid(0);
    let a = rid(1);
    let c = rid(2);
    let b = rid(3);
    let mut broker = Broker::new(rt);
    broker.register(b).unwrap();
    let lines = [(a, "a1"), (c, "c1"), (a, "a2"), (c, "c2"), (a, "a3")];
    for (from, text) in lines {
        broker
            .dispatch(Envelope {
                from,
                to: b,
                msg: Message::wrap(Payload::Data(mozaic::types::Data {
                    value: String::from(text),
                })),
            })
            .unwrap();
    }
    let mut from_a = Vec::new();
    let mut from_c = Vec::new();
    while let Some(mut env) = broker.recv(b) {
        if let Ok(Payload::Data(d)) = env.msg.take_as(mozaic::message::TAG_DATA) {
            if env.from == a {
                from_a.push(d.value);
            } else {
                from_c.push(d.value);
            }
        }
    }
    assert_eq!(from_a, vec!["a1", "a2", "a3"]);
    assert_eq!(from_c, vec!["c1", "c2"]);
}
