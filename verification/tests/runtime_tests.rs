use mozaic::client_manager::ClientManager;
use mozaic::driver::Behavior;
use mozaic::echo::Echo;
use mozaic::game_manager::{GameManager, GameOpRes};
use mozaic::handles::Envelope;
use mozaic::ids::ReactorID;
use mozaic::message::{Message, Payload, TAG_CLIENT_KICKED, TAG_CLOSE, TAG_DATA, TAG_FINAL_STATE,
    TAG_PLAYER_UUIDS};
use mozaic::net::{RegisterEndpoint, SpawnPlayer};
use mozaic::runtime::Runtime;
use mozaic::types::{Data, PlayerMsg};

fn rid(n: u64) -> ReactorID {
    ReactorID { high: 7, low: n }
}

const GM: u64 = 1;
const EP: u64 = 2;

struct World {
    rt: Runtime<Echo>,
    gm: GameManager,
    game: u64,
    host_id: ReactorID,
    sl_id: ReactorID,
    tokens: Vec<u64>,
    pairs: Vec<(u64, ReactorID)>,
}

/// Build one echo match over the given players and run the graph until
/// the client manager has answered with the player tokens.
fn build_world(players: Vec<u64>, timeout_ms: Option<u64>) -> World {
    let gm_id = rid(GM);
    let cm_id = rid(100);
    let mut rt: Runtime<Echo> = Runtime::new();
    rt.register_mailbox(gm_id).unwrap();
    rt.spawn(cm_id, Behavior::ClientManager(ClientManager::new(gm_id))).unwrap();
    rt.run_rounds(12, 64);

    let echo = Echo::new(players.clone());
    let (host_id, pairs) = rt
        .build_match(echo, players, cm_id, gm_id, timeout_ms, 64)
        .unwrap();
    let pairs_kept = pairs.clone();

    let mut gm = GameManager::new(gm_id, cm_id);
    gm.new_request(1);
    let built = gm.handle_gamebuilder(rt.broker_mut(), 1, host_id, pairs);
    let game = match built {
        Some(GameOpRes::Built(Some(g))) => g,
        other => panic!("build not acknowledged: {:?}", other),
    };
    rt.run_rounds(20, 64);

    // the supervisor's mailbox now carries the token list
    let mut tokens: Vec<u64> = Vec::new();
    while let Some(mut env) = rt.recv(gm_id) {
        if env.msg.tag() == TAG_PLAYER_UUIDS {
            if let Ok(Payload::PlayerUUIDs(u)) = env.msg.take_as(TAG_PLAYER_UUIDS) {
                tokens = u.ids;
                break;
            }
        }
    }
    assert!(!tokens.is_empty(), "no tokens were announced");

    // announce the transport endpoint
    rt.dispatch(Envelope {
        from: gm_id,
        to: cm_id,
        msg: Message::wrap(Payload::RegisterEndpoint(RegisterEndpoint(rid(EP)))),
    })
    .unwrap();
    rt.run_rounds(12, 64);

    // the step-lock is the host's link peer that is not the supervisor
    let peers = rt.peers_of(host_id).expect("the match reactor is alive");
    let mut sl_id = host_id;
    for (peer, _) in peers {
        if peer != gm_id {
            sl_id = peer;
        }
    }
    assert_ne!(sl_id, host_id, "the match reactor has a step-lock link");

    World { rt, gm, game, host_id, sl_id, tokens, pairs: pairs_kept }
}

/// Attach a session for the token at `slot`, give it a fresh identifier,
/// and run the graph until the binding settles.
fn attach(w: &mut World, slot: usize, session: ReactorID) {
    w.rt.register_mailbox(session).unwrap();
    w.rt
        .dispatch(Envelope {
            from: rid(EP),
            to: rid(100),
            msg: Message::wrap(Payload::SpawnPlayer(SpawnPlayer::new(w.tokens[slot], session))),
        })
        .unwrap();
    w.rt.run_rounds(16, 64);
}

/// Send one line from a session to its controller and let it flow.
fn say(w: &mut World, session: ReactorID, cc: ReactorID, player: u64, text: &str) {
    w.rt
        .dispatch(Envelope {
            from: session,
            to: cc,
            msg: Message::wrap(Payload::Player(PlayerMsg {
                id: player,
                data: Some(Data { value: String::from(text) }),
            })),
        })
        .unwrap();
    w.rt.run_rounds(20, 64);
}

/// Everything a session's mailbox holds, as (tag, text) pairs.
fn drain_session(w: &mut World, session: ReactorID) -> Vec<(u64, String)> {
    let mut out = Vec::new();
    while let Some(mut env) = w.rt.recv(session) {
        let tag = env.msg.tag();
        let text = match env.msg.take_as(tag) {
            Ok(Payload::Data(d)) => d.value,
            _ => String::new(),
        };
        out.push((tag, text));
    }
    out
}

#[test]
fn echo_stop_round_trip() {
    let mut w = build_world(vec![10], None);
    let session = rid(500);
    attach(&mut w, 0, session);

    let cc = w.pairs[0].1;
    say(&mut w, session, cc, 10, "hi");
    let inbox = drain_session(&mut w, session);
    assert_eq!(inbox, vec![(TAG_DATA, String::from("10: hi\n"))]);

    say(&mut w, session, cc, 10, "stop");
    w.rt.run_rounds(20, 64);
    let inbox = drain_session(&mut w, session);
    let tags: Vec<u64> = inbox.iter().map(|e| e.0).collect();
    assert_eq!(tags, vec![TAG_CLIENT_KICKED, TAG_CLOSE]);

    // the final state reaches the supervisor; feeding it in lets one
    // state query still read the final value, and the next reads gone
    let mut saw_final = false;
    while let Some(env) = w.rt.recv(rid(GM)) {
        if env.msg.tag() == TAG_FINAL_STATE {
            saw_final = true;
        }
        let from = env.from;
        w.gm.handle_response(from, env.msg);
    }
    assert!(saw_final, "the final state reached the supervisor");

    assert!(!w.rt.reactor_exists(w.host_id));
    w.gm.new_request(2);
    let r = w.gm.handle_state(w.rt.broker_mut(), 2, w.game);
    assert_eq!(r, Some(GameOpRes::State(Some(String::from("{\"testing\":123}")))));
    w.gm.new_request(3);
    let r = w.gm.handle_state(w.rt.broker_mut(), 3, w.game);
    assert_eq!(r, Some(GameOpRes::State(None)));

    // the whole match graph is gone: step-lock and controller included
    assert!(!w.rt.reactor_exists(w.sl_id), "the step-lock ended with the match");
    assert!(!w.rt.reactor_exists(cc), "the controller ended with the match");

    // and the manager forgot the token: presenting it again binds nothing
    let s2 = rid(501);
    w.rt.register_mailbox(s2).unwrap();
    w.rt
        .dispatch(Envelope {
            from: rid(EP),
            to: rid(100),
            msg: Message::wrap(Payload::SpawnPlayer(SpawnPlayer::new(w.tokens[0], s2))),
        })
        .unwrap();
    w.rt.run_rounds(16, 64);
    assert!(drain_session(&mut w, s2).is_empty(), "a dead match's token binds nothing");
}

#[test]
fn deadline_turn_reaches_only_attached_players() {
    let mut w = build_world(vec![10, 11], Some(500));
    let session = rid(500);
    attach(&mut w, 0, session);

    // the deadline fires before anyone answers
    w.rt
        .dispatch(Envelope {
            from: w.host_id,
            to: w.sl_id,
            msg: Message::wrap(Payload::Tick),
        })
        .unwrap();
    w.rt.run_rounds(24, 64);

    // the controller observed [{10, none}, {11, none}] and echoed two
    // timeout lines to every player; only the attached player ten sees
    // them
    let inbox = drain_session(&mut w, session);
    let texts: Vec<String> = inbox.into_iter().map(|e| e.1).collect();
    assert_eq!(texts, vec![
        String::from("10: TIMEOUT\n"),
        String::from("11: TIMEOUT\n"),
    ]);
}

#[test]
fn late_join_receives_the_backlog_in_order() {
    let mut w = build_world(vec![10, 11], Some(500));
    let s10 = rid(500);
    attach(&mut w, 0, s10);

    // two turns pass while player eleven is away
    let cc10 = w.pairs[0].1;
    say(&mut w, s10, cc10, 10, "one");
    w.rt
        .dispatch(Envelope { from: w.host_id, to: w.sl_id, msg: Message::wrap(Payload::Tick) })
        .unwrap();
    w.rt.run_rounds(24, 64);
    say(&mut w, s10, cc10, 10, "two");
    w.rt
        .dispatch(Envelope { from: w.host_id, to: w.sl_id, msg: Message::wrap(Payload::Tick) })
        .unwrap();
    w.rt.run_rounds(24, 64);

    // player eleven attaches late and receives the whole backlog in order
    let s11 = rid(501);
    attach(&mut w, 1, s11);
    let inbox = drain_session(&mut w, s11);
    let texts: Vec<String> = inbox.into_iter().map(|e| e.1).collect();
    assert_eq!(texts, vec![
        String::from("10: one\n"),
        String::from("11: TIMEOUT\n"),
        String::from("10: two\n"),
        String::from("11: TIMEOUT\n"),
    ]);
}

#[test]
fn kill_mid_turn_silences_the_match() {
    let mut w = build_world(vec![10, 11], Some(500));
    let s10 = rid(500);
    attach(&mut w, 0, s10);

    // the lock is collecting: player ten answered, eleven did not
    let cc10 = w.pairs[0].1;
    w.rt
        .dispatch(Envelope {
            from: s10,
            to: cc10,
            msg: Message::wrap(Payload::Player(PlayerMsg {
                id: 10,
                data: Some(Data { value: String::from("mid") }),
            })),
        })
        .unwrap();
    w.rt.run_rounds(8, 64);

    // kill while the turn is open
    w.gm.new_request(9);
    assert_eq!(w.gm.handle_kill(w.rt.broker_mut(), 9, w.game), None);
    w.rt.run_rounds(24, 64);

    // the acknowledgement comes back and the match reactor is gone
    let mut acked = false;
    while let Some(env) = w.rt.recv(rid(GM)) {
        let mut env = env;
        let tag = env.msg.tag();
        if tag == mozaic::message::TAG_KILL_ACK {
            if let Ok(Payload::KillAck(corr)) = env.msg.take_as(tag) {
                assert_eq!(w.gm.send_msg(corr, GameOpRes::Kill(Some(()))), Some(
                    GameOpRes::Kill(Some(())),
                ));
                acked = true;
            }
        }
    }
    assert!(acked, "the kill was acknowledged");
    assert!(!w.rt.reactor_exists(w.host_id), "the match reactor exited");
    assert!(!w.rt.reactor_exists(w.sl_id), "the step-lock ended with the match");
    assert!(
        !w.rt.reactor_exists(w.pairs[0].1) && !w.rt.reactor_exists(w.pairs[1].1),
        "the controllers ended with the match",
    );
    let inbox = drain_session(&mut w, s10);
    let tags: Vec<u64> = inbox.iter().map(|e| e.0).collect();
    assert_eq!(
        tags.last(), Some(&TAG_CLOSE),
        "the attached session was told to shut down",
    );

    // a late deadline tick reaches nobody: the dead lock cannot deliver a
    // late turn to the dead match reactor
    let r = w.rt.dispatch(Envelope {
        from: w.host_id,
        to: w.sl_id,
        msg: Message::wrap(Payload::Tick),
    });
    assert!(r.is_err());

    // and the match now reads as gone
    w.gm.new_request(10);
    assert_eq!(
        w.gm.handle_state(w.rt.broker_mut(), 10, w.game),
        Some(GameOpRes::State(None)),
    );

    // the dead controllers reported their exits, so the manager forgot
    // the match's tokens: presenting one again binds nothing
    let s_retry = rid(502);
    w.rt.register_mailbox(s_retry).unwrap();
    w.rt
        .dispatch(Envelope {
            from: rid(EP),
            to: rid(100),
            msg: Message::wrap(Payload::SpawnPlayer(SpawnPlayer::new(w.tokens[1], s_retry))),
        })
        .unwrap();
    w.rt.run_rounds(16, 64);
    assert!(drain_session(&mut w, s_retry).is_empty(), "a dead match's token binds nothing");
}

#[test]
fn steady_state_links_come_in_pairs() {
    let w = {
        let mut w = build_world(vec![10, 11], None);
        w.rt.run_rounds(12, 64);
        w
    };

    // collect every reactor's outgoing non-auto links and check that the
    // peer, where it is itself a reactor, holds a link back
    let ids = [w.host_id, w.sl_id];
    for id in ids {
        let peers = w.rt.peers_of(id).expect("alive");
        for (peer, auto) in peers {
            if auto {
                continue;
            }
            if let Some(back) = w.rt.peers_of(peer) {
                let mut mirrored = false;
                for (q, _) in back {
                    if q == id {
                        mirrored = true;
                    }
                }
                assert!(mirrored, "a steady-state link stands alone");
            }
        }
    }
}

#[test]
fn a_transport_drop_buffers_until_reattach() {
    let mut w = build_world(vec![10, 11], Some(500));
    let s10 = rid(500);
    let s11 = rid(501);
    attach(&mut w, 0, s10);
    attach(&mut w, 1, s11);
    let cc10 = w.pairs[0].1;
    let cc11 = w.pairs[1].1;

    // one full turn reaches both players
    say(&mut w, s10, cc10, 10, "one");
    say(&mut w, s11, cc11, 11, "fine");
    drain_session(&mut w, s10);
    drain_session(&mut w, s11);

    // player eleven's transport drops: the session reports the detach
    w.rt
        .dispatch(Envelope {
            from: s11,
            to: cc11,
            msg: Message::wrap(Payload::PeerClosed(s11)),
        })
        .unwrap();
    w.rt.run_rounds(16, 64);

    // the next turn times out for eleven; its lines buffer at the
    // controller instead of reaching the dead session
    say(&mut w, s10, cc10, 10, "two");
    w.rt
        .dispatch(Envelope { from: w.host_id, to: w.sl_id, msg: Message::wrap(Payload::Tick) })
        .unwrap();
    w.rt.run_rounds(24, 64);
    assert!(drain_session(&mut w, s11).is_empty(), "nothing reaches a dropped session");

    // a fresh session re-attaches under the same token and receives the
    // backlog in order
    let s11b = rid(502);
    attach(&mut w, 1, s11b);
    let inbox = drain_session(&mut w, s11b);
    let texts: Vec<String> = inbox.into_iter().map(|e| e.1).collect();
    assert_eq!(texts, vec![
        String::from("10: two\n"),
        String::from("11: TIMEOUT\n"),
    ]);
}
