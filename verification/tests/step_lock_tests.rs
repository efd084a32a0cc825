use mozaic::handles::{Effect, ReactorHandle, TargetReactor};
use mozaic::ids::ReactorID;
use mozaic::message::{Payload, TAG_DATA, TAG_TURN};
use mozaic::step_lock::StepLock;
use mozaic::types::{Data, HostMsg, PlayerMsg};

fn rid(n: u64) -> ReactorID {
    ReactorID { high: 1, low: n }
}

fn turn_of(effects: &mut Vec<Effect>, at: usize, host: ReactorID) -> Vec<PlayerMsg> {
    match &mut effects[at] {
        Effect::Internal(msg, TargetReactor::Link(peer)) => {
            assert_eq!(*peer, host, "the turn goes to the match reactor");
            match msg.take_as(TAG_TURN) {
                Ok(Payload::Turn(batch)) => batch,
                other => panic!("not a turn: {:?}", other),
            }
        },
        other => panic!("not an internal send: {:?}", other),
    }
}

fn count_turns(effects: &Vec<Effect>) -> usize {
    let mut n = 0;
    for e in effects {
        if let Effect::Internal(msg, _) = e {
            if msg.tag() == TAG_TURN {
                n += 1;
            }
        }
    }
    n
}

#[test]
fn deadline_tick_reports_every_silent_player() {
    let host = rid(1);
    let roster = vec![(10, rid(100)), (11, rid(101))];
    let mut lock = StepLock::new(host, roster, Some(500));
    assert_eq!(lock.timeout_ms(), Some(500));
    let mut handle = ReactorHandle::new(rid(2));
    lock.handle_host_batch(&mut handle, Vec::new());
    assert_eq!(count_turns(&handle.effects), 0, "no turn before anyone answers");

    lock.handle_tick(&mut handle);
    let mut effects = handle.effects;
    assert_eq!(count_turns(&effects), 1, "the deadline closes exactly one turn");
    let batch = turn_of(&mut effects, 0, host);
    assert_eq!(batch.len(), 2);
    assert_eq!(batch[0], PlayerMsg { id: 10, data: None });
    assert_eq!(batch[1], PlayerMsg { id: 11, data: None });
}

#[test]
fn all_answers_complete_the_turn_without_a_tick() {
    let host = rid(1);
    let roster = vec![(10, rid(100)), (11, rid(101))];
    let mut lock = StepLock::new(host, roster, None);
    let mut handle = ReactorHandle::new(rid(2));
    lock.handle_host_batch(&mut handle, Vec::new());

    lock.handle_player_msg(&mut handle, PlayerMsg {
        id: 10,
        data: Some(Data { value: String::from("a") }),
    });
    assert_eq!(count_turns(&handle.effects), 0, "one answer is still missing");

    lock.handle_player_msg(&mut handle, PlayerMsg {
        id: 11,
        data: Some(Data { value: String::from("b") }),
    });
    let mut effects = handle.effects;
    assert_eq!(count_turns(&effects), 1);
    let batch = turn_of(&mut effects, 0, host);
    assert_eq!(batch, vec![
        PlayerMsg { id: 10, data: Some(Data { value: String::from("a") }) },
        PlayerMsg { id: 11, data: Some(Data { value: String::from("b") }) },
    ]);
}

#[test]
fn unexpected_answers_change_nothing() {
    let host = rid(1);
    let mut lock = StepLock::new(host, vec![(10, rid(100))], None);
    let mut handle = ReactorHandle::new(rid(2));
    lock.handle_host_batch(&mut handle, Vec::new());
    let before = handle.effects.len();

    // an unrostered player
    lock.handle_player_msg(&mut handle, PlayerMsg {
        id: 99,
        data: Some(Data { value: String::from("?") }),
    });
    assert_eq!(handle.effects.len(), before);

    // a second answer from the same player
    lock.handle_player_msg(&mut handle, PlayerMsg {
        id: 10,
        data: Some(Data { value: String::from("x") }),
    });
    let after_first = handle.effects.len();
    lock.handle_player_msg(&mut handle, PlayerMsg {
        id: 10,
        data: Some(Data { value: String::from("y") }),
    });
    assert_eq!(handle.effects.len(), after_first);
}

#[test]
fn stray_tick_while_broadcasting_changes_nothing() {
    let host = rid(1);
    let mut lock = StepLock::new(host, vec![(10, rid(100))], Some(1));
    let mut handle = ReactorHandle::new(rid(2));
    lock.handle_tick(&mut handle);
    assert!(handle.effects.is_empty());
}

#[test]
fn targeted_traffic_reaches_only_its_controller() {
    let host = rid(1);
    let cc10 = rid(100);
    let cc11 = rid(101);
    let mut lock = StepLock::new(host, vec![(10, cc10), (11, cc11)], None);
    let mut handle = ReactorHandle::new(rid(2));
    let batch = vec![HostMsg::Data(Data { value: String::from("only for ten") }, Some(10))];
    lock.handle_host_batch(&mut handle, batch);

    let mut data_targets: Vec<ReactorID> = Vec::new();
    for e in &mut handle.effects {
        if let Effect::Internal(msg, TargetReactor::Link(peer)) = e {
            if msg.tag() == TAG_DATA {
                data_targets.push(*peer);
            }
        }
    }
    assert_eq!(data_targets, vec![cc10]);
}

#[test]
fn broadcast_traffic_reaches_every_controller_in_roster_order() {
    let host = rid(1);
    let cc10 = rid(100);
    let cc11 = rid(101);
    let mut lock = StepLock::new(host, vec![(10, cc10), (11, cc11)], None);
    let mut handle = ReactorHandle::new(rid(2));
    let batch = vec![HostMsg::Data(Data { value: String::from("all hands") }, None)];
    lock.handle_host_batch(&mut handle, batch);

    let mut data_targets: Vec<ReactorID> = Vec::new();
    for e in &mut handle.effects {
        if let Effect::Internal(msg, TargetReactor::Link(peer)) = e {
            if msg.tag() == TAG_DATA {
                data_targets.push(*peer);
            }
        }
    }
    assert_eq!(data_targets, vec![cc10, cc11]);
}

#[test]
fn dropping_the_last_expected_player_completes_the_turn() {
    let host = rid(1);
    let mut lock = StepLock::new(host, vec![(10, rid(100)), (11, rid(101))], None);
    let mut handle = ReactorHandle::new(rid(2));
    lock.handle_host_batch(&mut handle, Vec::new());
    lock.handle_player_msg(&mut handle, PlayerMsg {
        id: 10,
        data: Some(Data { value: String::from("a") }),
    });
    assert_eq!(count_turns(&handle.effects), 0);

    lock.handle_drop_player(&mut handle, 11);
    let mut effects = handle.effects;
    assert_eq!(count_turns(&effects), 1);
    let batch = turn_of(&mut effects, 0, host);
    assert_eq!(batch, vec![
        PlayerMsg { id: 10, data: Some(Data { value: String::from("a") }) },
        PlayerMsg { id: 11, data: None },
    ]);
}

#[test]
fn teardown_kicks_every_rostered_controller() {
    let host = rid(1);
    let cc10 = rid(100);
    let cc11 = rid(101);
    let mut lock = StepLock::new(host, vec![(10, cc10), (11, cc11)], None);
    let mut handle = ReactorHandle::new(rid(2));
    lock.handle_close(&mut handle);
    let mut effects = handle.effects;
    assert_eq!(effects.len(), 3);
    for (at, player, cc) in [(0usize, 10u64, cc10), (1, 11, cc11)] {
        match &mut effects[at] {
            Effect::Internal(msg, TargetReactor::Link(to)) => {
                assert_eq!(*to, cc);
                assert!(matches!(
                    msg.take_as(mozaic::message::TAG_CLIENT_KICKED),
                    Ok(Payload::ClientKicked(p)) if p == player
                ));
            },
            other => panic!("unexpected: {:?}", other),
        }
    }
    assert!(matches!(effects[2], Effect::Destroy));
}
