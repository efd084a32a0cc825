use mozaic::client_manager::ClientManager;
use mozaic::handles::{Effect, ReactorHandle, TargetReactor};
use mozaic::ids::ReactorID;
use mozaic::message::{Payload, TAG_ACCEPTED, TAG_PLAYER_UUIDS};
use mozaic::net::{RegisterGame, SpawnPlayer};

fn rid(n: u64) -> ReactorID {
    ReactorID { high: 0, low: n }
}

fn tokens_of(effects: &mut Vec<Effect>, at: usize) -> Vec<u64> {
    match &mut effects[at] {
        Effect::Internal(msg, _) => match msg.take_as(TAG_PLAYER_UUIDS) {
            Ok(Payload::PlayerUUIDs(u)) => u.ids,
            other => panic!("not a token list: {:?}", other),
        },
        other => panic!("not an internal send: {:?}", other),
    }
}

#[test]
fn tokens_stay_distinct_across_matches() {
    let gm = rid(1);
    let mut cm = ClientManager::new(gm);
    let mut handle = ReactorHandle::new(rid(2));

    let first = RegisterGame { game: 7, players: vec![(10, rid(100)), (11, rid(101))] };
    cm.handle_spawn_game(&mut handle, &first);
    let second = RegisterGame { game: 8, players: vec![(10, rid(200)), (12, rid(201))] };
    cm.handle_spawn_game(&mut handle, &second);

    let mut effects = handle.effects;
    // token list, two link opens, token list, two link opens
    assert_eq!(effects.len(), 6);
    let mut all = tokens_of(&mut effects, 0);
    all.extend(tokens_of(&mut effects, 3));
    assert_eq!(all.len(), 4);
    for i in 0..all.len() {
        for j in 0..i {
            assert_ne!(all[i], all[j], "two equal tokens were minted");
        }
    }
}

#[test]
fn spawn_game_answers_the_supervisor_and_links_the_controllers() {
    let gm = rid(1);
    let mut cm = ClientManager::new(gm);
    let mut handle = ReactorHandle::new(rid(2));
    let reg = RegisterGame { game: 42, players: vec![(10, rid(100))] };
    cm.handle_spawn_game(&mut handle, &reg);

    let mut effects = handle.effects;
    assert_eq!(effects.len(), 2);
    match &effects[0] {
        Effect::Internal(_, TargetReactor::Link(peer)) => assert_eq!(*peer, gm),
        other => panic!("unexpected first effect: {:?}", other),
    }
    let ids = tokens_of(&mut effects, 0);
    assert_eq!(ids.len(), 1);
    match &effects[1] {
        Effect::OpenLink(peer, _, auto) => {
            assert_eq!(*peer, rid(100));
            assert!(*auto, "the controller link is an auto link");
        },
        other => panic!("unexpected second effect: {:?}", other),
    }
}

#[test]
fn known_token_attaches_exactly_one_session() {
    let gm = rid(1);
    let mut cm = ClientManager::new(gm);
    let mut handle = ReactorHandle::new(rid(2));
    let reg = RegisterGame { game: 1, players: vec![(10, rid(100))] };
    cm.handle_spawn_game(&mut handle, &reg);
    let mut effects = handle.effects;
    let token = tokens_of(&mut effects, 0)[0];

    let mut handle = ReactorHandle::new(rid(2));
    cm.handle_player_regiser(&mut handle, &SpawnPlayer::new(token, rid(500)));
    let mut effects = handle.effects;
    assert_eq!(effects.len(), 1, "exactly one acceptance per binding request");
    match &mut effects[0] {
        Effect::Internal(msg, TargetReactor::Link(peer)) => {
            assert_eq!(*peer, rid(100), "the acceptance goes to the token's controller");
            match msg.take_as(TAG_ACCEPTED) {
                Ok(Payload::Accepted(acc)) => {
                    assert_eq!(acc.player, 10);
                    assert_eq!(acc.client_id, rid(500));
                    assert_eq!(acc.contr_id, rid(100));
                },
                other => panic!("not an acceptance: {:?}", other),
            }
        },
        other => panic!("unexpected effect: {:?}", other),
    }
}

#[test]
fn unknown_token_is_dropped_silently() {
    let gm = rid(1);
    let mut cm = ClientManager::new(gm);
    let mut handle = ReactorHandle::new(rid(2));
    cm.handle_player_regiser(&mut handle, &SpawnPlayer::new(0xbad, rid(500)));
    assert!(handle.effects.is_empty());
}

#[test]
fn closing_a_controller_forgets_its_tokens() {
    let gm = rid(1);
    let mut cm = ClientManager::new(gm);
    let mut handle = ReactorHandle::new(rid(2));
    let reg = RegisterGame { game: 1, players: vec![(10, rid(100)), (11, rid(101))] };
    cm.handle_spawn_game(&mut handle, &reg);
    let mut effects = handle.effects;
    let ids = tokens_of(&mut effects, 0);

    let mut handle = ReactorHandle::new(rid(2));
    let gone = rid(100);
    cm.handle_cc_close(&mut handle, &gone);

    // the first player's token no longer binds anything
    let mut handle = ReactorHandle::new(rid(2));
    cm.handle_player_regiser(&mut handle, &SpawnPlayer::new(ids[0], rid(500)));
    assert!(handle.effects.is_empty());

    // the second player's token still does
    let mut handle = ReactorHandle::new(rid(2));
    cm.handle_player_regiser(&mut handle, &SpawnPlayer::new(ids[1], rid(501)));
    assert_eq!(handle.effects.len(), 1);
}
