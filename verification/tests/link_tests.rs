use mozaic::graph::{set_default, GraphLike};
use mozaic::handles::{Effect, LinkHandle, TargetReactor};
use mozaic::ids::ReactorID;
use mozaic::link::{Closer, Link, LinkAction, LinkOperation, LinkParams};
use mozaic::message::{Message, Payload, TAG_DATA, TAG_PEER_CLOSED, TAG_TICK};
use mozaic::types::Data;

fn rid(n: u64) -> ReactorID {
    ReactorID { high: 4, low: n }
}

fn data_msg(text: &str) -> Message {
    Message::wrap(Payload::Data(Data { value: String::from(text) }))
}

#[test]
fn a_pass_through_handler_forwards_verbatim() {
    let owner = rid(1);
    let peer = rid(2);
    let mut params = LinkParams::new();
    params.internal_handler(TAG_DATA, LinkAction::ToPeer);
    let mut link = Link::new(LinkHandle::new(owner, peer), params);

    link.handle(LinkOperation::Internal(data_msg("through")));
    let mut effects = link.take_effects();
    assert_eq!(effects.len(), 1);
    match &mut effects[0] {
        Effect::External(env) => {
            assert_eq!(env.from, owner);
            assert_eq!(env.to, peer);
            match env.msg.take_as(TAG_DATA) {
                Ok(Payload::Data(d)) => assert_eq!(d.value, "through"),
                other => panic!("the payload changed: {:?}", other),
            }
        },
        other => panic!("not a forward: {:?}", other),
    }
    assert!(link.take_effects().is_empty(), "the effects were drained");
}

#[test]
fn an_injection_handler_republishes_at_its_target() {
    let owner = rid(1);
    let peer = rid(2);
    let aim = rid(3);
    let mut params = LinkParams::new();
    params.external_handler(TAG_DATA, LinkAction::ToReactor(TargetReactor::Link(aim)));
    let mut link = Link::new(LinkHandle::new(owner, peer), params);

    link.handle(LinkOperation::External(data_msg("inward")));
    let effects = link.take_effects();
    assert_eq!(effects.len(), 1);
    assert!(matches!(&effects[0], Effect::Internal(_, TargetReactor::Link(t)) if *t == aim));
}

#[test]
fn a_message_without_a_handler_is_dropped_silently() {
    let mut params = LinkParams::new();
    params.internal_handler(TAG_DATA, LinkAction::ToPeer);
    let mut link = Link::new(LinkHandle::new(rid(1), rid(2)), params);

    link.handle(LinkOperation::Internal(Message::wrap(Payload::Tick)));
    link.handle(LinkOperation::External(data_msg("wrong side")));
    assert!(link.take_effects().is_empty());
}

#[test]
fn a_later_registration_shadows_an_earlier_one() {
    let mut params = LinkParams::new();
    params.internal_handler(TAG_TICK, LinkAction::ToPeer);
    params.internal_handler(TAG_TICK, LinkAction::ToReactor(TargetReactor::Reactor));
    let mut link = Link::new(LinkHandle::new(rid(1), rid(2)), params);

    link.handle(LinkOperation::Internal(Message::wrap(Payload::Tick)));
    let effects = link.take_effects();
    assert_eq!(effects.len(), 1);
    assert!(matches!(&effects[0], Effect::Internal(_, TargetReactor::Reactor)));
}

#[test]
fn the_closer_runs_at_most_once() {
    let peer = rid(2);
    let mut params = LinkParams::new();
    params.closer(Closer::NotifyReactor);
    let mut link = Link::new(LinkHandle::new(rid(1), peer), params);

    link.run_closer();
    let mut effects = link.take_effects();
    assert_eq!(effects.len(), 1);
    match &mut effects[0] {
        Effect::Internal(msg, TargetReactor::Reactor) => {
            assert!(matches!(
                msg.take_as(TAG_PEER_CLOSED),
                Ok(Payload::PeerClosed(p)) if p == peer
            ));
        },
        other => panic!("not a goodbye: {:?}", other),
    }

    link.run_closer();
    assert!(link.take_effects().is_empty(), "the goodbye is owed once");
}

#[test]
fn link_handles_record_their_orders_in_sequence() {
    let owner = rid(1);
    let peer = rid(2);
    let mut h = LinkHandle::new(owner, peer);
    assert_eq!(h.source_id(), owner);
    assert_eq!(h.target_id(), peer);

    h.send_message(Payload::Tick);
    h.send_internal(Payload::Tick, TargetReactor::Reactor);
    h.close_link();
    h.close_link_hard();
    let effects = h.effects;
    assert_eq!(effects.len(), 4);
    assert!(matches!(&effects[0], Effect::External(env) if env.to == peer && env.from == owner));
    assert!(matches!(&effects[1], Effect::Internal(_, TargetReactor::Reactor)));
    assert!(matches!(&effects[2], Effect::CloseLink(p) if *p == peer));
    assert!(matches!(&effects[3], Effect::CloseLinkHard(p) if *p == peer));
}

#[test]
fn the_graph_recorder_tracks_nodes_and_edges() {
    let mut g = set_default();
    let a = rid(1);
    let b = rid(2);
    g.add_node(a);
    g.add_node(b);
    g.add_edge(a, b);
    g.add_edge(b, a);
    assert!(g.contains_edge(a, b));
    assert!(g.contains_edge(b, a));
    g.remove_edge(a, b);
    assert!(!g.contains_edge(a, b));
    assert!(g.contains_edge(b, a));
    g.remove_node(a);
    assert!(g.contains_edge(b, a), "removing a node leaves recorded links alone");
}
