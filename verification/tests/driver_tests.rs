use mozaic::broker::Broker;
use mozaic::client_controller::CCReactor;
use mozaic::driver::{Behavior, PollStatus, ReactorDriver};
use mozaic::echo::Echo;
use mozaic::handles::Envelope;
use mozaic::ids::ReactorID;
use mozaic::message::{Message, Payload};

fn rid(n: u64) -> ReactorID {
    ReactorID { high: 8, low: n }
}

#[test]
fn a_destroyed_reactor_unregisters_within_one_step() {
    let rt = rid(0);
    let cc_id = rid(1);
    let host = rid(2);
    let cm = rid(3);
    let mut broker = Broker::new(rt);
    broker.register(cc_id).unwrap();

    let cc = CCReactor::params(10, cm, host, 8);
    let mut d: ReactorDriver<Echo> = ReactorDriver::new(cc_id, Behavior::ClientController(cc));
    // first step: the controller installs its links and waits
    assert_eq!(d.poll(&mut broker, 64), PollStatus::Pending);
    assert!(broker.reactor_exists(cc_id));

    // a kick makes the controller destroy itself; the driver flushes the
    // queue, unregisters and exits within this one scheduling step
    broker
        .dispatch(Envelope {
            from: host,
            to: cc_id,
            msg: Message::wrap(Payload::ClientKicked(10)),
        })
        .unwrap();
    assert_eq!(d.poll(&mut broker, 64), PollStatus::Pending);
    assert_eq!(d.poll(&mut broker, 64), PollStatus::Ready);
    assert!(!broker.reactor_exists(cc_id), "no further message can reach it");
}

#[test]
fn an_undrained_queue_blocks_the_mailbox() {
    // the internal queue is the atomic unit: while operations are still
    // pending the driver pulls no external message and the reactor stays
    let rt = rid(0);
    let id = rid(9);
    let mut broker = Broker::new(rt);
    broker.register(id).unwrap();
    let cc = CCReactor::params(10, rid(3), rid(2), 8);
    let mut d: ReactorDriver<Echo> = ReactorDriver::new(id, Behavior::ClientController(cc));
    // zero fuel: the start-up message stays queued and nothing else runs
    assert_eq!(d.poll(&mut broker, 0), PollStatus::Pending);
    assert!(broker.reactor_exists(id));
    // with fuel the queue drains, the links open, and the reactor waits
    assert_eq!(d.poll(&mut broker, 64), PollStatus::Pending);
    assert!(broker.reactor_exists(id));
}
