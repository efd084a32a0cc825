//! The runtime: a deterministic scheduler over the broker and a set of
//! reactor drivers.
//!
//! Every suspension of the system is observable as a message, so tests can
//! drive whole reactor graphs step by step: spawn reactors, inject
//! external messages, and poll drivers until the graph goes quiet. The
//! broker's registry always keeps one entry per live reactor, under
//! pairwise distinct identifiers.

use vstd::prelude::*;

use crate::broker::{self, Broker};
use crate::client_controller::CCReactor;
use crate::driver::{Behavior, InternalOp, PollStatus, ReactorDriver};
use crate::errors::ErrorKind;
use crate::game_host::{Controller, GameHost};
use crate::graph::Graph;
use crate::handles::{Envelope, TargetReactor};
use crate::ids::ReactorID;
use crate::message::{Message, Payload};
use crate::step_lock::{Phase, StepLock};
use crate::types::PlayerId;

verus! {

/// The first driver recorded for a reactor identifier, if any.
pub open spec fn driver_lookup<C: Controller>(s: Seq<ReactorDriver<C>>, id: ReactorID) -> Option<
    ReactorDriver<C>,
>
    decreases s.len(),
{
    if s.len() == 0 {
        Option::None
    } else if s[0].spec_id() == id {
        Option::Some(s[0])
    } else {
        driver_lookup(s.drop_first(), id)
    }
}

/// The deterministic reactor runtime.
pub struct Runtime<C> {
    broker: Broker,
    drivers: Vec<ReactorDriver<C>>,
    graph: Graph,
}

impl<C: Controller> Runtime<C> {
    /// The broker, as a specification value.
    pub closed spec fn spec_broker(&self) -> Broker {
        self.broker
    }

    /// The drivers, as a specification value.
    pub closed spec fn spec_drivers(&self) -> Seq<ReactorDriver<C>> {
        self.drivers@
    }

    /// The runtime's invariant: the registry carries pairwise distinct
    /// identifiers, every component invariant holds, every live driver's
    /// reactor is registered — so a message to it can be dispatched until
    /// the moment it exits — and no two drivers share an identifier.
    pub open spec fn wf(&self) -> bool {
        broker::ids_distinct(self.spec_broker().spec_actors()) && (forall|k: int|
            0 <= k < self.spec_drivers().len() ==> (#[trigger] self.spec_drivers()[k]).wf())
            && (forall|k: int| 0 <= k < self.spec_drivers().len()
            ==> self.spec_broker().registered((#[trigger] self.spec_drivers()[k]).spec_id()))
            && (forall|k1: int, k2: int| 0 <= k1 < k2 < self.spec_drivers().len()
            ==> (#[trigger] self.spec_drivers()[k1]).spec_id() != (
            #[trigger] self.spec_drivers()[k2]).spec_id())
    }

    /// A runtime with no reactors, under a freshly drawn runtime
    /// identifier.
    pub fn new() -> (r: Runtime<C>)
        ensures
            r.wf(),
            r.spec_drivers().len() == 0,
    {
        let rt_id = ReactorID::rand();
        let r = Runtime {
            broker: Broker::new(rt_id),
            drivers: Vec::new(),
            graph: crate::graph::set_default(),
        };
        r
    }

    /// Whether `id` is registered with the broker.
    pub fn reactor_exists(&self, id: ReactorID) -> (r: bool)
        ensures
            r == self.spec_broker().registered(id),
    {
        self.broker.reactor_exists(id)
    }

    /// Register a mailbox for a reactor-like frontend that is driven from
    /// outside rather than by a driver.
    pub fn register_mailbox(&mut self, id: ReactorID) -> (r: Result<(), ErrorKind>)
        requires
            old(self).wf(),
        ensures
            final(self).wf(),
            r is Ok <==> !old(self).spec_broker().registered(id),
            r is Ok ==> final(self).spec_broker().registered(id),
            forall|x: ReactorID| #[trigger] broker::has_actor(
                old(self).spec_broker().spec_actors(),
                x,
            ) ==> broker::has_actor(final(self).spec_broker().spec_actors(), x),
    {
        let ghost pre = self.broker.spec_actors();
        let res = self.broker.register(id);
        proof {
            assert forall|x: ReactorID| #[trigger] broker::has_actor(pre, x)
                implies broker::has_actor(self.spec_broker().spec_actors(), x) by {
                broker::lemma_has_actor_push(pre, (id, Seq::<Envelope>::empty()), x);
            }
        }
        proof {
            if !broker::has_actor(pre, id) {
                broker::lemma_ids_distinct_push(pre, (id, Seq::<Envelope>::empty()));
                broker::lemma_has_actor_push(pre, (id, Seq::<Envelope>::empty()), id);
            }
            assert(self.spec_drivers() == old(self).spec_drivers());
            assert forall|k: int| 0 <= k < self.spec_drivers().len() implies ((
            #[trigger] self.spec_drivers()[k]).wf() && self.spec_broker().registered(
                self.spec_drivers()[k].spec_id(),
            )) by {
                assert(self.spec_drivers()[k] == old(self).spec_drivers()[k]);
                assert(old(self).spec_broker().registered(old(self).spec_drivers()[k].spec_id()));
                broker::lemma_has_actor_push(
                    pre,
                    (id, Seq::<Envelope>::empty()),
                    self.spec_drivers()[k].spec_id(),
                );
            }
        }
        match res {
            Ok(()) => Ok(()),
            Err(e) => Err(e),
        }
    }

    /// Spawn a reactor: register its mailbox and start a driver around its
    /// component. The new driver holds the given component, no links yet,
    /// and exactly the start-up message queued, so the component installs
    /// its links when the driver first runs; the registry entry exists
    /// from this moment on.
    pub fn spawn(&mut self, id: ReactorID, behavior: Behavior<C>) -> (r: Result<(), ErrorKind>)
        requires
            old(self).wf(),
            behavior.wf(),
        ensures
            final(self).wf(),
            r is Ok <==> !old(self).spec_broker().registered(id),
            r is Ok ==> final(self).spec_broker().registered(id),
            forall|x: ReactorID| #[trigger] broker::has_actor(
                old(self).spec_broker().spec_actors(),
                x,
            ) ==> broker::has_actor(final(self).spec_broker().spec_actors(), x),
            r is Err ==> final(self).spec_drivers() == old(self).spec_drivers(),
            r is Ok ==> ({
                let d = final(self).spec_drivers().last();
                &&& final(self).spec_drivers().len() == old(self).spec_drivers().len() + 1
                &&& final(self).spec_drivers().take(old(self).spec_drivers().len() as int)
                    == old(self).spec_drivers()
                &&& d.spec_id() == id
                &&& d.spec_behavior() == behavior
                &&& d.spec_queue() == seq![
                    InternalOp::Msg(
                        Message::wrap_spec(Payload::Initialize),
                        TargetReactor::Reactor,
                    ),
                ]
                &&& d.spec_links().len() == 0
                &&& !d.spec_should_close()
            }),
    {
        let ghost pre = self.broker.spec_actors();
        match self.broker.register(id) {
            Ok(()) => {
                proof {
                    broker::lemma_ids_distinct_push(pre, (id, Seq::<Envelope>::empty()));
                    broker::lemma_has_actor_push(pre, (id, Seq::<Envelope>::empty()), id);
                    assert forall|x: ReactorID| #[trigger] broker::has_actor(pre, x)
                        implies broker::has_actor(self.spec_broker().spec_actors(), x) by {
                        broker::lemma_has_actor_push(pre, (id, Seq::<Envelope>::empty()), x);
                    }
                }
                self.graph.record_node(id);
                let ghost before = self.drivers@;
                let nd = ReactorDriver::new(id, behavior);
                let ghost nd_g = nd;
                self.drivers.push(nd);
                proof {
                    assert(before == old(self).spec_drivers());
                    assert(self.spec_drivers().take(before.len() as int) =~= before);
                    assert forall|k: int| 0 <= k < self.spec_drivers().len() implies ((
                    #[trigger] self.spec_drivers()[k]).wf() && self.spec_broker().registered(
                        self.spec_drivers()[k].spec_id(),
                    )) by {
                        if k < before.len() {
                            assert(self.spec_drivers()[k] == before[k]);
                            assert(old(self).spec_drivers()[k].wf());
                            assert(old(self).spec_broker().registered(
                                old(self).spec_drivers()[k].spec_id(),
                            ));
                            broker::lemma_has_actor_push(
                                pre,
                                (id, Seq::<Envelope>::empty()),
                                self.spec_drivers()[k].spec_id(),
                            );
                        } else {
                            assert(self.spec_drivers()[k] == nd_g);
                        }
                    }
                    assert forall|k1: int, k2: int| 0 <= k1 < k2 < self.spec_drivers().len()
                        implies (#[trigger] self.spec_drivers()[k1]).spec_id() != (
                        #[trigger] self.spec_drivers()[k2]).spec_id() by {
                        if k2 == before.len() {
                            assert(self.spec_drivers()[k1] == before[k1]);
                            assert(self.spec_drivers()[k2] == nd_g);
                            assert(old(self).spec_broker().registered(
                                old(self).spec_drivers()[k1].spec_id(),
                            ));
                        } else {
                            assert(self.spec_drivers()[k1] == before[k1]);
                            assert(self.spec_drivers()[k2] == before[k2]);
                        }
                    }
                }
                Ok(())
            },
            Err(e) => {
                proof {
                    assert(self.spec_drivers() == old(self).spec_drivers());
                    assert(self.spec_broker().spec_actors() == old(self).spec_broker().spec_actors());
                    assert forall|k: int| 0 <= k < self.spec_drivers().len() implies ((
                    #[trigger] self.spec_drivers()[k]).wf() && self.spec_broker().registered(
                        self.spec_drivers()[k].spec_id(),
                    )) by {
                        assert(self.spec_drivers()[k] == old(self).spec_drivers()[k]);
                        assert(old(self).spec_broker().registered(
                            old(self).spec_drivers()[k].spec_id(),
                        ));
                    }
                    assert forall|x: ReactorID| #[trigger] broker::has_actor(pre, x)
                        implies broker::has_actor(self.spec_broker().spec_actors(), x) by {
                        assert(broker::has_actor(self.spec_broker().spec_actors(), x)
                            == broker::has_actor(pre, x));
                    }
                }
                Err(e)
            },
        }
    }

    /// Inject an external message: it lands at the back of the receiver's
    /// mailbox. A message to an unregistered receiver fails with
    /// `NoSuchReactor` and no reactor observes anything; one to the
    /// runtime identifier itself is refused.
    pub fn dispatch(&mut self, env: Envelope) -> (r: Result<(), ErrorKind>)
        requires
            old(self).wf(),
        ensures
            final(self).wf(),
            final(self).spec_drivers() == old(self).spec_drivers(),
            env.to == old(self).spec_broker().spec_runtime_id() ==> (r
                == Result::<(), ErrorKind>::Err(ErrorKind::Internal)
                && final(self).spec_broker().spec_actors()
                    == old(self).spec_broker().spec_actors()),
            env.to != old(self).spec_broker().spec_runtime_id() && !old(
                self,
            ).spec_broker().registered(env.to) ==> (r == Result::<(), ErrorKind>::Err(
                ErrorKind::NoSuchReactor,
            ) && final(self).spec_broker().spec_actors() == old(self).spec_broker().spec_actors()),
            env.to != old(self).spec_broker().spec_runtime_id() && old(
                self,
            ).spec_broker().registered(env.to) ==> (r == Result::<(), ErrorKind>::Ok(())
                && final(self).spec_broker().mailbox(env.to)
                    == old(self).spec_broker().mailbox(env.to).push(env)),
    {
        let ghost pre = self.broker.spec_actors();
        let ghost to = env.to;
        let ghost env_g = env;
        let res = self.broker.dispatch(env);
        proof {
            broker::lemma_with_mailbox_preserves(
                pre,
                to,
                broker::mailbox_of(pre, to).push(env_g),
            );
            if to != old(self).spec_broker().spec_runtime_id() && broker::has_actor(pre, to) {
                broker::lemma_with_mailbox_get(pre, to, broker::mailbox_of(pre, to).push(env_g));
            }
            assert(self.spec_drivers() == old(self).spec_drivers());
            assert forall|k: int| 0 <= k < self.spec_drivers().len() implies ((
            #[trigger] self.spec_drivers()[k]).wf() && self.spec_broker().registered(
                self.spec_drivers()[k].spec_id(),
            )) by {
                assert(self.spec_drivers()[k] == old(self).spec_drivers()[k]);
                assert(old(self).spec_broker().registered(old(self).spec_drivers()[k].spec_id()));
            }
        }
        res
    }

    /// Take the front message of a reactor-like frontend's mailbox, if
    /// any.
    pub fn recv(&mut self, id: ReactorID) -> (r: Option<Envelope>)
        requires
            old(self).wf(),
        ensures
            final(self).wf(),
            final(self).spec_drivers() == old(self).spec_drivers(),
            old(self).spec_broker().mailbox(id).len() == 0 ==> (r is None
                && final(self).spec_broker().spec_actors()
                    == old(self).spec_broker().spec_actors()),
            old(self).spec_broker().mailbox(id).len() > 0 ==> (r == Some(
                old(self).spec_broker().mailbox(id)[0],
            ) && final(self).spec_broker().mailbox(id)
                == old(self).spec_broker().mailbox(id).drop_first()),
    {
        let ghost pre = self.broker.spec_actors();
        let res = self.broker.recv(id);
        proof {
            broker::lemma_with_mailbox_preserves(
                pre,
                id,
                broker::mailbox_of(pre, id).drop_first(),
            );
            if broker::mailbox_of(pre, id).len() > 0 {
                broker::lemma_mailbox_needs_actor(pre, id);
                broker::lemma_with_mailbox_get(
                    pre,
                    id,
                    broker::mailbox_of(pre, id).drop_first(),
                );
            }
            assert(self.spec_drivers() == old(self).spec_drivers());
            assert forall|k: int| 0 <= k < self.spec_drivers().len() implies ((
            #[trigger] self.spec_drivers()[k]).wf() && self.spec_broker().registered(
                self.spec_drivers()[k].spec_id(),
            )) by {
                assert(self.spec_drivers()[k] == old(self).spec_drivers()[k]);
                assert(old(self).spec_broker().registered(old(self).spec_drivers()[k].spec_id()));
            }
        }
        res
    }

    /// Borrow the broker for a frontend that talks to the graph directly,
    /// such as the game supervisor.
    pub fn broker_mut(&mut self) -> (r: &mut Broker)
        ensures
            *r == old(self).spec_broker(),
            final(self).spec_broker() == *final(r),
            final(self).spec_drivers() == old(self).spec_drivers(),
    {
        &mut self.broker
    }

    /// How many drivers are still alive.
    pub fn driver_count(&self) -> (r: usize)
        ensures
            r == self.spec_drivers().len(),
    {
        self.drivers.len()
    }

    /// The link peers of the reactor `id`, with each link's auto mark:
    /// the driver's link table projected to (peer, auto), in table order.
    pub fn peers_of(&self, id: ReactorID) -> (r: Option<Vec<(ReactorID, bool)>>)
        ensures
            driver_lookup(self.spec_drivers(), id) is None ==> r is None,
            (driver_lookup(self.spec_drivers(), id) matches Some(d) ==> (r matches Some(v) && v@
                == d.spec_links().map_values(
                |e: (ReactorID, crate::link::Link, bool)| (e.0, e.2),
            ))),
    {
        let ghost drivers0 = self.drivers@;
        let mut i: usize = 0;
        let n = self.drivers.len();
        proof {
            assert(drivers0.skip(0) =~= drivers0);
        }
        while i < n
            invariant
                i <= n,
                n == self.drivers@.len(),
                self.drivers@ == drivers0,
                driver_lookup(drivers0, id) == driver_lookup(drivers0.skip(i as int), id),
            decreases n - i,
        {
            proof {
                assert(drivers0.skip(i as int)[0] == drivers0[i as int]);
                assert(drivers0.skip(i as int).drop_first() =~= drivers0.skip(i as int + 1));
            }
            if self.drivers[i].id() == id {
                return Some(self.drivers[i].link_peers());
            }
            i = i + 1;
        }
        proof {
            assert(drivers0.skip(i as int) =~= Seq::<ReactorDriver<C>>::empty());
        }
        None
    }

    /// Poll the driver at index `k` for one scheduling step. A driver
    /// that stays alive is re-queued at the back; one that exits is
    /// removed together with its registry entry, so the registry keeps
    /// matching the live reactors — and no other reactor's registration
    /// is ever disturbed.
    pub fn poll_at(&mut self, k: usize, fuel: usize)
        requires
            old(self).wf(),
            k < old(self).spec_drivers().len(),
        ensures
            final(self).wf(),
            ({
                let polled = old(self).spec_drivers()[k as int];
                let rest = old(self).spec_drivers().remove(k as int);
                &&& (forall|x: ReactorID| x != polled.spec_id() ==> #[trigger] broker::has_actor(
                    final(self).spec_broker().spec_actors(),
                    x,
                ) == broker::has_actor(old(self).spec_broker().spec_actors(), x))
                &&& (final(self).spec_drivers().len() == rest.len() + 1 ==> (
                    final(self).spec_drivers().take(rest.len() as int) == rest
                    && final(self).spec_drivers().last().spec_id() == polled.spec_id()))
                &&& (final(self).spec_drivers().len() == rest.len() ==> (
                    final(self).spec_drivers() == rest
                    && !final(self).spec_broker().registered(polled.spec_id())))
                &&& (final(self).spec_drivers().len() == rest.len()
                    || final(self).spec_drivers().len() == rest.len() + 1)
            }),
    {
        let ghost before = self.drivers@;
        let mut d = self.drivers.remove(k);
        proof {
            assert(before[k as int].wf());
        }
        let ghost d_id = d.spec_id();
        let ghost pre_actors = self.broker.spec_actors();
        let status = d.poll(&mut self.broker, fuel);
        match status {
            PollStatus::Pending => {
                let ghost mid = self.drivers@;
                let ghost d_g = d;
                self.drivers.push(d);
                proof {
                    assert(mid =~= before.remove(k as int));
                    assert(self.spec_drivers().take(mid.len() as int) =~= mid);
                    assert forall|j: int| 0 <= j < self.spec_drivers().len() implies ((
                    #[trigger] self.spec_drivers()[j]).wf() && self.spec_broker().registered(
                        self.spec_drivers()[j].spec_id(),
                    )) by {
                        if j < mid.len() {
                            assert(self.spec_drivers()[j] == mid[j]);
                            if j < k {
                                assert(mid[j] == before[j]);
                                assert(old(self).spec_drivers()[j].wf());
                                assert(old(self).spec_broker().registered(before[j].spec_id()));
                            } else {
                                assert(mid[j] == before[j + 1]);
                                assert(old(self).spec_drivers()[j + 1].wf());
                                assert(old(self).spec_broker().registered(
                                    before[j + 1].spec_id(),
                                ));
                            }
                            assert(broker::has_actor(
                                self.spec_broker().spec_actors(),
                                self.spec_drivers()[j].spec_id(),
                            ) == broker::has_actor(pre_actors, self.spec_drivers()[j].spec_id()));
                        } else {
                            assert(self.spec_drivers()[j] == d_g);
                            assert(old(self).spec_broker().registered(d_id));
                            assert(broker::has_actor(self.spec_broker().spec_actors(), d_id)
                                == broker::has_actor(pre_actors, d_id));
                        }
                    }
                    assert forall|k1: int, k2: int| 0 <= k1 < k2 < self.spec_drivers().len()
                        implies (#[trigger] self.spec_drivers()[k1]).spec_id() != (
                        #[trigger] self.spec_drivers()[k2]).spec_id() by {
                        let o1: int = if k1 < k { k1 } else { k1 + 1 };
                        if k2 == mid.len() {
                            assert(self.spec_drivers()[k1] == mid[k1]);
                            assert(mid[k1] == before[o1]);
                            assert(self.spec_drivers()[k2] == d_g);
                            if o1 < k {
                                assert(before[o1].spec_id() != before[k as int].spec_id());
                            } else {
                                assert(before[k as int].spec_id() != before[o1].spec_id());
                            }
                        } else {
                            let o2: int = if k2 < k { k2 } else { k2 + 1 };
                            assert(self.spec_drivers()[k1] == mid[k1]);
                            assert(self.spec_drivers()[k2] == mid[k2]);
                            assert(mid[k1] == before[o1]);
                            assert(mid[k2] == before[o2]);
                            assert(before[o1].spec_id() != before[o2].spec_id());
                        }
                    }
                }
            },
            PollStatus::Ready => {
                self.graph.erase_node(d.id());
                proof {
                    assert(self.drivers@ =~= before.remove(k as int));
                    assert forall|j: int| 0 <= j < self.spec_drivers().len() implies ((
                    #[trigger] self.spec_drivers()[j]).wf() && self.spec_broker().registered(
                        self.spec_drivers()[j].spec_id(),
                    )) by {
                        let o: int = if j < k {
                            j
                        } else {
                            j + 1
                        };
                        assert(self.spec_drivers()[j] == before[o]);
                        assert(old(self).spec_drivers()[o].wf());
                        assert(old(self).spec_broker().registered(before[o].spec_id()));
                        if o < k {
                            assert(before[o].spec_id() != before[k as int].spec_id());
                        } else {
                            assert(before[k as int].spec_id() != before[o].spec_id());
                        }
                        assert(broker::has_actor(
                            self.spec_broker().spec_actors(),
                            before[o].spec_id(),
                        ) == broker::has_actor(pre_actors, before[o].spec_id()));
                    }
                    assert forall|k1: int, k2: int| 0 <= k1 < k2 < self.spec_drivers().len()
                        implies (#[trigger] self.spec_drivers()[k1]).spec_id() != (
                        #[trigger] self.spec_drivers()[k2]).spec_id() by {
                        let o1: int = if k1 < k { k1 } else { k1 + 1 };
                        let o2: int = if k2 < k { k2 } else { k2 + 1 };
                        assert(self.spec_drivers()[k1] == before[o1]);
                        assert(self.spec_drivers()[k2] == before[o2]);
                        assert(before[o1].spec_id() != before[o2].spec_id());
                    }
                }
            },
        }
    }

    /// Poll every driver once, newest first; exited reactors leave the
    /// set, so it never grows.
    pub fn run_round(&mut self, fuel: usize)
        requires
            old(self).wf(),
        ensures
            final(self).wf(),
            final(self).spec_drivers().len() <= old(self).spec_drivers().len(),
    {
        let mut k = self.drivers.len();
        while k > 0
            invariant
                self.wf(),
                self.spec_drivers().len() <= old(self).spec_drivers().len(),
            decreases k,
        {
            k = k - 1;
            if k < self.drivers.len() {
                self.poll_at(k, fuel);
            }
        }
    }

    /// Poll the whole graph for a number of rounds.
    pub fn run_rounds(&mut self, rounds: usize, fuel: usize)
        requires
            old(self).wf(),
        ensures
            final(self).wf(),
            final(self).spec_drivers().len() <= old(self).spec_drivers().len(),
    {
        let mut r: usize = 0;
        while r < rounds
            invariant
                self.wf(),
                self.spec_drivers().len() <= old(self).spec_drivers().len(),
            decreases rounds - r,
        {
            self.run_round(fuel);
            r = r + 1;
        }
    }

    /// Build one match's reactor graph: one client controller per player,
    /// a step-lock rostering exactly the returned player-to-controller
    /// pairs, and the match reactor around the given controller, each
    /// registered and wired to the others. The identifiers are drawn
    /// fresh; a draw that collides with a registered reactor fails the
    /// build with `Duplicate`, and the caller retries.
    pub fn build_match(
        &mut self,
        controller: C,
        players: Vec<PlayerId>,
        cm_id: ReactorID,
        gm_id: ReactorID,
        timeout_ms: Option<u64>,
        cap: usize,
    ) -> (r: Result<(ReactorID, Vec<(PlayerId, ReactorID)>), ErrorKind>)
        requires
            old(self).wf(),
            cap >= 1,
        ensures
            final(self).wf(),
            (r matches Ok((host, pairs)) ==> ({
                let n = players@.len();
                let base = old(self).spec_drivers().len();
                let drv = final(self).spec_drivers();
                &&& pairs@.len() == n
                &&& drv.len() == base + n + 2
                &&& drv.take(base as int) == old(self).spec_drivers()
                &&& final(self).spec_broker().registered(host)
                &&& (forall|k: int| 0 <= k < n ==> (#[trigger] pairs@[k]).0 == players@[k])
                &&& (forall|k: int| 0 <= k < n ==> final(self).spec_broker().registered(
                    (#[trigger] pairs@[k]).1,
                ))
                &&& (forall|k: int| 0 <= k < n ==> ({
                    let d = #[trigger] drv[base + k];
                    &&& d.spec_id() == pairs@[k].1
                    &&& (d.spec_behavior() matches Behavior::ClientController(cc)
                        && cc.spec_player() == players@[k]
                        && cc.spec_client_manager() == cm_id
                        && cc.spec_host() == drv[base as int + n as int].spec_id()
                        && cc.spec_cap() == cap
                        && !cc.spec_connected())
                }))
                &&& (drv[base as int + n as int].spec_behavior() matches Behavior::StepLock(sl)
                    && sl.spec_host() == host
                    && sl.spec_roster() == pairs@
                    && sl.spec_phase() == Phase::Broadcasting
                    && sl.spec_timeout_ms() == timeout_ms)
                &&& drv.last().spec_id() == host
                &&& (drv.last().spec_behavior() matches Behavior::GameHost(h)
                    && h.spec_step_lock() == drv[base as int + n as int].spec_id()
                    && h.spec_game_manager() == gm_id
                    && !h.spec_done())
            })),
    {
        let ghost base = self.drivers@.len();
        let ghost drivers0 = self.drivers@;
        let host_id = ReactorID::rand();
        let sl_id = ReactorID::rand();
        let mut pairs: Vec<(PlayerId, ReactorID)> = Vec::new();
        let mut i: usize = 0;
        proof {
            assert(self.spec_drivers().take(base as int) =~= drivers0);
        }
        while i < players.len()
            invariant
                i <= players@.len(),
                self.wf(),
                cap >= 1,
                base == drivers0.len(),
                drivers0 == old(self).spec_drivers(),
                pairs@.len() == i,
                self.spec_drivers().len() == base + i,
                self.spec_drivers().take(base as int) == drivers0,
                forall|k: int| 0 <= k < i ==> (#[trigger] pairs@[k]).0 == players@[k],
                forall|k: int| 0 <= k < i ==> self.spec_broker().registered(
                    (#[trigger] pairs@[k]).1,
                ),
                forall|k: int| 0 <= k < i ==> ({
                    let d = #[trigger] self.spec_drivers()[base + k];
                    &&& d.spec_id() == pairs@[k].1
                    &&& (d.spec_behavior() matches Behavior::ClientController(cc)
                        && cc.spec_player() == players@[k]
                        && cc.spec_client_manager() == cm_id
                        && cc.spec_host() == sl_id
                        && cc.spec_cap() == cap
                        && !cc.spec_connected())
                }),
            decreases players@.len() - i,
        {
            let cc_id = ReactorID::rand();
            let cc = CCReactor::params(players[i], cm_id, sl_id, cap);
            let ghost pre_drv = self.spec_drivers();
            match self.spawn(cc_id, Behavior::ClientController(cc)) {
                Ok(()) => {},
                Err(e) => {
                    return Err(e);
                },
            }
            pairs.push((players[i], cc_id));
            i = i + 1;
            proof {
                assert(self.spec_drivers().take(base as int) =~= self.spec_drivers().take(
                    pre_drv.len() as int,
                ).take(base as int));
                assert(pre_drv.take(base as int) == drivers0);
                assert forall|k: int| 0 <= k < i implies ({
                    let d = #[trigger] self.spec_drivers()[base + k];
                    &&& d.spec_id() == pairs@[k].1
                    &&& (d.spec_behavior() matches Behavior::ClientController(cc2)
                        && cc2.spec_player() == players@[k]
                        && cc2.spec_client_manager() == cm_id
                        && cc2.spec_host() == sl_id
                        && cc2.spec_cap() == cap
                        && !cc2.spec_connected())
                }) by {
                    if k < i - 1 {
                        assert(self.spec_drivers()[base + k] == self.spec_drivers().take(
                            pre_drv.len() as int,
                        )[base + k]);
                        assert(self.spec_drivers()[base + k] == pre_drv[base + k]);
                    } else {
                        assert(self.spec_drivers()[base + k] == self.spec_drivers().last());
                    }
                }
            }
        }
        let ghost cc_drivers = self.spec_drivers();
        let ghost pairs_g = pairs@;
        let mut roster: Vec<(PlayerId, ReactorID)> = Vec::new();
        let mut j: usize = 0;
        while j < pairs.len()
            invariant
                j <= pairs@.len(),
                self.wf(),
                pairs@ == pairs_g,
                roster@ == pairs_g.take(j as int),
            decreases pairs@.len() - j,
        {
            roster.push(pairs[j]);
            j = j + 1;
            proof {
                assert(roster@ =~= pairs_g.take(j as int));
            }
        }
        proof {
            assert(roster@ =~= pairs_g);
        }
        let lock = StepLock::new(host_id, roster, timeout_ms);
        match self.spawn(sl_id, Behavior::StepLock(lock)) {
            Ok(()) => {},
            Err(e) => {
                return Err(e);
            },
        }
        let ghost sl_drivers = self.spec_drivers();
        proof {
            assert(sl_drivers.take(cc_drivers.len() as int) == cc_drivers);
        }
        let host = GameHost::new(controller, sl_id, gm_id);
        match self.spawn(host_id, Behavior::GameHost(host)) {
            Ok(()) => {},
            Err(e) => {
                return Err(e);
            },
        }
        proof {
            let n = players@.len();
            let drv = self.spec_drivers();
            assert(drv.take(sl_drivers.len() as int) == sl_drivers);
            assert(drv.take(base as int) =~= drivers0) by {
                assert(drv.take(base as int) =~= sl_drivers.take(base as int));
                assert(sl_drivers.take(base as int) =~= cc_drivers.take(base as int));
            }
            assert(drv[base as int + n as int] == sl_drivers.last()) by {
                assert(drv[base as int + n as int] == drv.take(sl_drivers.len() as int)[base as int + n as int]);
            }
            assert forall|k: int| 0 <= k < n implies ({
                let d = #[trigger] drv[base + k];
                &&& d.spec_id() == pairs_g[k].1
                &&& (d.spec_behavior() matches Behavior::ClientController(cc2)
                    && cc2.spec_player() == players@[k]
                    && cc2.spec_client_manager() == cm_id
                    && cc2.spec_host() == drv[base as int + n as int].spec_id()
                    && cc2.spec_cap() == cap
                    && !cc2.spec_connected())
            }) by {
                assert(drv[base + k] == drv.take(sl_drivers.len() as int)[base + k]);
                assert(sl_drivers[base + k] == sl_drivers.take(cc_drivers.len() as int)[base + k]);
                assert(drv[base + k] == cc_drivers[base + k]);
            }
        }
        Ok((host_id, pairs))
    }
}

} // verus!
