//! Link-level decisions on the master: the keepalive of each peer actor and
//! the routing of incoming frames by transport identity.
use vstd::prelude::*;
use crate::wire::{Message, MessageView, WorkerInfo};

verus! {

/// Period of the keepalive timer, in milliseconds.
pub const KEEPALIVE_PERIOD_MS: u64 = 2000;

/// Silence after which a peer is dropped, in milliseconds.
pub const PEER_TIMEOUT_MS: u64 = 5000;

/// Whether a peer last heard from at `last_seen_ms` has been silent too long at `now_ms`.
pub open spec fn timed_out(now_ms: u64, last_seen_ms: u64) -> bool {
    now_ms >= last_seen_ms && now_ms - last_seen_ms >= PEER_TIMEOUT_MS
}

/// A keepalive tick of a peer actor: it always pings; after too long a
/// silence it also says `Bye` and ends (the flag).
pub fn keepalive_tick(now_ms: u64, last_seen_ms: u64) -> (r: (Vec<Message>, bool))
    ensures
        r.1 == timed_out(now_ms, last_seen_ms),
        r.1 ==> r.0@ == seq![Message::Ping, Message::Bye],
        !r.1 ==> r.0@ == seq![Message::Ping],
{
    let mut out: Vec<Message> = Vec::new();
    out.push(Message::Ping);
    let late = now_ms >= last_seen_ms && now_ms - last_seen_ms >= PEER_TIMEOUT_MS;
    if late {
        out.push(Message::Bye);
    }
    (out, late)
}

/// What the socket server does with a frame.
#[derive(Debug)]
pub enum RouteAction {
    /// A new peer: start its actor, announce it, answer `HelloAck` and record the worker.
    Connect(WorkerInfo),
    /// The peer said goodbye: stop its actor and announce that it left.
    Disconnect,
    /// Hand the message to the peer's actor.
    Forward(Message),
    /// Nothing to do.
    Ignore,
}

pub ghost struct RouteView {
    pub identity: Seq<u8>,
    pub identifier: Seq<char>,
}

/// The peers the socket server knows, by transport identity.
pub struct PeerRoutes {
    routes: Vec<(Vec<u8>, String)>,
}

pub open spec fn route_index(routes: Seq<RouteView>, id: Seq<u8>) -> int
    decreases routes.len(),
{
    if routes.len() == 0 {
        -1
    } else if routes.last().identity == id {
        routes.len() - 1
    } else {
        route_index(routes.drop_last(), id)
    }
}

proof fn lemma_route_index(routes: Seq<RouteView>, id: Seq<u8>)
    ensures
        -1 <= route_index(routes, id) < routes.len(),
        route_index(routes, id) >= 0 ==> routes[route_index(routes, id)].identity == id,
        route_index(routes, id) < 0 ==> forall|k: int| 0 <= k < routes.len() ==> routes[k].identity != id,
    decreases routes.len(),
{
    if routes.len() > 0 {
        lemma_route_index(routes.drop_last(), id);
        assert(forall|k: int| 0 <= k < routes.len() - 1 ==> routes[k] == routes.drop_last()[k]);
    }
}

impl View for PeerRoutes {
    type V = Seq<RouteView>;

    closed spec fn view(&self) -> Seq<RouteView> {
        Seq::new(
            self.routes@.len(),
            |i: int| RouteView { identity: self.routes@[i].0@, identifier: self.routes@[i].1@ },
        )
    }
}

fn same_bytes(a: &[u8], b: &[u8]) -> (r: bool)
    ensures
        r == (a@ == b@),
{
    if a.len() != b.len() {
        return false;
    }
    let mut i: usize = 0;
    while i < a.len()
        invariant
            i <= a@.len() == b@.len(),
            forall|k: int| 0 <= k < i ==> a@[k] == b@[k],
        decreases a@.len() - i,
    {
        if a[i] != b[i] {
            return false;
        }
        i = i + 1;
    }
    assert(a@ =~= b@);
    true
}

impl PeerRoutes {
    pub fn new() -> (r: PeerRoutes)
        ensures
            r@ == Seq::<RouteView>::empty(),
    {
        let r = PeerRoutes { routes: Vec::new() };
        assert(r@ =~= Seq::<RouteView>::empty());
        r
    }

    fn find(&self, identity: &[u8]) -> (r: Option<usize>)
        ensures
            match r {
                None => route_index(self@, identity@) < 0,
                Some(i) => i as int == route_index(self@, identity@),
            },
    {
        let ghost v = self@;
        let mut j: usize = self.routes.len();
        assert(v.take(j as int) =~= v);
        while j > 0
            invariant
                j <= self.routes@.len(),
                v == self@,
                route_index(v, identity@) == route_index(v.take(j as int), identity@),
            decreases j,
        {
            assert(v.take(j as int).drop_last() =~= v.take(j - 1));
            if same_bytes(self.routes[j - 1].0.as_slice(), identity) {
                return Some(j - 1);
            }
            j = j - 1;
        }
        None
    }

    /// Routes a frame from `identity`: a `Hello` from an unknown identity
    /// connects it, a `Bye` from a known one disconnects it, anything else
    /// from a known one is forwarded; the rest is ignored.
    pub fn on_frame(&mut self, identity: Vec<u8>, msg: Message) -> (r: RouteAction)
        ensures
            ({
                let i = route_index(old(self)@, identity@);
                match msg@ {
                    MessageView::Hello(w) => if i < 0 {
                        &&& r matches RouteAction::Connect(x) && x@ == w
                        &&& final(self)@ == old(self)@.push(
                            RouteView { identity: identity@, identifier: w.identifier },
                        )
                    } else {
                        r is Ignore && final(self)@ == old(self)@
                    },
                    MessageView::Bye => if i >= 0 {
                        r is Disconnect && final(self)@ == old(self)@.remove(i)
                    } else {
                        r is Ignore && final(self)@ == old(self)@
                    },
                    _ => {
                        &&& final(self)@ == old(self)@
                        &&& if i >= 0 {
                            r matches RouteAction::Forward(m) && m@ == msg@
                        } else {
                            r is Ignore
                        }
                    },
                }
            }),
    {
        let ghost old_view = self@;
        proof {
            lemma_route_index(old_view, identity@);
        }
        let found = self.find(identity.as_slice());
        match msg {
            Message::Hello(info) => {
                match found {
                    Some(_) => RouteAction::Ignore,
                    None => {
                        let name = info.identifier.clone();
                        self.routes.push((identity, name));
                        assert(self@ =~= old_view.push(
                            RouteView { identity: identity@, identifier: info@.identifier },
                        ));
                        RouteAction::Connect(info)
                    },
                }
            },
            Message::Bye => {
                match found {
                    Some(i) => {
                        let _gone = self.routes.remove(i);
                        assert(self@ =~= old_view.remove(i as int));
                        RouteAction::Disconnect
                    },
                    None => RouteAction::Ignore,
                }
            },
            other => {
                match found {
                    Some(_) => RouteAction::Forward(other),
                    None => RouteAction::Ignore,
                }
            },
        }
    }

    /// A write to `identity` failed: the peer is dropped if it was known.
    /// Whether it was known is returned.
    pub fn on_send_failed(&mut self, identity: &[u8]) -> (r: bool)
        ensures
            r == (route_index(old(self)@, identity@) >= 0),
            r ==> final(self)@ == old(self)@.remove(route_index(old(self)@, identity@)),
            !r ==> final(self)@ == old(self)@,
    {
        let ghost old_view = self@;
        proof {
            lemma_route_index(old_view, identity@);
        }
        match self.find(identity) {
            Some(i) => {
                let _gone = self.routes.remove(i);
                assert(self@ =~= old_view.remove(i as int));
                true
            },
            None => false,
        }
    }

    /// The identities of every known peer.
    pub fn identities(&self) -> (r: Vec<Vec<u8>>)
        ensures
            r@.len() == self@.len(),
            forall|k: int| 0 <= k < r@.len() ==> #[trigger] r@[k]@ == self@[k].identity,
    {
        let mut out: Vec<Vec<u8>> = Vec::new();
        let mut i: usize = 0;
        while i < self.routes.len()
            invariant
                i <= self.routes@.len(),
                out@.len() == i,
                forall|k: int| 0 <= k < i ==> #[trigger] out@[k]@ == self@[k].identity,
            decreases self.routes@.len() - i,
        {
            out.push(vstd::slice::slice_to_vec(self.routes[i].0.as_slice()));
            i = i + 1;
        }
        out
    }
}

} // verus!
