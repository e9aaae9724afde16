//! The coordinator: the single owner of all non-session state.
//!
//! The surrounding event loop hands the coordinator one unit at a time
//! — a client request, an inbound overlay request or response, a peer
//! appearing or expiring — and the coordinator returns the list of
//! actions to perform: responses to the requesting client, events for
//! subscribers, overlay sends, dials and acknowledgements.  All
//! decisions are made here; the event loop only performs them.

use vstd::prelude::*;

use crate::json::JsonValue;
use crate::protocol::{RequestBody, ResponseBody, ResponseBodyView, Message, AppAnnouncement};
use crate::store::{Store, StoreError};
use crate::swarm;

verus! {

broadcast use vstd::std_specs::vec::group_vec_axioms, vstd::seq::group_seq_axioms,
    vstd::seq_lib::group_seq_properties;

/// One peer currently present on the local network, with the
/// addresses it was discovered under.
#[derive(Debug)]
pub struct PeerEntry {
    pub peer_id: String,
    pub addresses: Vec<String>,
}

/// One inbox subscription: events for this app go to this request id.
#[derive(Debug, PartialEq, Eq, Structural, Clone, Copy)]
pub struct InboxSubscriber {
    pub app_id: i64,
    pub request_id: u64,
}

/// One outstanding delivery: an overlay request id bound to the
/// outbox row it is delivering.
#[derive(Debug, PartialEq, Eq, Structural, Clone, Copy)]
pub struct DeliveryAttempt {
    pub overlay_request_id: u64,
    pub outbox_id: i64,
}

/// One thing the event loop must perform after a coordinator step.
#[derive(Debug)]
pub enum Action {
    /// Answer the request that triggered this step.
    Respond { request_id: u64, body: ResponseBody },
    /// Push an event to the subscription registered under this id.
    Publish { request_id: u64, body: ResponseBody },
    /// Send an overlay request to a peer, expecting no tracking.
    SwarmSend { peer: String, request: swarm::Request },
    /// Send an overlay request to a peer and then register the
    /// returned overlay request id against this outbox row.
    SwarmSendTracked { peer: String, request: swarm::Request, outbox_id: i64 },
    /// Acknowledge the inbound overlay request that triggered this
    /// step on its response channel.
    Acknowledge,
    /// Ask the overlay to dial an address.
    Dial { address: String },
}

/// A request the coordinator could not carry out.
#[derive(Debug, PartialEq, Eq, Structural, Clone, Copy)]
pub enum DaemonError {
    /// The label is already bound to an app.
    LabelTaken,
    /// The peer id does not parse as an overlay peer id.
    InvalidPeerId,
    /// The address does not parse as an overlay address.
    InvalidAddress,
    /// The sending app is not known under its peer.
    UnknownFromApp,
    /// The destination app is not known under its peer.
    UnknownToApp,
    /// The message id does not fit a store row id.
    InvalidMessageId,
}

/// The diagnostic line of each refusal.
pub open spec fn error_text(e: DaemonError) -> Seq<char> {
    match e {
        DaemonError::LabelTaken => "label is already bound to an app instance"@,
        DaemonError::InvalidPeerId => "cannot parse peer id"@,
        DaemonError::InvalidAddress => "cannot parse address"@,
        DaemonError::UnknownFromApp => "cannot find 'from' app instance in database"@,
        DaemonError::UnknownToApp => "cannot find 'to' app instance in database"@,
        DaemonError::InvalidMessageId => "message id is out of range"@,
    }
}

impl DaemonError {
    /// A diagnostic line for an `Error` response.
    pub fn message(&self) -> (r: String)
        ensures
            r@ == error_text(*self),
    {
        let s: &str = match self {
            DaemonError::LabelTaken => "label is already bound to an app instance",
            DaemonError::InvalidPeerId => "cannot parse peer id",
            DaemonError::InvalidAddress => "cannot parse address",
            DaemonError::UnknownFromApp => "cannot find 'from' app instance in database",
            DaemonError::UnknownToApp => "cannot find 'to' app instance in database",
            DaemonError::InvalidMessageId => "message id is out of range",
        };
        proof {
            reveal_strlit("label is already bound to an app instance");
            reveal_strlit("cannot parse peer id");
            reveal_strlit("cannot parse address");
            reveal_strlit("cannot find 'from' app instance in database");
            reveal_strlit("cannot find 'to' app instance in database");
            reveal_strlit("message id is out of range");
        }
        s.to_owned()
    }
}

/// Whether the string is a valid overlay peer id.
pub uninterp spec fn is_valid_peer_id(s: Seq<char>) -> bool;

/// Relies on `libp2p::PeerId`'s `FromStr`: whether a string parses as
/// a base-58 overlay peer id depends on the string alone.
#[verifier::external_body]
fn peer_id_valid(s: &str) -> (r: bool)
    ensures
        r == is_valid_peer_id(s@),
{
    s.parse::<libp2p::PeerId>().is_ok()
}

/// Whether the string is a valid overlay multiaddress.
pub uninterp spec fn is_valid_multiaddr(s: Seq<char>) -> bool;

/// Relies on `libp2p::Multiaddr`'s `FromStr`: whether a string parses
/// as an overlay multiaddress depends on the string alone.
#[verifier::external_body]
fn multiaddr_valid(s: &str) -> (r: bool)
    ensures
        r == is_valid_multiaddr(s@),
{
    s.parse::<libp2p::Multiaddr>().is_ok()
}

/// Whether this action is a response to `id` with this body.
pub open spec fn is_respond(a: Action, id: u64, body: ResponseBodyView) -> bool {
    a matches Action::Respond { request_id, body: b } && request_id == id && b@ == body
}

/// Whether this action is a push to subscription `id` with this body.
pub open spec fn is_publish(a: Action, id: u64, body: ResponseBodyView) -> bool {
    a matches Action::Publish { request_id, body: b } && request_id == id && b@ == body
}

/// Whether this action sends anything on the overlay.
pub open spec fn is_swarm_send(a: Action) -> bool {
    ||| a matches Action::SwarmSend { .. }
    ||| a matches Action::SwarmSendTracked { .. }
}

/// Whether this action responds with an `Error` body.
pub open spec fn is_error_respond(a: Action) -> bool {
    a matches Action::Respond { body, .. } && body@ is Error
}

/// Whether the action list is exactly one `Error` response under
/// this id, carrying this refusal's diagnostic line.
pub open spec fn error_reply(acts: Seq<Action>, id: u64, e: DaemonError) -> bool {
    acts.len() == 1 && is_respond(acts[0], id, ResponseBodyView::Error { message: error_text(e) })
}

/// Whether no action in the list responds with an `Error` body.
pub open spec fn no_error_reply(acts: Seq<Action>) -> bool {
    forall|k: int| 0 <= k < acts.len() ==> !is_error_respond(#[trigger] acts[k])
}

/// Whether the list ends in exactly one response, under this id.
pub open spec fn single_reply(acts: Seq<Action>, id: u64) -> bool {
    &&& acts.len() >= 1
    &&& (acts.last() matches Action::Respond { request_id: rid, .. } && rid == id)
    &&& (forall|k: int| 0 <= k < acts.len() - 1 ==> !((#[trigger] acts[k]) is Respond))
}

/// The refusal, if any, of queueing an outbound message, in the order
/// the checks are made: the sending app must be known under the local
/// peer, the destination app under its peer, and the peer id must
/// parse.
pub open spec fn send_refusal(
    s: Store,
    local: Seq<char>,
    to_peer: Seq<char>,
    to_uuid: Seq<char>,
    from_uuid: Seq<char>,
) -> Option<DaemonError> {
    if !crate::store::has_peer(s, local) {
        Option::Some(DaemonError::UnknownFromApp)
    } else if !crate::store::has_peer(s, to_peer) {
        Option::Some(DaemonError::UnknownToApp)
    } else if !crate::store::has_app(s, crate::store::peer_id_of(s, local), from_uuid) {
        Option::Some(DaemonError::UnknownFromApp)
    } else if !crate::store::has_app(s, crate::store::peer_id_of(s, to_peer), to_uuid) {
        Option::Some(DaemonError::UnknownToApp)
    } else if !is_valid_peer_id(to_peer) {
        Option::Some(DaemonError::InvalidPeerId)
    } else {
        Option::None
    }
}

/// Whether the coordinator has a delivery attempt under this overlay
/// request id.
pub open spec fn has_attempt(d: Daemon, overlay_request_id: u64) -> bool {
    exists|i: int|
        0 <= i < d.delivery_attempts@.len() && (
        #[trigger] d.delivery_attempts@[i]).overlay_request_id == overlay_request_id
}

/// The outbox row bound to this overlay request id.
pub open spec fn attempt_outbox(d: Daemon, overlay_request_id: u64) -> i64 {
    let i = choose|i: int|
        0 <= i < d.delivery_attempts@.len() && (
        #[trigger] d.delivery_attempts@[i]).overlay_request_id == overlay_request_id;
    d.delivery_attempts@[i].outbox_id
}

/// Whether a peer with this textual id is present (has addresses).
pub open spec fn peer_present(d: Daemon, text: Seq<char>) -> bool {
    exists|i: int| 0 <= i < d.peers@.len() && (#[trigger] d.peers@[i]).peer_id@ == text
}

/// The position of the present peer with this textual id.
pub open spec fn peer_entry_index(d: Daemon, text: Seq<char>) -> int {
    choose|i: int| 0 <= i < d.peers@.len() && (#[trigger] d.peers@[i]).peer_id@ == text
}

/// Whether a peer subscription is registered under this request id.
pub open spec fn peer_subscribed(d: Daemon, id: u64) -> bool {
    d.peer_subscribers@.contains(id)
}

/// Whether an announcement subscription is registered under this id.
pub open spec fn announce_subscribed(d: Daemon, id: u64) -> bool {
    d.announce_subscribers@.contains(id)
}

/// Whether an inbox subscription for this app is registered under
/// this request id.
pub open spec fn inbox_subscribed(d: Daemon, app_id: i64, id: u64) -> bool {
    d.inbox_subscribers@.contains(InboxSubscriber { app_id, request_id: id })
}

/// Whether `post` is the coordinator state reached by killing a
/// daemon in state `pre` and starting a fresh process over the same
/// persisted store: the store survives, the in-memory peer table,
/// subscriber tables and delivery attempts do not.
pub open spec fn is_restart_of(post: Daemon, pre: Daemon) -> bool {
    &&& post.local_peer_id@ == pre.local_peer_id@
    &&& post.store == pre.store
    &&& post.peers@.len() == 0
    &&& post.peer_subscribers@.len() == 0
    &&& post.announce_subscribers@.len() == 0
    &&& post.inbox_subscribers@.len() == 0
    &&& post.delivery_attempts@.len() == 0
}

/// The coordinator's state.
#[derive(Debug)]
pub struct Daemon {
    /// The overlay identity of this host, in base-58 text form.
    pub local_peer_id: String,
    /// The relational store.
    pub store: Store,
    /// Peers currently present, with their known addresses.
    pub peers: Vec<PeerEntry>,
    /// Subscriptions to peer presence events, by client request id.
    pub peer_subscribers: Vec<u64>,
    /// Subscriptions to announcement events, by client request id.
    pub announce_subscribers: Vec<u64>,
    /// Subscriptions to inbox events, by destination app and request id.
    pub inbox_subscribers: Vec<InboxSubscriber>,
    /// Outstanding deliveries awaiting an overlay acknowledgement.
    pub delivery_attempts: Vec<DeliveryAttempt>,
}

impl Daemon {
    /// The coordinator's well-formedness invariant: a well-formed
    /// store, and set-like subscriber, peer and attempt tables.
    pub open spec fn wf(self) -> bool {
        &&& self.store.wf()
        &&& forall|i: int| 0 <= i < self.peers@.len() ==> (#[trigger] self.peers@[i]).addresses@.len() > 0
        &&& forall|i: int, j: int|
            0 <= i < self.peers@.len() && 0 <= j < self.peers@.len() && i != j ==> (
            #[trigger] self.peers@[i]).peer_id@ != (#[trigger] self.peers@[j]).peer_id@
        &&& forall|i: int, j: int|
            0 <= i < self.peer_subscribers@.len() && 0 <= j < self.peer_subscribers@.len() && i
                != j ==> (#[trigger] self.peer_subscribers@[i]) != (
            #[trigger] self.peer_subscribers@[j])
        &&& forall|i: int, j: int|
            0 <= i < self.announce_subscribers@.len() && 0 <= j
                < self.announce_subscribers@.len() && i != j ==> (
            #[trigger] self.announce_subscribers@[i]) != (#[trigger] self.announce_subscribers@[j])
        &&& forall|i: int, j: int|
            0 <= i < self.inbox_subscribers@.len() && 0 <= j < self.inbox_subscribers@.len() && i
                != j ==> (#[trigger] self.inbox_subscribers@[i]) != (
            #[trigger] self.inbox_subscribers@[j])
        &&& forall|i: int, j: int|
            0 <= i < self.delivery_attempts@.len() && 0 <= j < self.delivery_attempts@.len() && i
                != j ==> (#[trigger] self.delivery_attempts@[i]).overlay_request_id != (
            #[trigger] self.delivery_attempts@[j]).overlay_request_id
    }

    /// A coordinator for a fresh process: the given overlay identity,
    /// the given (possibly reloaded) store, and empty tables.
    pub fn start(local_peer_id: String, store: Store) -> (d: Daemon)
        requires
            store.wf(),
        ensures
            d.wf(),
            d.local_peer_id == local_peer_id,
            d.store == store,
            d.peers@.len() == 0,
            d.peer_subscribers@.len() == 0,
            d.announce_subscribers@.len() == 0,
            d.inbox_subscribers@.len() == 0,
            d.delivery_attempts@.len() == 0,
    {
        Daemon {
            local_peer_id,
            store,
            peers: Vec::new(),
            peer_subscribers: Vec::new(),
            announce_subscribers: Vec::new(),
            inbox_subscribers: Vec::new(),
            delivery_attempts: Vec::new(),
        }
    }
}

/// Filtering keeps exactly the matching elements, and keeps a
/// duplicate-free sequence duplicate-free.
proof fn lemma_filter_members<A>(s: Seq<A>, pred: spec_fn(A) -> bool)
    ensures
        forall|x: A|
            #![trigger s.filter(pred).contains(x)]
            s.filter(pred).contains(x) <==> s.contains(x) && pred(x),
        (forall|i: int, j: int| 0 <= i < s.len() && 0 <= j < s.len() && i != j ==> s[i] != s[j])
            ==> (forall|i: int, j: int|
            0 <= i < s.filter(pred).len() && 0 <= j < s.filter(pred).len() && i != j ==> s.filter(
                pred,
            )[i] != s.filter(pred)[j]),
    decreases s.len(),
{
    broadcast use vstd::seq_lib::group_filter_ensures;

    reveal(Seq::filter);
    let f = s.filter(pred);
    if s.len() == 0 {
        assert(forall|x: A| !s.contains(x));
        assert(forall|x: A| !f.contains(x));
    } else {
        let prefix = s.drop_last();
        lemma_filter_members(prefix, pred);
        let fp = prefix.filter(pred);
        assert(f == if pred(s.last()) {
            fp.push(s.last())
        } else {
            fp
        });
        assert forall|x: A| f.contains(x) implies s.contains(x) && pred(x) by {
            let w = choose|k: int| 0 <= k < f.len() && f[k] == x;
            if w < fp.len() {
                assert(fp[w] == x);
                assert(fp.contains(x));
                assert(prefix.contains(x) && pred(x));
                let v = choose|k: int| 0 <= k < prefix.len() && prefix[k] == x;
                assert(s[v] == x);
            } else {
                assert(x == s.last());
                assert(s[s.len() - 1] == x);
            }
        }
        assert forall|x: A| s.contains(x) && pred(x) implies f.contains(x) by {
            let w = choose|k: int| 0 <= k < s.len() && s[k] == x;
            if w < s.len() - 1 {
                assert(prefix[w] == x);
                assert(prefix.contains(x));
                assert(fp.contains(x));
                let v = choose|k: int| 0 <= k < fp.len() && fp[k] == x;
                assert(f[v] == x);
            } else {
                assert(x == s.last());
                if pred(s.last()) {
                    assert(f[f.len() - 1] == x);
                }
            }
        }
        if forall|i: int, j: int|
            0 <= i < s.len() && 0 <= j < s.len() && i != j ==> s[i] != s[j] {
            assert(forall|i: int, j: int|
                0 <= i < prefix.len() && 0 <= j < prefix.len() && i != j ==> prefix[i]
                    != prefix[j]);
            assert forall|i: int, j: int|
                0 <= i < f.len() && 0 <= j < f.len() && i != j implies f[i] != f[j] by {
                if i < fp.len() && j < fp.len() {
                } else if i < fp.len() {
                    assert(f[j] == s.last());
                    assert(fp[i] == f[i]);
                    assert(fp.contains(f[i]));
                    assert(prefix.contains(f[i]));
                    let v = choose|k: int| 0 <= k < prefix.len() && prefix[k] == f[i];
                    assert(s[v] == f[i]);
                    assert(s[v] != s[s.len() - 1]);
                } else if j < fp.len() {
                    assert(f[i] == s.last());
                    assert(fp[j] == f[j]);
                    assert(fp.contains(f[j]));
                    assert(prefix.contains(f[j]));
                    let v = choose|k: int| 0 <= k < prefix.len() && prefix[k] == f[j];
                    assert(s[v] == f[j]);
                    assert(s[v] != s[s.len() - 1]);
                }
            }
        }
    }
}

/// Whether a vector of ids holds this id.
#[verifier::loop_isolation(false)]
fn contains_u64(v: &Vec<u64>, x: u64) -> (r: bool)
    ensures
        r <==> v@.contains(x),
{
    let mut i: usize = 0;
    while i < v.len()
        invariant
            i <= v@.len(),
            forall|j: int| 0 <= j < i ==> v@[j] != x,
        decreases v@.len() - i,
    {
        if v[i] == x {
            return true;
        }
        i += 1;
    }
    false
}

impl Daemon {
    /// Registers a peer-presence subscription under this request id.
    #[verifier::loop_isolation(false)]
    pub fn subscribe_peer_events(&mut self, request_id: u64)
        requires
            old(self).wf(),
        ensures
            final(self).wf(),
            *final(self) == (Daemon {
                peer_subscribers: final(self).peer_subscribers,
                ..*old(self)
            }),
            forall|x: u64|
                peer_subscribed(*final(self), x) <==> peer_subscribed(*old(self), x) || x
                    == request_id,
    {
        if !contains_u64(&self.peer_subscribers, request_id) {
            self.peer_subscribers.push(request_id);
            proof {
                assert(self.peer_subscribers@.last() == request_id);
                assert forall|x: u64|
                    peer_subscribed(*self, x) <==> peer_subscribed(*old(self), x) || x
                        == request_id by {
                    let s = self.peer_subscribers@;
                    if peer_subscribed(*self, x) {
                        let w = choose|k: int| 0 <= k < s.len() && s[k] == x;
                        if w < s.len() - 1 {
                            assert(old(self).peer_subscribers@[w] == x);
                        }
                    }
                    if peer_subscribed(*old(self), x) {
                        let w = choose|k: int|
                            0 <= k < old(self).peer_subscribers@.len() && old(
                                self,
                            ).peer_subscribers@[k] == x;
                        assert(s[w] == x);
                    }
                }
            }
        } else {
            proof {
                assert(peer_subscribed(*old(self), request_id));
            }
        }
    }

    /// Registers an announcement subscription under this request id.
    #[verifier::loop_isolation(false)]
    pub fn subscribe_announce_events(&mut self, request_id: u64)
        requires
            old(self).wf(),
        ensures
            final(self).wf(),
            *final(self) == (Daemon {
                announce_subscribers: final(self).announce_subscribers,
                ..*old(self)
            }),
            forall|x: u64|
                announce_subscribed(*final(self), x) <==> announce_subscribed(*old(self), x) || x
                    == request_id,
    {
        let mut found = false;
        let mut i: usize = 0;
        while i < self.announce_subscribers.len()
            invariant
                i <= self.announce_subscribers@.len(),
                found <==> exists|j: int|
                    0 <= j < i && (#[trigger] self.announce_subscribers@[j]) == request_id,
            decreases self.announce_subscribers@.len() - i,
        {
            if self.announce_subscribers[i] == request_id {
                found = true;
            }
            i += 1;
        }
        if !found {
            self.announce_subscribers.push(request_id);
            proof {
                assert(self.announce_subscribers@.last() == request_id);
                assert forall|x: u64|
                    announce_subscribed(*self, x) <==> announce_subscribed(*old(self), x) || x
                        == request_id by {
                    let s = self.announce_subscribers@;
                    if announce_subscribed(*self, x) {
                        let w = choose|k: int| 0 <= k < s.len() && s[k] == x;
                        if w < s.len() - 1 {
                            assert(old(self).announce_subscribers@[w] == x);
                        }
                    }
                    if announce_subscribed(*old(self), x) {
                        let w = choose|k: int|
                            0 <= k < old(self).announce_subscribers@.len() && old(
                                self,
                            ).announce_subscribers@[k] == x;
                        assert(s[w] == x);
                    }
                }
            }
        }
    }

    /// Registers an inbox subscription for this app under this
    /// request id.
    #[verifier::loop_isolation(false)]
    pub fn subscribe_inbox_events(&mut self, app_id: i64, request_id: u64)
        requires
            old(self).wf(),
        ensures
            final(self).wf(),
            *final(self) == (Daemon {
                inbox_subscribers: final(self).inbox_subscribers,
                ..*old(self)
            }),
            forall|a: i64, x: u64|
                inbox_subscribed(*final(self), a, x) <==> inbox_subscribed(*old(self), a, x) || (a
                    == app_id && x == request_id),
    {
        let entry = InboxSubscriber { app_id, request_id };
        let mut found = false;
        let mut i: usize = 0;
        while i < self.inbox_subscribers.len()
            invariant
                i <= self.inbox_subscribers@.len(),
                found <==> exists|j: int|
                    0 <= j < i && (#[trigger] self.inbox_subscribers@[j]) == entry,
            decreases self.inbox_subscribers@.len() - i,
        {
            if self.inbox_subscribers[i] == entry {
                found = true;
            }
            i += 1;
        }
        if !found {
            self.inbox_subscribers.push(entry);
            proof {
                assert(self.inbox_subscribers@.last() == entry);
                assert forall|a: i64, x: u64|
                    inbox_subscribed(*self, a, x) <==> inbox_subscribed(*old(self), a, x) || (a
                        == app_id && x == request_id) by {
                    let e = InboxSubscriber { app_id: a, request_id: x };
                    let s = self.inbox_subscribers@;
                    if inbox_subscribed(*self, a, x) {
                        let w = choose|k: int| 0 <= k < s.len() && s[k] == e;
                        if w < s.len() - 1 {
                            assert(old(self).inbox_subscribers@[w] == e);
                        }
                    }
                    if inbox_subscribed(*old(self), a, x) {
                        let w = choose|k: int|
                            0 <= k < old(self).inbox_subscribers@.len() && old(
                                self,
                            ).inbox_subscribers@[k] == e;
                        assert(s[w] == e);
                    }
                }
            }
        } else {
            proof {
                let w = choose|j: int|
                    0 <= j < self.inbox_subscribers@.len() && (
                    #[trigger] self.inbox_subscribers@[j]) == entry;
                assert(inbox_subscribed(*old(self), app_id, request_id));
            }
        }
    }

    /// Drops the peer-presence subscriptions whose reply queues were
    /// found closed: a dead subscriber is gone after the next publish.
    #[verifier::loop_isolation(false)]
    pub fn remove_peer_subscribers(&mut self, dead: &Vec<u64>)
        requires
            old(self).wf(),
        ensures
            final(self).wf(),
            *final(self) == (Daemon {
                peer_subscribers: final(self).peer_subscribers,
                ..*old(self)
            }),
            forall|x: u64|
                peer_subscribed(*final(self), x) <==> peer_subscribed(*old(self), x)
                    && !dead@.contains(x),
    {
        let ghost pred = |x: u64| !dead@.contains(x);
        let mut kept: Vec<u64> = Vec::new();
        let mut i: usize = 0;
        proof {
            reveal_with_fuel(Seq::<u64>::filter, 2);
            assert(self.peer_subscribers@.take(0).filter(pred) =~= Seq::<u64>::empty());
        }
        while i < self.peer_subscribers.len()
            invariant
                i <= self.peer_subscribers@.len(),
                kept@ == self.peer_subscribers@.take(i as int).filter(pred),
            decreases self.peer_subscribers@.len() - i,
        {
            proof {
                reveal_with_fuel(Seq::<u64>::filter, 2);
                let t1 = self.peer_subscribers@.take(i as int + 1);
                assert(t1.drop_last() =~= self.peer_subscribers@.take(i as int));
                assert(t1.last() == self.peer_subscribers@[i as int]);
            }
            if !contains_u64(dead, self.peer_subscribers[i]) {
                kept.push(self.peer_subscribers[i]);
            }
            i += 1;
        }
        proof {
            assert(self.peer_subscribers@.take(self.peer_subscribers@.len() as int)
                =~= self.peer_subscribers@);
            lemma_filter_members(self.peer_subscribers@, pred);
        }
        self.peer_subscribers = kept;
    }

    /// Drops the announcement subscriptions whose reply queues were
    /// found closed.
    #[verifier::loop_isolation(false)]
    pub fn remove_announce_subscribers(&mut self, dead: &Vec<u64>)
        requires
            old(self).wf(),
        ensures
            final(self).wf(),
            *final(self) == (Daemon {
                announce_subscribers: final(self).announce_subscribers,
                ..*old(self)
            }),
            forall|x: u64|
                announce_subscribed(*final(self), x) <==> announce_subscribed(*old(self), x)
                    && !dead@.contains(x),
    {
        let ghost pred = |x: u64| !dead@.contains(x);
        let mut kept: Vec<u64> = Vec::new();
        let mut i: usize = 0;
        proof {
            reveal_with_fuel(Seq::<u64>::filter, 2);
            assert(self.announce_subscribers@.take(0).filter(pred) =~= Seq::<u64>::empty());
        }
        while i < self.announce_subscribers.len()
            invariant
                i <= self.announce_subscribers@.len(),
                kept@ == self.announce_subscribers@.take(i as int).filter(pred),
            decreases self.announce_subscribers@.len() - i,
        {
            proof {
                reveal_with_fuel(Seq::<u64>::filter, 2);
                let t1 = self.announce_subscribers@.take(i as int + 1);
                assert(t1.drop_last() =~= self.announce_subscribers@.take(i as int));
                assert(t1.last() == self.announce_subscribers@[i as int]);
            }
            if !contains_u64(dead, self.announce_subscribers[i]) {
                kept.push(self.announce_subscribers[i]);
            }
            i += 1;
        }
        proof {
            assert(self.announce_subscribers@.take(self.announce_subscribers@.len() as int)
                =~= self.announce_subscribers@);
            lemma_filter_members(self.announce_subscribers@, pred);
        }
        self.announce_subscribers = kept;
    }

    /// Drops the inbox subscriptions for this app whose reply queues
    /// were found closed.
    #[verifier::loop_isolation(false)]
    pub fn remove_inbox_subscribers(&mut self, app_id: i64, dead: &Vec<u64>)
        requires
            old(self).wf(),
        ensures
            final(self).wf(),
            *final(self) == (Daemon {
                inbox_subscribers: final(self).inbox_subscribers,
                ..*old(self)
            }),
            forall|a: i64, x: u64|
                inbox_subscribed(*final(self), a, x) <==> inbox_subscribed(*old(self), a, x) && !(
                a == app_id && dead@.contains(x)),
    {
        let ghost pred = |e: InboxSubscriber| !(e.app_id == app_id && dead@.contains(e.request_id));
        let mut kept: Vec<InboxSubscriber> = Vec::new();
        let mut i: usize = 0;
        proof {
            reveal_with_fuel(Seq::<InboxSubscriber>::filter, 2);
            assert(self.inbox_subscribers@.take(0).filter(pred)
                =~= Seq::<InboxSubscriber>::empty());
        }
        while i < self.inbox_subscribers.len()
            invariant
                i <= self.inbox_subscribers@.len(),
                kept@ == self.inbox_subscribers@.take(i as int).filter(pred),
            decreases self.inbox_subscribers@.len() - i,
        {
            proof {
                reveal_with_fuel(Seq::<InboxSubscriber>::filter, 2);
                let t1 = self.inbox_subscribers@.take(i as int + 1);
                assert(t1.drop_last() =~= self.inbox_subscribers@.take(i as int));
                assert(t1.last() == self.inbox_subscribers@[i as int]);
            }
            let e = self.inbox_subscribers[i];
            if !(e.app_id == app_id && contains_u64(dead, e.request_id)) {
                kept.push(e);
            }
            i += 1;
        }
        proof {
            assert(self.inbox_subscribers@.take(self.inbox_subscribers@.len() as int)
                =~= self.inbox_subscribers@);
            lemma_filter_members(self.inbox_subscribers@, pred);
        }
        self.inbox_subscribers = kept;
    }
}

/// Whether a peer entry lists this address.
pub open spec fn entry_has_addr(e: PeerEntry, a: Seq<char>) -> bool {
    exists|j: int| 0 <= j < e.addresses@.len() && (#[trigger] e.addresses@[j])@ == a
}

/// Whether every address of the entry is this one.
pub open spec fn entry_only_addr(e: PeerEntry, a: Seq<char>) -> bool {
    forall|j: int| 0 <= j < e.addresses@.len() ==> (#[trigger] e.addresses@[j])@ == a
}

/// Whether a vector of strings holds one with this text.
#[verifier::loop_isolation(false)]
fn contains_str(v: &Vec<String>, s: &str) -> (r: bool)
    ensures
        r <==> exists|j: int| 0 <= j < v@.len() && (#[trigger] v@[j])@ == s@,
{
    let mut i: usize = 0;
    while i < v.len()
        invariant
            i <= v@.len(),
            forall|j: int| 0 <= j < i ==> (#[trigger] v@[j])@ != s@,
        decreases v@.len() - i,
    {
        if crate::store::str_eq(v[i].as_str(), s) {
            return true;
        }
        i += 1;
    }
    false
}

impl Daemon {
    /// Builds one peer-presence push per peer subscriber: a
    /// `PeerDiscovered` event when `discovered` holds, else a
    /// `PeerExpired` event.
    #[verifier::loop_isolation(false)]
    pub fn peer_subscribers_send(&self, discovered: bool, peer_id: &str) -> (r: Vec<Action>)
        ensures
            r@.len() == self.peer_subscribers@.len(),
            forall|k: int|
                0 <= k < r@.len() ==> is_publish(
                    #[trigger] r@[k],
                    self.peer_subscribers@[k],
                    if discovered {
                        ResponseBodyView::PeerDiscovered { peer_id: peer_id@ }
                    } else {
                        ResponseBodyView::PeerExpired { peer_id: peer_id@ }
                    },
                ),
    {
        let mut out: Vec<Action> = Vec::new();
        let mut i: usize = 0;
        while i < self.peer_subscribers.len()
            invariant
                i <= self.peer_subscribers@.len(),
                out@.len() == i,
                forall|k: int|
                    0 <= k < i ==> is_publish(
                        #[trigger] out@[k],
                        self.peer_subscribers@[k],
                        if discovered {
                            ResponseBodyView::PeerDiscovered { peer_id: peer_id@ }
                        } else {
                            ResponseBodyView::PeerExpired { peer_id: peer_id@ }
                        },
                    ),
            decreases self.peer_subscribers@.len() - i,
        {
            let body = if discovered {
                ResponseBody::PeerDiscovered { peer_id: peer_id.to_owned() }
            } else {
                ResponseBody::PeerExpired { peer_id: peer_id.to_owned() }
            };
            out.push(Action::Publish { request_id: self.peer_subscribers[i], body });
            i += 1;
        }
        out
    }

    /// Builds one announcement push per announcement subscriber.
    #[verifier::loop_isolation(false)]
    pub fn announce_subscribers_send(&self, peer: &str, app_uuid: &str, data: &JsonValue) -> (r: Vec<Action>)
        ensures
            r@.len() == self.announce_subscribers@.len(),
            forall|k: int|
                0 <= k < r@.len() ==> is_publish(
                    #[trigger] r@[k],
                    self.announce_subscribers@[k],
                    ResponseBodyView::AppAnnouncement {
                        peer: peer@,
                        app_uuid: app_uuid@,
                        data: data@,
                    },
                ),
    {
        let mut out: Vec<Action> = Vec::new();
        let mut i: usize = 0;
        while i < self.announce_subscribers.len()
            invariant
                i <= self.announce_subscribers@.len(),
                out@.len() == i,
                forall|k: int|
                    0 <= k < i ==> is_publish(
                        #[trigger] out@[k],
                        self.announce_subscribers@[k],
                        ResponseBodyView::AppAnnouncement {
                            peer: peer@,
                            app_uuid: app_uuid@,
                            data: data@,
                        },
                    ),
            decreases self.announce_subscribers@.len() - i,
        {
            let body = ResponseBody::AppAnnouncement {
                peer: peer.to_owned(),
                app_uuid: app_uuid.to_owned(),
                data: data.duplicate(),
            };
            out.push(Action::Publish { request_id: self.announce_subscribers[i], body });
            i += 1;
        }
        out
    }

    /// Builds one inbox push per subscriber of the destination app.
    #[verifier::loop_isolation(false)]
    #[verifier::rlimit(60)]
    pub fn inbox_subscribers_send(
        &self,
        app_id: i64,
        message_id: u64,
        peer: &str,
        uuid: &str,
        message: &Vec<u8>,
    ) -> (r: Vec<Action>)
        ensures
            ({
                let subs = self.inbox_subscribers@.filter(
                    |e: InboxSubscriber| e.app_id == app_id,
                );
                &&& r@.len() == subs.len()
                &&& forall|k: int|
                    0 <= k < r@.len() ==> is_publish(
                        #[trigger] r@[k],
                        subs[k].request_id,
                        ResponseBodyView::Message(
                            crate::protocol::MessageView {
                                id: message_id,
                                peer: peer@,
                                uuid: uuid@,
                                message: message@,
                            },
                        ),
                    )
            }),
    {
        let ghost pred = |e: InboxSubscriber| e.app_id == app_id;
        let mut out: Vec<Action> = Vec::new();
        let mut i: usize = 0;
        proof {
            reveal_with_fuel(Seq::<InboxSubscriber>::filter, 2);
            assert(self.inbox_subscribers@.take(0).filter(pred) =~= Seq::<
                InboxSubscriber,
            >::empty());
        }
        while i < self.inbox_subscribers.len()
            invariant
                i <= self.inbox_subscribers@.len(),
                out@.len() == self.inbox_subscribers@.take(i as int).filter(pred).len(),
                forall|k: int|
                    0 <= k < out@.len() ==> is_publish(
                        #[trigger] out@[k],
                        self.inbox_subscribers@.take(i as int).filter(pred)[k].request_id,
                        ResponseBodyView::Message(
                            crate::protocol::MessageView {
                                id: message_id,
                                peer: peer@,
                                uuid: uuid@,
                                message: message@,
                            },
                        ),
                    ),
            decreases self.inbox_subscribers@.len() - i,
        {
            proof {
                reveal_with_fuel(Seq::<InboxSubscriber>::filter, 2);
                let t1 = self.inbox_subscribers@.take(i as int + 1);
                assert(t1.drop_last() =~= self.inbox_subscribers@.take(i as int));
                assert(t1.last() == self.inbox_subscribers@[i as int]);
            }
            if self.inbox_subscribers[i].app_id == app_id {
                let body = ResponseBody::Message(Message {
                    id: message_id,
                    peer: peer.to_owned(),
                    uuid: uuid.to_owned(),
                    message: message.clone(),
                });
                out.push(Action::Publish {
                    request_id: self.inbox_subscribers[i].request_id,
                    body,
                });
            }
            i += 1;
        }
        proof {
            assert(self.inbox_subscribers@.take(self.inbox_subscribers@.len() as int)
                =~= self.inbox_subscribers@);
        }
        out
    }

    /// Records that a peer was seen under an address.  A peer seen for
    /// the first time becomes present and is announced to every
    /// peer-presence subscriber.
    #[verifier::loop_isolation(false)]
    #[verifier::rlimit(100)]
    #[verifier::spinoff_prover]
    pub fn add_peer_address(&mut self, peer_id: &str, addr: &str) -> (r: Vec<Action>)
        requires
            old(self).wf(),
        ensures
            final(self).wf(),
            *final(self) == (Daemon { peers: final(self).peers, ..*old(self) }),
            peer_present(*final(self), peer_id@),
            forall|t: Seq<char>|
                t != peer_id@ ==> (peer_present(*final(self), t) <==> peer_present(
                    *old(self),
                    t,
                )),
            if peer_present(*old(self), peer_id@) {
                &&& r@.len() == 0
                &&& final(self).peers@.len() == old(self).peers@.len()
                &&& (forall|j: int|
                    0 <= j < old(self).peers@.len() && j != peer_entry_index(
                        *old(self),
                        peer_id@,
                    ) ==> final(self).peers@[j] == old(self).peers@[j])
                &&& ({
                    let idx = peer_entry_index(*old(self), peer_id@);
                    let pre_e = old(self).peers@[idx];
                    let post_e = final(self).peers@[idx];
                    &&& post_e.peer_id@ == peer_id@
                    &&& (forall|a: Seq<char>|
                        entry_has_addr(post_e, a) <==> entry_has_addr(pre_e, a) || a == addr@)
                })
            } else {
                &&& final(self).peers@.len() == old(self).peers@.len() + 1
                &&& (forall|j: int|
                    0 <= j < old(self).peers@.len() ==> final(self).peers@[j] == old(
                        self,
                    ).peers@[j])
                &&& final(self).peers@.last().peer_id@ == peer_id@
                &&& final(self).peers@.last().addresses@.len() == 1
                &&& final(self).peers@.last().addresses@[0]@ == addr@
                &&& r@.len() == old(self).peer_subscribers@.len()
                &&& (forall|k: int|
                    0 <= k < r@.len() ==> is_publish(
                        #[trigger] r@[k],
                        old(self).peer_subscribers@[k],
                        ResponseBodyView::PeerDiscovered { peer_id: peer_id@ },
                    ))
            },
    {
        let mut i: usize = 0;
        while i < self.peers.len()
            invariant
                i <= self.peers@.len(),
                *self == *old(self),
                forall|j: int| 0 <= j < i ==> (#[trigger] self.peers@[j]).peer_id@ != peer_id@,
            decreases self.peers@.len() - i,
        {
            if crate::store::str_eq(self.peers[i].peer_id.as_str(), peer_id) {
                proof {
                    let w = peer_entry_index(*self, peer_id@);
                    assert(self.peers@[w].peer_id@ == peer_id@);
                    assert(w == i as int);
                }
                let mut entry = self.peers.remove(i);
                let had = contains_str(&entry.addresses, addr);
                let ghost before = entry;
                if !had {
                    entry.addresses.push(addr.to_owned());
                }
                let ghost new_entry = entry;
                self.peers.insert(i, entry);
                proof {
                    let pre = *old(self);
                    let post = *self;
                    let idx = i as int;
                    assert(post.peers@ =~= pre.peers@.update(idx, new_entry));
                    assert(post.peers@[idx].peer_id@ == peer_id@);
                    assert forall|a: Seq<char>|
                        entry_has_addr(post.peers@[idx], a) <==> entry_has_addr(
                            pre.peers@[idx],
                            a,
                        ) || a == addr@ by {
                        let pre_e = pre.peers@[idx];
                        let post_e = post.peers@[idx];
                        if entry_has_addr(post_e, a) && a != addr@ {
                            let w = choose|j: int|
                                0 <= j < post_e.addresses@.len() && (
                                #[trigger] post_e.addresses@[j])@ == a;
                            assert(pre_e.addresses@[w]@ == a);
                        }
                        if entry_has_addr(pre_e, a) {
                            let w = choose|j: int|
                                0 <= j < pre_e.addresses@.len() && (
                                #[trigger] pre_e.addresses@[j])@ == a;
                            assert(post_e.addresses@[w]@ == a);
                        }
                        if a == addr@ {
                            if had {
                                let w = choose|j: int|
                                    0 <= j < before.addresses@.len() && (
                                    #[trigger] before.addresses@[j])@ == addr@;
                                assert(post_e.addresses@[w]@ == addr@);
                            } else {
                                assert(post_e.addresses@[post_e.addresses@.len() - 1]@ == addr@);
                            }
                            assert(entry_has_addr(post_e, a));
                        }
                    }
                    assert(peer_present(post, peer_id@));
                    assert forall|t: Seq<char>|
                        t != peer_id@ implies (peer_present(post, t) <==> peer_present(
                        pre,
                        t,
                    )) by {
                        if peer_present(post, t) {
                            let w = choose|k: int|
                                0 <= k < post.peers@.len() && (#[trigger] post.peers@[k]).peer_id@
                                    == t;
                            assert(pre.peers@[w].peer_id@ == t);
                        }
                        if peer_present(pre, t) {
                            let w = choose|k: int|
                                0 <= k < pre.peers@.len() && (#[trigger] pre.peers@[k]).peer_id@
                                    == t;
                            assert(post.peers@[w].peer_id@ == t);
                        }
                    }
                    assert(peer_entry_index(pre, peer_id@) == idx);
                    assert(post.wf());
                }
                return Vec::new();
            }
            i += 1;
        }
        let mut addresses: Vec<String> = Vec::new();
        addresses.push(addr.to_owned());
        self.peers.push(PeerEntry { peer_id: peer_id.to_owned(), addresses });
        proof {
            let pre = *old(self);
            let post = *self;
            let n = pre.peers@.len() as int;
            assert(post.peers@[n].peer_id@ == peer_id@);
            assert(peer_present(post, peer_id@));
            assert forall|t: Seq<char>|
                t != peer_id@ implies (peer_present(post, t) <==> peer_present(pre, t)) by {
                if peer_present(post, t) {
                    let w = choose|k: int|
                        0 <= k < post.peers@.len() && (#[trigger] post.peers@[k]).peer_id@ == t;
                    assert(w < n);
                    assert(pre.peers@[w].peer_id@ == t);
                }
                if peer_present(pre, t) {
                    let w = choose|k: int|
                        0 <= k < pre.peers@.len() && (#[trigger] pre.peers@[k]).peer_id@ == t;
                    assert(post.peers@[w].peer_id@ == t);
                }
            }
            assert forall|a: int, b: int|
                0 <= a < post.peers@.len() && 0 <= b < post.peers@.len() && a != b implies (
            #[trigger] post.peers@[a]).peer_id@ != (#[trigger] post.peers@[b]).peer_id@ by {
                if a < n && b < n {
                    assert(post.peers@[a] == pre.peers@[a] && post.peers@[b] == pre.peers@[b]);
                } else if a == n && b < n {
                    assert(post.peers@[b] == pre.peers@[b]);
                    assert(pre.peers@[b].peer_id@ != peer_id@);
                } else if b == n && a < n {
                    assert(post.peers@[a] == pre.peers@[a]);
                    assert(pre.peers@[a].peer_id@ != peer_id@);
                }
            }
            assert(post.wf());
        }
        self.peer_subscribers_send(true, peer_id)
    }

    /// Records that a peer expired under an address.  A peer whose
    /// last address expires stops being present and its expiry is
    /// announced to every peer-presence subscriber.
    #[verifier::loop_isolation(false)]
    #[verifier::rlimit(100)]
    #[verifier::spinoff_prover]
    pub fn remove_peer_address(&mut self, peer_id: &str, addr: &str) -> (r: Vec<Action>)
        requires
            old(self).wf(),
        ensures
            final(self).wf(),
            *final(self) == (Daemon { peers: final(self).peers, ..*old(self) }),
            forall|t: Seq<char>|
                t != peer_id@ ==> (peer_present(*final(self), t) <==> peer_present(
                    *old(self),
                    t,
                )),
            !peer_present(*old(self), peer_id@) ==> *final(self) == *old(self) && r@.len() == 0,
            peer_present(*old(self), peer_id@) ==> ({
                let idx = peer_entry_index(*old(self), peer_id@);
                let pre_e = old(self).peers@[idx];
                if entry_only_addr(pre_e, addr@) {
                    &&& !peer_present(*final(self), peer_id@)
                    &&& r@.len() == old(self).peer_subscribers@.len()
                    &&& (forall|k: int|
                        0 <= k < r@.len() ==> is_publish(
                            #[trigger] r@[k],
                            old(self).peer_subscribers@[k],
                            ResponseBodyView::PeerExpired { peer_id: peer_id@ },
                        ))
                } else {
                    &&& peer_present(*final(self), peer_id@)
                    &&& r@.len() == 0
                    &&& final(self).peers@.len() == old(self).peers@.len()
                    &&& (forall|j: int|
                        0 <= j < old(self).peers@.len() && j != idx ==> final(self).peers@[j]
                            == old(self).peers@[j])
                    &&& (forall|a: Seq<char>|
                        entry_has_addr(final(self).peers@[idx], a) <==> entry_has_addr(pre_e, a)
                            && a != addr@)
                }
            }),
    {
        let mut i: usize = 0;
        while i < self.peers.len()
            invariant
                i <= self.peers@.len(),
                *self == *old(self),
                forall|j: int| 0 <= j < i ==> (#[trigger] self.peers@[j]).peer_id@ != peer_id@,
            decreases self.peers@.len() - i,
        {
            if crate::store::str_eq(self.peers[i].peer_id.as_str(), peer_id) {
                proof {
                    let w = peer_entry_index(*self, peer_id@);
                    assert(self.peers@[w].peer_id@ == peer_id@);
                    assert(w == i as int);
                }
                let entry = self.peers.remove(i);
                let ghost pred = |x: String| x@ != addr@;
                let mut kept: Vec<String> = Vec::new();
                let mut k: usize = 0;
                proof {
                    reveal_with_fuel(Seq::<String>::filter, 2);
                    assert(entry.addresses@.take(0).filter(pred) =~= Seq::<String>::empty());
                }
                while k < entry.addresses.len()
                    invariant
                        k <= entry.addresses@.len(),
                        kept@ == entry.addresses@.take(k as int).filter(pred),
                    decreases entry.addresses@.len() - k,
                {
                    proof {
                        reveal_with_fuel(Seq::<String>::filter, 2);
                        let t1 = entry.addresses@.take(k as int + 1);
                        assert(t1.drop_last() =~= entry.addresses@.take(k as int));
                        assert(t1.last() == entry.addresses@[k as int]);
                    }
                    if !crate::store::str_eq(entry.addresses[k].as_str(), addr) {
                        kept.push(entry.addresses[k].clone());
                    }
                    k += 1;
                }
                proof {
                    assert(entry.addresses@.take(entry.addresses@.len() as int)
                        =~= entry.addresses@);
                    lemma_filter_members(entry.addresses@, pred);
                }
                if kept.len() == 0 {
                    proof {
                        let pre = *old(self);
                        let pre_e = pre.peers@[i as int];
                        assert forall|j: int|
                            0 <= j < pre_e.addresses@.len() implies (
                        #[trigger] pre_e.addresses@[j])@ == addr@ by {
                            if pre_e.addresses@[j]@ != addr@ {
                                assert(pred(pre_e.addresses@[j]));
                                assert(pre_e.addresses@.contains(pre_e.addresses@[j]));
                                assert(pre_e.addresses@.filter(pred).contains(
                                    pre_e.addresses@[j],
                                ));
                            }
                        }
                        assert(entry_only_addr(pre_e, addr@));
                        let pre2 = *self;
                        assert forall|t: Seq<char>|
                            t != peer_id@ implies (peer_present(pre2, t) <==> peer_present(
                            pre,
                            t,
                        )) by {
                            if peer_present(pre2, t) {
                                let w = choose|q: int|
                                    0 <= q < pre2.peers@.len() && (
                                    #[trigger] pre2.peers@[q]).peer_id@ == t;
                                if w < i as int {
                                    assert(pre.peers@[w].peer_id@ == t);
                                } else {
                                    assert(pre.peers@[w + 1].peer_id@ == t);
                                }
                            }
                            if peer_present(pre, t) {
                                let w = choose|q: int|
                                    0 <= q < pre.peers@.len() && (
                                    #[trigger] pre.peers@[q]).peer_id@ == t;
                                if w < i as int {
                                    assert(pre2.peers@[w].peer_id@ == t);
                                } else {
                                    assert(w != i as int);
                                    assert(pre2.peers@[w - 1].peer_id@ == t);
                                }
                            }
                        }
                        assert forall|q: int|
                            0 <= q < pre2.peers@.len() implies (
                        #[trigger] pre2.peers@[q]).peer_id@ != peer_id@ by {
                            if q < i as int {
                                assert(pre.peers@[q].peer_id@ != peer_id@);
                            } else {
                                assert(pre.peers@[q + 1] == pre2.peers@[q]);
                                assert(peer_entry_index(pre, peer_id@) == i as int);
                            }
                        }
                        assert forall|a: int, b: int|
                            0 <= a < pre2.peers@.len() && 0 <= b < pre2.peers@.len() && a
                                != b implies (#[trigger] pre2.peers@[a]).peer_id@ != (
                        #[trigger] pre2.peers@[b]).peer_id@ by {
                            let sa: int = if a < i as int {
                                a
                            } else {
                                a + 1
                            };
                            let sb: int = if b < i as int {
                                b
                            } else {
                                b + 1
                            };
                            assert(pre2.peers@[a] == pre.peers@[sa]);
                            assert(pre2.peers@[b] == pre.peers@[sb]);
                        }
                        assert(pre2.wf());
                    }
                    return self.peer_subscribers_send(false, peer_id);
                }
                let new_entry = PeerEntry { peer_id: entry.peer_id, addresses: kept };
                let ghost saved = new_entry;
                self.peers.insert(i, new_entry);
                proof {
                    let pre = *old(self);
                    let post = *self;
                    let idx = i as int;
                    assert(post.peers@ =~= pre.peers@.update(idx, saved));
                    let pre_e = pre.peers@[idx];
                    let post_e = post.peers@[idx];
                    assert(post_e.peer_id@ == peer_id@);
                    assert(peer_present(post, peer_id@));
                    assert(saved.addresses@[0]@ != addr@) by {
                        assert(saved.addresses@[0] == entry.addresses@.take(
                            entry.addresses@.len() as int,
                        ).filter(|x: String| x@ != addr@)[0]);
                    }
                    assert(!entry_only_addr(pre_e, addr@)) by {
                        assert(saved.addresses@.len() > 0);
                        assert(pre_e.addresses@.filter(pred).contains(saved.addresses@[0]));
                        assert(pre_e.addresses@.contains(saved.addresses@[0]));
                    }
                    assert forall|a: Seq<char>|
                        entry_has_addr(post_e, a) <==> entry_has_addr(pre_e, a) && a
                            != addr@ by {
                        if entry_has_addr(post_e, a) {
                            let w = choose|j: int|
                                0 <= j < post_e.addresses@.len() && (
                                #[trigger] post_e.addresses@[j])@ == a;
                            assert(post_e.addresses@.contains(post_e.addresses@[w]));
                            assert(pred(post_e.addresses@[w]));
                            assert(pre_e.addresses@.contains(post_e.addresses@[w]));
                            let v = choose|j: int|
                                0 <= j < pre_e.addresses@.len() && pre_e.addresses@[j]
                                    == post_e.addresses@[w];
                            assert(pre_e.addresses@[v]@ == a);
                        }
                        if entry_has_addr(pre_e, a) && a != addr@ {
                            let w = choose|j: int|
                                0 <= j < pre_e.addresses@.len() && (
                                #[trigger] pre_e.addresses@[j])@ == a;
                            assert(pred(pre_e.addresses@[w]));
                            assert(pre_e.addresses@.contains(pre_e.addresses@[w]));
                            assert(post_e.addresses@.contains(pre_e.addresses@[w]));
                            let v = choose|j: int|
                                0 <= j < post_e.addresses@.len() && post_e.addresses@[j]
                                    == pre_e.addresses@[w];
                            assert(post_e.addresses@[v]@ == a);
                        }
                    }
                    assert forall|t: Seq<char>|
                        t != peer_id@ implies (peer_present(post, t) <==> peer_present(
                        pre,
                        t,
                    )) by {
                        if peer_present(post, t) {
                            let w = choose|q: int|
                                0 <= q < post.peers@.len() && (#[trigger] post.peers@[q]).peer_id@
                                    == t;
                            assert(pre.peers@[w].peer_id@ == t);
                        }
                        if peer_present(pre, t) {
                            let w = choose|q: int|
                                0 <= q < pre.peers@.len() && (#[trigger] pre.peers@[q]).peer_id@
                                    == t;
                            assert(post.peers@[w].peer_id@ == t);
                        }
                    }
                    assert(peer_entry_index(pre, peer_id@) == idx);
                    assert(post.wf());
                }
                return Vec::new();
            }
            i += 1;
        }
        Vec::new()
    }
}

impl Daemon {
    /// Binds the overlay request id returned by an overlay send to the
    /// outbox row it is delivering.  An id that is somehow reused
    /// replaces its old binding.
    #[verifier::loop_isolation(false)]
    #[verifier::rlimit(60)]
    pub fn register_delivery_attempt(&mut self, overlay_request_id: u64, outbox_id: i64)
        requires
            old(self).wf(),
        ensures
            final(self).wf(),
            *final(self) == (Daemon {
                delivery_attempts: final(self).delivery_attempts,
                ..*old(self)
            }),
            has_attempt(*final(self), overlay_request_id),
            attempt_outbox(*final(self), overlay_request_id) == outbox_id,
            forall|x: u64|
                x != overlay_request_id ==> (has_attempt(*final(self), x) <==> has_attempt(
                    *old(self),
                    x,
                )),
            forall|x: u64|
                x != overlay_request_id && has_attempt(*old(self), x) ==> attempt_outbox(
                    *final(self),
                    x,
                ) == attempt_outbox(*old(self), x),
    {
        let entry = DeliveryAttempt { overlay_request_id, outbox_id };
        let mut i: usize = 0;
        while i < self.delivery_attempts.len()
            invariant
                i <= self.delivery_attempts@.len(),
                *self == *old(self),
                forall|j: int|
                    0 <= j < i ==> (#[trigger] self.delivery_attempts@[j]).overlay_request_id
                        != overlay_request_id,
            decreases self.delivery_attempts@.len() - i,
        {
            if self.delivery_attempts[i].overlay_request_id == overlay_request_id {
                self.delivery_attempts[i] = entry;
                proof {
                    let pre = *old(self);
                    let post = *self;
                    let idx = i as int;
                    assert(post.delivery_attempts@[idx] == entry);
                    assert(post.wf());
                    let v = choose|k: int|
                        0 <= k < post.delivery_attempts@.len() && (
                        #[trigger] post.delivery_attempts@[k]).overlay_request_id
                            == overlay_request_id;
                    assert(v == idx);
                    assert forall|x: u64|
                        x != overlay_request_id implies (has_attempt(post, x) <==> has_attempt(
                        pre,
                        x,
                    )) by {
                        if has_attempt(post, x) {
                            let w = choose|k: int|
                                0 <= k < post.delivery_attempts@.len() && (
                                #[trigger] post.delivery_attempts@[k]).overlay_request_id == x;
                            assert(pre.delivery_attempts@[w].overlay_request_id == x);
                        }
                        if has_attempt(pre, x) {
                            let w = choose|k: int|
                                0 <= k < pre.delivery_attempts@.len() && (
                                #[trigger] pre.delivery_attempts@[k]).overlay_request_id == x;
                            assert(w != idx);
                            assert(post.delivery_attempts@[w].overlay_request_id == x);
                        }
                    }
                    assert forall|x: u64|
                        x != overlay_request_id && has_attempt(pre, x) implies attempt_outbox(
                        post,
                        x,
                    ) == attempt_outbox(pre, x) by {
                        let w = choose|k: int|
                            0 <= k < pre.delivery_attempts@.len() && (
                            #[trigger] pre.delivery_attempts@[k]).overlay_request_id == x;
                        assert(post.delivery_attempts@[w].overlay_request_id == x);
                        let a = choose|k: int|
                            0 <= k < post.delivery_attempts@.len() && (
                            #[trigger] post.delivery_attempts@[k]).overlay_request_id == x;
                        let b = choose|k: int|
                            0 <= k < pre.delivery_attempts@.len() && (
                            #[trigger] pre.delivery_attempts@[k]).overlay_request_id == x;
                        assert(a != idx);
                        assert(pre.delivery_attempts@[a].overlay_request_id == x);
                        assert(a == b);
                    }
                }
                return;
            }
            i += 1;
        }
        self.delivery_attempts.push(entry);
        proof {
            let pre = *old(self);
            let post = *self;
            let n = pre.delivery_attempts@.len() as int;
            assert(post.delivery_attempts@[n] == entry);
            assert forall|a: int, b: int|
                0 <= a < post.delivery_attempts@.len() && 0 <= b < post.delivery_attempts@.len()
                    && a != b implies (#[trigger] post.delivery_attempts@[a]).overlay_request_id
                != (#[trigger] post.delivery_attempts@[b]).overlay_request_id by {
                if a < n && b < n {
                    assert(post.delivery_attempts@[a] == pre.delivery_attempts@[a]);
                    assert(post.delivery_attempts@[b] == pre.delivery_attempts@[b]);
                } else if a == n && b < n {
                    assert(post.delivery_attempts@[b] == pre.delivery_attempts@[b]);
                    assert(pre.delivery_attempts@[b].overlay_request_id != overlay_request_id);
                } else if b == n && a < n {
                    assert(post.delivery_attempts@[a] == pre.delivery_attempts@[a]);
                    assert(pre.delivery_attempts@[a].overlay_request_id != overlay_request_id);
                }
            }
            assert(post.wf());
            let v = choose|k: int|
                0 <= k < post.delivery_attempts@.len() && (
                #[trigger] post.delivery_attempts@[k]).overlay_request_id == overlay_request_id;
            assert(v == n);
            assert forall|x: u64|
                x != overlay_request_id implies (has_attempt(post, x) <==> has_attempt(
                pre,
                x,
            )) by {
                if has_attempt(post, x) {
                    let w = choose|k: int|
                        0 <= k < post.delivery_attempts@.len() && (
                        #[trigger] post.delivery_attempts@[k]).overlay_request_id == x;
                    assert(w < n);
                    assert(pre.delivery_attempts@[w].overlay_request_id == x);
                }
                if has_attempt(pre, x) {
                    let w = choose|k: int|
                        0 <= k < pre.delivery_attempts@.len() && (
                        #[trigger] pre.delivery_attempts@[k]).overlay_request_id == x;
                    assert(post.delivery_attempts@[w].overlay_request_id == x);
                }
            }
            assert forall|x: u64|
                x != overlay_request_id && has_attempt(pre, x) implies attempt_outbox(post, x)
                    == attempt_outbox(pre, x) by {
                let a = choose|k: int|
                    0 <= k < post.delivery_attempts@.len() && (
                    #[trigger] post.delivery_attempts@[k]).overlay_request_id == x;
                let b = choose|k: int|
                    0 <= k < pre.delivery_attempts@.len() && (
                    #[trigger] pre.delivery_attempts@[k]).overlay_request_id == x;
                assert(post.delivery_attempts@[b].overlay_request_id == x);
                assert(a < n);
                assert(pre.delivery_attempts@[a].overlay_request_id == x);
                assert(a == b);
            }
        }
    }

    /// Handles an overlay response to an outbound request: an
    /// acknowledgement consumes the delivery attempt and deletes the
    /// outbox row it was bound to, in the same step.  An unknown id is
    /// ignored.
    #[verifier::loop_isolation(false)]
    #[verifier::rlimit(60)]
    pub fn swarm_response(&mut self, overlay_request_id: u64, response: swarm::Response)
        requires
            old(self).wf(),
        ensures
            final(self).wf(),
            *final(self) == (Daemon {
                store: final(self).store,
                delivery_attempts: final(self).delivery_attempts,
                ..*old(self)
            }),
            final(self).store == (Store {
                outbox: final(self).store.outbox,
                ..old(self).store
            }),
            !has_attempt(*old(self), overlay_request_id) ==> *final(self) == *old(self),
            has_attempt(*old(self), overlay_request_id) ==> ({
                let bound = attempt_outbox(*old(self), overlay_request_id);
                &&& !has_attempt(*final(self), overlay_request_id)
                &&& !crate::store::has_outbox_row(final(self).store, bound)
                &&& (forall|x: u64|
                    x != overlay_request_id ==> (has_attempt(*final(self), x) <==> has_attempt(
                        *old(self),
                        x,
                    )))
                &&& (forall|x: u64|
                    x != overlay_request_id && has_attempt(*old(self), x) ==> attempt_outbox(
                        *final(self),
                        x,
                    ) == attempt_outbox(*old(self), x))
                &&& (forall|y: i64|
                    y != bound ==> (crate::store::has_outbox_row(final(self).store, y)
                        <==> crate::store::has_outbox_row(old(self).store, y)))
            }),
    {
        match response {
            swarm::Response::Acknowledge => {},
        }
        let mut i: usize = 0;
        while i < self.delivery_attempts.len()
            invariant
                i <= self.delivery_attempts@.len(),
                *self == *old(self),
                forall|j: int|
                    0 <= j < i ==> (#[trigger] self.delivery_attempts@[j]).overlay_request_id
                        != overlay_request_id,
            decreases self.delivery_attempts@.len() - i,
        {
            if self.delivery_attempts[i].overlay_request_id == overlay_request_id {
                proof {
                    let w = choose|k: int|
                        0 <= k < self.delivery_attempts@.len() && (
                        #[trigger] self.delivery_attempts@[k]).overlay_request_id
                            == overlay_request_id;
                    assert(w == i as int);
                }
                let entry = self.delivery_attempts.remove(i);
                proof {
                    let pre = *old(self);
                    let mid = *self;
                    let idx = i as int;
                    assert(forall|j: int|
                        0 <= j < idx ==> mid.delivery_attempts@[j] == pre.delivery_attempts@[j]);
                    assert(forall|j: int|
                        idx <= j < mid.delivery_attempts@.len() ==> mid.delivery_attempts@[j]
                            == pre.delivery_attempts@[j + 1]);
                    assert forall|a: int, b: int|
                        0 <= a < mid.delivery_attempts@.len() && 0 <= b
                            < mid.delivery_attempts@.len() && a != b implies (
                    #[trigger] mid.delivery_attempts@[a]).overlay_request_id != (
                    #[trigger] mid.delivery_attempts@[b]).overlay_request_id by {
                        let sa: int = if a < idx {
                            a
                        } else {
                            a + 1
                        };
                        let sb: int = if b < idx {
                            b
                        } else {
                            b + 1
                        };
                        assert(mid.delivery_attempts@[a] == pre.delivery_attempts@[sa]);
                        assert(mid.delivery_attempts@[b] == pre.delivery_attempts@[sb]);
                    }
                    assert(mid.wf());
                    assert forall|k: int|
                        0 <= k < mid.delivery_attempts@.len() implies (
                    #[trigger] mid.delivery_attempts@[k]).overlay_request_id
                        != overlay_request_id by {
                        if k >= idx {
                            assert(mid.delivery_attempts@[k] == pre.delivery_attempts@[k + 1]);
                        }
                    }
                    assert forall|x: u64|
                        x != overlay_request_id implies (has_attempt(mid, x) <==> has_attempt(
                        pre,
                        x,
                    )) by {
                        if has_attempt(mid, x) {
                            let w = choose|k: int|
                                0 <= k < mid.delivery_attempts@.len() && (
                                #[trigger] mid.delivery_attempts@[k]).overlay_request_id == x;
                            if w < idx {
                                assert(pre.delivery_attempts@[w].overlay_request_id == x);
                            } else {
                                assert(pre.delivery_attempts@[w + 1].overlay_request_id == x);
                            }
                        }
                        if has_attempt(pre, x) {
                            let w = choose|k: int|
                                0 <= k < pre.delivery_attempts@.len() && (
                                #[trigger] pre.delivery_attempts@[k]).overlay_request_id == x;
                            if w < idx {
                                assert(mid.delivery_attempts@[w].overlay_request_id == x);
                            } else {
                                assert(w != idx);
                                assert(mid.delivery_attempts@[w - 1].overlay_request_id == x);
                            }
                        }
                    }
                    assert forall|x: u64|
                        x != overlay_request_id && has_attempt(pre, x) implies attempt_outbox(
                        mid,
                        x,
                    ) == attempt_outbox(pre, x) by {
                        let a = choose|k: int|
                            0 <= k < mid.delivery_attempts@.len() && (
                            #[trigger] mid.delivery_attempts@[k]).overlay_request_id == x;
                        let b = choose|k: int|
                            0 <= k < pre.delivery_attempts@.len() && (
                            #[trigger] pre.delivery_attempts@[k]).overlay_request_id == x;
                        if a < idx {
                            assert(pre.delivery_attempts@[a].overlay_request_id == x);
                            assert(a == b);
                        } else {
                            assert(pre.delivery_attempts@[a + 1].overlay_request_id == x);
                            assert(a + 1 == b);
                            assert(mid.delivery_attempts@[a] == pre.delivery_attempts@[b]);
                        }
                    }
                    assert(entry.outbox_id == attempt_outbox(pre, overlay_request_id));
                }
                self.store.delete_message_outbox(entry.outbox_id);
                return;
            }
            i += 1;
        }
    }
}

/// What recording an announcement leaves in the store: the peer and
/// app exist, the app's single announcement row holds exactly this
/// timestamp and payload, announcements of other apps are untouched,
/// and no other table changes.
pub open spec fn announce_applied(
    pre: Store,
    post: Store,
    peer: Seq<char>,
    uuid: Seq<char>,
    now: i64,
    data: crate::json::JsonView,
) -> bool {
    &&& crate::store::has_peer(post, peer)
    &&& crate::store::has_app(post, crate::store::peer_id_of(post, peer), uuid)
    &&& ({
        let app = crate::store::app_id_of(post, crate::store::peer_id_of(post, peer), uuid);
        &&& crate::store::has_announcement(post, app)
        &&& crate::store::ann_received(post, app) == now
        &&& crate::store::ann_data(post, app) == data
        &&& (forall|a: i64|
            a != app ==> (crate::store::has_announcement(post, a)
                <==> crate::store::has_announcement(pre, a)))
        &&& (forall|a: i64|
            a != app && crate::store::has_announcement(pre, a) ==> crate::store::ann_received(
                post,
                a,
            ) == crate::store::ann_received(pre, a) && crate::store::ann_data(post, a)
                == crate::store::ann_data(pre, a))
        &&& (crate::store::has_announcement(pre, app) ==> post.announcements@.len()
            == pre.announcements@.len())
        &&& (!crate::store::has_announcement(pre, app) ==> post.announcements@.len()
            == pre.announcements@.len() + 1)
    })
    &&& post.labels == pre.labels
    &&& post.blobs == pre.blobs
    &&& post.inbox == pre.inbox
    &&& post.outbox == pre.outbox
    &&& post.ports == pre.ports
    &&& post.version == pre.version
    &&& (crate::store::has_peer(pre, peer) ==> post.peers == pre.peers)
    &&& ((crate::store::has_peer(pre, peer) && crate::store::has_app(
        pre,
        crate::store::peer_id_of(pre, peer),
        uuid,
    )) ==> post.apps == pre.apps)
    &&& post.next_blob_id == pre.next_blob_id
    &&& post.next_inbox_id == pre.next_inbox_id
    &&& post.next_outbox_id == pre.next_outbox_id
    &&& (crate::store::has_peer(pre, peer) ==> post.next_peer_id == pre.next_peer_id)
    &&& (!crate::store::has_peer(pre, peer) ==> post.next_peer_id == pre.next_peer_id + 1)
    &&& ((crate::store::has_peer(pre, peer) && crate::store::has_app(
        pre,
        crate::store::peer_id_of(pre, peer),
        uuid,
    )) ==> post.next_app_id == pre.next_app_id)
    &&& (!(crate::store::has_peer(pre, peer) && crate::store::has_app(
        pre,
        crate::store::peer_id_of(pre, peer),
        uuid,
    )) ==> post.next_app_id == pre.next_app_id + 1)
}

impl Daemon {
    /// Upserts an announcement for `(peer, app_uuid)` at time `now`
    /// and builds the pushes for every announcement subscriber.
    #[verifier::loop_isolation(false)]
    #[verifier::rlimit(100)]
    #[verifier::spinoff_prover]
    fn apply_announce(&mut self, peer: &str, app_uuid: &str, data: &JsonValue, now: i64) -> (r: Vec<Action>)
        requires
            old(self).wf(),
            old(self).store.next_peer_id < 0x7fff_ffff_ffff_ffff,
            old(self).store.next_app_id < 0x7fff_ffff_ffff_ffff,
        ensures
            final(self).wf(),
            *final(self) == (Daemon { store: final(self).store, ..*old(self) }),
            announce_applied(old(self).store, final(self).store, peer@, app_uuid@, now, data@),
            r@.len() == old(self).announce_subscribers@.len(),
            forall|k: int|
                0 <= k < r@.len() ==> is_publish(
                    #[trigger] r@[k],
                    old(self).announce_subscribers@[k],
                    ResponseBodyView::AppAnnouncement {
                        peer: peer@,
                        app_uuid: app_uuid@,
                        data: data@,
                    },
                ),
    {
        let ghost s0 = self.store;
        let peer_row = self.store.get_or_put_peer(peer);
        let ghost s1 = self.store;
        let app = self.store.get_or_put_app(peer_row, app_uuid);
        let ghost s2 = self.store;
        self.store.set_app_announcement(app, now, data);
        proof {
            let s3 = self.store;
            assert(s1.announcements == s0.announcements);
            assert(s2.announcements == s1.announcements);
            assert(crate::store::has_peer(s3, peer@)) by {
                assert(crate::store::has_peer(s2, peer@));
                assert(s3.peers == s2.peers);
            }
            assert(crate::store::peer_id_of(s3, peer@) == peer_row) by {
                assert(s3.peers == s2.peers);
                assert(crate::store::peer_id_of(s2, peer@) == peer_row);
            }
            assert(crate::store::has_app(s3, peer_row, app_uuid@)) by {
                assert(crate::store::has_app(s2, peer_row, app_uuid@));
                assert(s3.apps == s2.apps);
            }
            assert(crate::store::app_id_of(s3, peer_row, app_uuid@) == app) by {
                assert(s3.apps == s2.apps);
                assert(crate::store::app_id_of(s2, peer_row, app_uuid@) == app);
            }
            assert forall|a: i64|
                a != app implies (crate::store::has_announcement(s3, a)
                    <==> crate::store::has_announcement(s0, a)) by {
                if crate::store::has_announcement(s0, a) {
                    let w = choose|k: int|
                        0 <= k < s2.announcements@.len() && (
                        #[trigger] s2.announcements@[k]).app_id == a;
                    if crate::store::has_announcement(s2, app) {
                        let idx = crate::store::ann_index_of(s2, app);
                        assert(w != idx);
                        assert(s3.announcements@[w].app_id == a);
                    } else {
                        assert(s3.announcements@[w].app_id == a);
                    }
                }
                if crate::store::has_announcement(s3, a) {
                    let w = choose|k: int|
                        0 <= k < s3.announcements@.len() && (
                        #[trigger] s3.announcements@[k]).app_id == a;
                    if crate::store::has_announcement(s2, app) {
                        let idx = crate::store::ann_index_of(s2, app);
                        assert(w != idx);
                        assert(s2.announcements@[w].app_id == a);
                    } else {
                        if w < s2.announcements@.len() {
                            assert(s2.announcements@[w].app_id == a);
                        } else {
                            assert(s3.announcements@[w].app_id == app);
                        }
                    }
                }
            }
            assert forall|a: i64|
                a != app && crate::store::has_announcement(s0, a) implies
                crate::store::ann_received(s3, a) == crate::store::ann_received(s0, a)
                    && crate::store::ann_data(s3, a) == crate::store::ann_data(s0, a) by {
                let w0 = crate::store::ann_index_of(s0, a);
                assert(s0.announcements@[w0].app_id == a);
                let w3 = crate::store::ann_index_of(s3, a);
                assert(crate::store::has_announcement(s3, a));
                assert(s3.announcements@[w3].app_id == a);
                if crate::store::has_announcement(s2, app) {
                    let idx = crate::store::ann_index_of(s2, app);
                    assert(w3 != idx);
                    assert(s3.announcements@[w3] == s2.announcements@[w3]);
                    assert(w3 == w0);
                } else {
                    assert(w3 < s2.announcements@.len());
                    assert(s3.announcements@[w3] == s2.announcements@[w3]);
                    assert(w3 == w0);
                }
            }
        }
        self.announce_subscribers_send(peer, app_uuid, data)
    }
}

/// What delivering an inbound message leaves in the store: the blob is
/// interned (one row per distinct byte string), exactly one inbox row
/// is appended under a fresh id larger than every earlier one, and no
/// other table changes.
pub open spec fn message_received(
    pre: Store,
    post: Store,
    sender: Seq<char>,
    local: Seq<char>,
    from_uuid: Seq<char>,
    to_uuid: Seq<char>,
    data: Seq<u8>,
    now: i64,
    inbox_id: i64,
) -> bool {
    &&& crate::store::has_peer(post, sender)
    &&& crate::store::has_peer(post, local)
    &&& crate::store::has_app(post, crate::store::peer_id_of(post, sender), from_uuid)
    &&& crate::store::has_app(post, crate::store::peer_id_of(post, local), to_uuid)
    &&& ({
        let from_app = crate::store::app_id_of(
            post,
            crate::store::peer_id_of(post, sender),
            from_uuid,
        );
        let to_app = crate::store::app_id_of(post, crate::store::peer_id_of(post, local), to_uuid);
        &&& inbox_id == pre.next_inbox_id
        &&& post.inbox@.len() == pre.inbox@.len() + 1
        &&& (forall|j: int| 0 <= j < pre.inbox@.len() ==> post.inbox@[j] == pre.inbox@[j])
        &&& post.inbox@.last() == (crate::store::InboxRow {
            id: inbox_id,
            received: now,
            from_app_id: from_app,
            to_app_id: to_app,
            message_id: crate::store::blob_id_of(post, data),
        })
        &&& (forall|j: int| 0 <= j < pre.inbox@.len() ==> pre.inbox@[j].id < inbox_id)
    })
    &&& crate::store::has_blob(post, data)
    &&& (crate::store::has_blob(pre, data) ==> post.blobs == pre.blobs && post.next_blob_id
        == pre.next_blob_id)
    &&& (!crate::store::has_blob(pre, data) ==> post.blobs@.len() == pre.blobs@.len() + 1
        && post.next_blob_id == pre.next_blob_id + 1)
    &&& (forall|j: int| 0 <= j < pre.peers@.len() ==> post.peers@[j] == pre.peers@[j])
    &&& pre.peers@.len() <= post.peers@.len() <= pre.peers@.len() + 2
    &&& (forall|j: int| 0 <= j < pre.apps@.len() ==> post.apps@[j] == pre.apps@[j])
    &&& pre.apps@.len() <= post.apps@.len() <= pre.apps@.len() + 2
    &&& post.labels == pre.labels
    &&& post.outbox == pre.outbox
    &&& post.announcements == pre.announcements
    &&& post.ports == pre.ports
    &&& post.version == pre.version
    &&& post.next_inbox_id == pre.next_inbox_id + 1
    &&& post.next_outbox_id == pre.next_outbox_id
    &&& pre.next_peer_id <= post.next_peer_id <= pre.next_peer_id + 2
    &&& pre.next_app_id <= post.next_app_id <= pre.next_app_id + 2
    &&& ((crate::store::has_peer(pre, sender) && crate::store::has_peer(pre, local))
        ==> post.peers == pre.peers && post.next_peer_id == pre.next_peer_id)
    &&& ((crate::store::has_peer(pre, sender) && crate::store::has_peer(pre, local)
        && crate::store::has_app(pre, crate::store::peer_id_of(pre, sender), from_uuid)
        && crate::store::has_app(pre, crate::store::peer_id_of(pre, local), to_uuid))
        ==> post.apps == pre.apps && post.next_app_id == pre.next_app_id)
}

/// What queueing an outbound message leaves in the store: the blob is
/// interned, exactly one outbox row is appended under a fresh id
/// larger than every earlier one, and no other table changes.
pub open spec fn message_queued(
    pre: Store,
    post: Store,
    from_app: i64,
    to_app: i64,
    data: Seq<u8>,
    now: i64,
    outbox_id: i64,
) -> bool {
    &&& crate::store::has_blob(post, data)
    &&& (crate::store::has_blob(pre, data) ==> post.blobs == pre.blobs)
    &&& (!crate::store::has_blob(pre, data) ==> post.blobs@.len() == pre.blobs@.len() + 1)
    &&& outbox_id == pre.next_outbox_id
    &&& post.outbox@.len() == pre.outbox@.len() + 1
    &&& (forall|j: int| 0 <= j < pre.outbox@.len() ==> post.outbox@[j] == pre.outbox@[j])
    &&& post.outbox@.last() == (crate::store::OutboxRow {
        id: outbox_id,
        queued: now,
        from_app_id: from_app,
        to_app_id: to_app,
        message_id: crate::store::blob_id_of(post, data),
    })
    &&& (forall|j: int| 0 <= j < pre.outbox@.len() ==> pre.outbox@[j].id < outbox_id)
    &&& crate::store::has_outbox_row(post, outbox_id)
    &&& post.peers == pre.peers
    &&& post.apps == pre.apps
    &&& post.labels == pre.labels
    &&& post.inbox == pre.inbox
    &&& post.announcements == pre.announcements
    &&& post.ports == pre.ports
    &&& post.version == pre.version
    &&& post.next_outbox_id == pre.next_outbox_id + 1
    &&& post.next_inbox_id == pre.next_inbox_id
    &&& post.next_peer_id == pre.next_peer_id
    &&& post.next_app_id == pre.next_app_id
    &&& (crate::store::has_blob(pre, data) ==> post.next_blob_id == pre.next_blob_id)
    &&& (!crate::store::has_blob(pre, data) ==> post.next_blob_id == pre.next_blob_id + 1)
}

impl Daemon {
    /// Handles one inbound overlay request from `peer` at time `now`.
    ///
    /// An announcement is recorded and pushed to announcement
    /// subscribers.  A message creates its sending peer, its sending
    /// app and its local destination app on first reference, then is
    /// stored in the destination's inbox and pushed to that app's
    /// inbox subscribers.  Either way the step ends by acknowledging
    /// the request.
    #[verifier::loop_isolation(false)]
    #[verifier::rlimit(100)]
    #[verifier::spinoff_prover]
    pub fn swarm_request(&mut self, peer: &str, request: swarm::Request, now: i64) -> (r: Result<
        Vec<Action>,
        DaemonError,
    >)
        requires
            old(self).wf(),
            old(self).store.next_peer_id < 0x7fff_ffff_ffff_fffe,
            old(self).store.next_app_id < 0x7fff_ffff_ffff_fffe,
            old(self).store.next_blob_id < 0x7fff_ffff_ffff_ffff,
            old(self).store.next_inbox_id < 0x7fff_ffff_ffff_ffff,
        ensures
            final(self).wf(),
            *final(self) == (Daemon { store: final(self).store, ..*old(self) }),
            match request@ {
                swarm::RequestView::Announce { app_uuid, data } => {
                    &&& r is Ok
                    &&& announce_applied(
                        old(self).store,
                        final(self).store,
                        peer@,
                        app_uuid,
                        now,
                        data,
                    )
                    &&& (r matches Result::Ok(acts) ==> ({
                        let subs = old(self).announce_subscribers@;
                        &&& acts@.len() == subs.len() + 1
                        &&& (forall|k: int|
                            0 <= k < subs.len() ==> is_publish(
                                #[trigger] acts@[k],
                                subs[k],
                                ResponseBodyView::AppAnnouncement {
                                    peer: peer@,
                                    app_uuid,
                                    data,
                                },
                            ))
                        &&& acts@.last() is Acknowledge
                        &&& (forall|k: int|
                            0 <= k < acts@.len() ==> !is_swarm_send(#[trigger] acts@[k]))
                    }))
                },
                swarm::RequestView::Message { from_app_uuid, to_app_uuid, message } => {
                    &&& r is Ok
                    &&& message_received(
                        old(self).store,
                        final(self).store,
                        peer@,
                        old(self).local_peer_id@,
                        from_app_uuid,
                        to_app_uuid,
                        message,
                        now,
                        old(self).store.next_inbox_id,
                    )
                    &&& (r matches Result::Ok(acts) ==> ({
                        let s = final(self).store;
                        let to_app = crate::store::app_id_of(
                            s,
                            crate::store::peer_id_of(s, old(self).local_peer_id@),
                            to_app_uuid,
                        );
                        let inbox_id = old(self).store.next_inbox_id;
                        let subs = old(self).inbox_subscribers@.filter(
                            |e: InboxSubscriber| e.app_id == to_app,
                        );
                        &&& acts@.len() == subs.len() + 1
                        &&& (forall|k: int|
                            0 <= k < subs.len() ==> is_publish(
                                #[trigger] acts@[k],
                                subs[k].request_id,
                                ResponseBodyView::Message(
                                    crate::protocol::MessageView {
                                        id: inbox_id as u64,
                                        peer: peer@,
                                        uuid: from_app_uuid,
                                        message,
                                    },
                                ),
                            ))
                        &&& acts@.last() is Acknowledge
                    }))
                },
            },
    {
        match request {
            swarm::Request::Announce { app_uuid, data } => {
                let mut actions = self.apply_announce(peer, app_uuid.as_str(), &data, now);
                actions.push(Action::Acknowledge);
                Result::Ok(actions)
            },
            swarm::Request::Message { from_app_uuid, to_app_uuid, message } => {
                let (to_app, inbox_id) = self.apply_message(
                    peer,
                    from_app_uuid.as_str(),
                    to_app_uuid.as_str(),
                    &message,
                    now,
                );
                let mut actions = self.inbox_subscribers_send(
                    to_app,
                    inbox_id as u64,
                    peer,
                    from_app_uuid.as_str(),
                    &message,
                );
                actions.push(Action::Acknowledge);
                Result::Ok(actions)
            },
        }
    }

    /// Records one inbound message: creates the sending peer, the
    /// sending app and the local destination app on first reference,
    /// interns the blob and appends the inbox row.  Returns the
    /// destination app's row id and the fresh inbox id.
    #[verifier::rlimit(100)]
    #[verifier::spinoff_prover]
    fn apply_message(
        &mut self,
        peer: &str,
        from_app_uuid: &str,
        to_app_uuid: &str,
        message: &Vec<u8>,
        now: i64,
    ) -> (r: (i64, i64))
        requires
            old(self).wf(),
            old(self).store.next_peer_id < 0x7fff_ffff_ffff_fffe,
            old(self).store.next_app_id < 0x7fff_ffff_ffff_fffe,
            old(self).store.next_blob_id < 0x7fff_ffff_ffff_ffff,
            old(self).store.next_inbox_id < 0x7fff_ffff_ffff_ffff,
        ensures
            final(self).wf(),
            *final(self) == (Daemon { store: final(self).store, ..*old(self) }),
            message_received(
                old(self).store,
                final(self).store,
                peer@,
                old(self).local_peer_id@,
                from_app_uuid@,
                to_app_uuid@,
                message@,
                now,
                old(self).store.next_inbox_id,
            ),
            r.0 == crate::store::app_id_of(
                final(self).store,
                crate::store::peer_id_of(final(self).store, old(self).local_peer_id@),
                to_app_uuid@,
            ),
            r.1 == old(self).store.next_inbox_id,
    {
        let ghost s0 = self.store;
        let sender_row = self.store.get_or_put_peer(peer);
        let ghost s1 = self.store;
        let from_app = self.store.get_or_put_app(sender_row, from_app_uuid);
        let ghost s2 = self.store;
        let local_row = self.store.get_or_put_peer(self.local_peer_id.as_str());
        let ghost s3 = self.store;
        proof {
            assert(crate::store::has_peer(s3, peer@)) by {
                let w = choose|k: int|
                    0 <= k < s1.peers@.len() && (#[trigger] s1.peers@[k]).peer_id@
                        == peer@;
                assert(s3.peers@[w].peer_id@ == peer@);
            }
            assert(crate::store::peer_id_of(s3, peer@) == sender_row) by {
                let w = choose|k: int|
                    0 <= k < s3.peers@.len() && (#[trigger] s3.peers@[k]).peer_id@
                        == peer@;
                let v = choose|k: int|
                    0 <= k < s1.peers@.len() && (#[trigger] s1.peers@[k]).peer_id@
                        == peer@;
                assert(s3.peers@[v].peer_id@ == peer@);
                assert(s3.peers@[v].id == crate::store::peer_id_of(s1, peer@));
                assert(s3.peers@[w].peer_id@ == s3.peers@[v].peer_id@);
                assert(w == v);
            }
        }
        let to_app = self.store.get_or_put_app(local_row, to_app_uuid);
        let ghost s4 = self.store;
        proof {
            assert(s4.peers == s3.peers);
            assert(crate::store::has_app(s4, sender_row, from_app_uuid@)) by {
                let w = choose|k: int|
                    0 <= k < s2.apps@.len() && (#[trigger] s2.apps@[k]).peer_id
                        == sender_row && s2.apps@[k].uuid@ == from_app_uuid@;
                assert(s4.apps@[w].peer_id == sender_row && s4.apps@[w].uuid@
                    == from_app_uuid@);
            }
            assert(crate::store::app_id_of(s4, sender_row, from_app_uuid@)
                == from_app) by {
                let w = choose|k: int|
                    0 <= k < s4.apps@.len() && (#[trigger] s4.apps@[k]).peer_id
                        == sender_row && s4.apps@[k].uuid@ == from_app_uuid@;
                let v = choose|k: int|
                    0 <= k < s2.apps@.len() && (#[trigger] s2.apps@[k]).peer_id
                        == sender_row && s2.apps@[k].uuid@ == from_app_uuid@;
                assert(s4.apps@[v].peer_id == sender_row && s4.apps@[v].uuid@
                    == from_app_uuid@);
                assert(s4.apps@[v].id == from_app);
                assert(!(s4.apps@[w].peer_id == s4.apps@[v].peer_id && s4.apps@[w].uuid@
                    == s4.apps@[v].uuid@) || w == v);
            }
            assert(crate::store::has_app_row(s4, from_app)) by {
                let v = choose|k: int|
                    0 <= k < s2.apps@.len() && (#[trigger] s2.apps@[k]).id == from_app;
                assert(s4.apps@[v].id == from_app);
            }
        }
        let blob_id = self.store.get_or_put_message_data(&message);
        let ghost s5 = self.store;
        proof {
            assert(s5.apps == s4.apps && s5.peers == s4.peers);
            assert(crate::store::has_app_row(s5, from_app)) by {
                let v = choose|k: int|
                    0 <= k < s4.apps@.len() && (#[trigger] s4.apps@[k]).id == from_app;
                assert(s5.apps@[v].id == from_app);
            }
            assert(crate::store::has_app_row(s5, to_app)) by {
                let v = choose|k: int|
                    0 <= k < s4.apps@.len() && (#[trigger] s4.apps@[k]).id == to_app;
                assert(s5.apps@[v].id == to_app);
            }
        }
        let inbox_id = self.store.put_message_inbox(now, from_app, to_app, blob_id);
        proof {
            let post = self.store;
            assert(post.peers == s3.peers && post.apps == s4.apps);
            assert(post.blobs == s5.blobs);
            assert(crate::store::has_blob(post, message@));
            assert(crate::store::blob_id_of(post, message@) == blob_id) by {
                assert(crate::store::blob_id_of(s5, message@) == blob_id);
            }
            assert(crate::store::has_peer(post, peer@)) by {
                let w = choose|k: int|
                    0 <= k < s3.peers@.len() && (#[trigger] s3.peers@[k]).peer_id@
                        == peer@;
                assert(post.peers@[w].peer_id@ == peer@);
            }
            assert(crate::store::peer_id_of(post, peer@) == sender_row) by {
                let w = choose|k: int|
                    0 <= k < post.peers@.len() && (#[trigger] post.peers@[k]).peer_id@
                        == peer@;
                let v = choose|k: int|
                    0 <= k < s3.peers@.len() && (#[trigger] s3.peers@[k]).peer_id@
                        == peer@;
                assert(post.peers@[v].peer_id@ == peer@);
                assert(post.peers@[v].id == crate::store::peer_id_of(s3, peer@));
                assert(w == v);
            }
            assert(crate::store::has_peer(post, self.local_peer_id@)) by {
                let w = choose|k: int|
                    0 <= k < s3.peers@.len() && (#[trigger] s3.peers@[k]).peer_id@
                        == self.local_peer_id@;
                assert(post.peers@[w].peer_id@ == self.local_peer_id@);
            }
            assert(crate::store::peer_id_of(post, self.local_peer_id@)
                == local_row) by {
                let w = choose|k: int|
                    0 <= k < post.peers@.len() && (#[trigger] post.peers@[k]).peer_id@
                        == self.local_peer_id@;
                let v = choose|k: int|
                    0 <= k < s3.peers@.len() && (#[trigger] s3.peers@[k]).peer_id@
                        == self.local_peer_id@;
                assert(post.peers@[v].peer_id@ == self.local_peer_id@);
                assert(post.peers@[v].id == crate::store::peer_id_of(s3, self.local_peer_id@));
                assert(w == v);
            }
            assert(crate::store::has_app(post, sender_row, from_app_uuid@)) by {
                let w = choose|k: int|
                    0 <= k < s4.apps@.len() && (#[trigger] s4.apps@[k]).peer_id
                        == sender_row && s4.apps@[k].uuid@ == from_app_uuid@;
                assert(post.apps@[w].peer_id == sender_row && post.apps@[w].uuid@
                    == from_app_uuid@);
            }
            assert(crate::store::app_id_of(post, sender_row, from_app_uuid@)
                == from_app) by {
                let w = choose|k: int|
                    0 <= k < post.apps@.len() && (#[trigger] post.apps@[k]).peer_id
                        == sender_row && post.apps@[k].uuid@ == from_app_uuid@;
                let v = choose|k: int|
                    0 <= k < s4.apps@.len() && (#[trigger] s4.apps@[k]).peer_id
                        == sender_row && s4.apps@[k].uuid@ == from_app_uuid@;
                assert(post.apps@[v].peer_id == sender_row && post.apps@[v].uuid@
                    == from_app_uuid@);
                assert(crate::store::app_id_of(s4, sender_row, from_app_uuid@)
                    == from_app);
                assert(post.apps@[v].id == from_app);
                assert(w == v);
            }
            assert(crate::store::has_app(post, local_row, to_app_uuid@)) by {
                let w = choose|k: int|
                    0 <= k < s4.apps@.len() && (#[trigger] s4.apps@[k]).peer_id
                        == local_row && s4.apps@[k].uuid@ == to_app_uuid@;
                assert(post.apps@[w].peer_id == local_row && post.apps@[w].uuid@
                    == to_app_uuid@);
            }
            assert(crate::store::app_id_of(post, local_row, to_app_uuid@) == to_app) by {
                let w = choose|k: int|
                    0 <= k < post.apps@.len() && (#[trigger] post.apps@[k]).peer_id
                        == local_row && post.apps@[k].uuid@ == to_app_uuid@;
                let v = choose|k: int|
                    0 <= k < s4.apps@.len() && (#[trigger] s4.apps@[k]).peer_id
                        == local_row && s4.apps@[k].uuid@ == to_app_uuid@;
                assert(post.apps@[v].peer_id == local_row && post.apps@[v].uuid@
                    == to_app_uuid@);
                assert(crate::store::app_id_of(s4, local_row, to_app_uuid@) == to_app);
                assert(post.apps@[v].id == to_app);
                assert(w == v);
            }
            assert(s5.inbox == s0.inbox);
            assert(s4.blobs == s0.blobs);
            if crate::store::has_peer(s0, peer@) && crate::store::has_peer(
                s0,
                self.local_peer_id@,
            ) {
                assert(s1.peers == s0.peers);
                assert(s2.peers == s1.peers);
                assert(crate::store::has_peer(s2, self.local_peer_id@)) by {
                    let w = choose|k: int|
                        0 <= k < s0.peers@.len() && (#[trigger] s0.peers@[k]).peer_id@
                            == self.local_peer_id@;
                    assert(s2.peers@[w].peer_id@ == self.local_peer_id@);
                }
                assert(s3.peers == s2.peers);
                if crate::store::has_app(
                    s0,
                    crate::store::peer_id_of(s0, peer@),
                    from_app_uuid@,
                ) && crate::store::has_app(
                    s0,
                    crate::store::peer_id_of(s0, self.local_peer_id@),
                    to_app_uuid@,
                ) {
                    assert(crate::store::peer_id_of(s0, peer@) == sender_row);
                    assert(crate::store::has_app(s1, sender_row, from_app_uuid@));
                    assert(s2.apps == s1.apps);
                    assert(crate::store::peer_id_of(s0, self.local_peer_id@)
                        == local_row) by {
                        assert(crate::store::peer_id_of(s2, self.local_peer_id@)
                            == local_row);
                    }
                    assert(crate::store::has_app(s3, local_row, to_app_uuid@)) by {
                        let w = choose|k: int|
                            0 <= k < s0.apps@.len() && (#[trigger] s0.apps@[k]).peer_id
                                == local_row && s0.apps@[k].uuid@ == to_app_uuid@;
                        assert(s3.apps@[w].peer_id == local_row && s3.apps@[w].uuid@
                            == to_app_uuid@);
                    }
                    assert(s4.apps == s3.apps);
                }
            }
            assert(message_received(
                s0,
                post,
                peer@,
                self.local_peer_id@,
                from_app_uuid@,
                to_app_uuid@,
                message@,
                now,
                s0.next_inbox_id,
            ));
        }
        (to_app, inbox_id)
    }

    /// Creates a local app instance under a caller-supplied uuid,
    /// bound to the given label.  Refused exactly when the label is
    /// already bound, or the uuid already names a local app that
    /// carries a label; nothing changes on refusal.
    #[verifier::rlimit(60)]
    pub fn create_app_with_uuid(&mut self, label: &str, uuid: String) -> (r: Result<
        String,
        DaemonError,
    >)
        requires
            old(self).wf(),
            old(self).store.next_peer_id < 0x7fff_ffff_ffff_ffff,
            old(self).store.next_app_id < 0x7fff_ffff_ffff_ffff,
        ensures
            final(self).wf(),
            *final(self) == (Daemon { store: final(self).store, ..*old(self) }),
            r is Err <==> ({
                let s = old(self).store;
                let local = old(self).local_peer_id@;
                crate::store::has_label(s, label@) || (crate::store::has_peer(s, local)
                    && crate::store::has_app(s, crate::store::peer_id_of(s, local), uuid@)
                    && crate::store::app_has_label(
                    s,
                    crate::store::app_id_of(s, crate::store::peer_id_of(s, local), uuid@),
                ))
            }),
            r matches Result::Err(e) ==> e == DaemonError::LabelTaken && *final(self) == *old(
                self,
            ),
            r matches Result::Ok(u) ==> ({
                let s = final(self).store;
                let local = old(self).local_peer_id@;
                &&& u@ == uuid@
                &&& crate::store::has_peer(s, local)
                &&& crate::store::has_app(s, crate::store::peer_id_of(s, local), uuid@)
                &&& crate::store::has_label(s, label@)
                &&& crate::store::label_app(s, label@) == crate::store::app_id_of(
                    s,
                    crate::store::peer_id_of(s, local),
                    uuid@,
                )
                &&& s.inbox == old(self).store.inbox
                &&& s.outbox == old(self).store.outbox
                &&& s.blobs == old(self).store.blobs
                &&& s.announcements == old(self).store.announcements
            }),
    {
        if self.store.label_exists(label) {
            return Result::Err(DaemonError::LabelTaken);
        }
        match self.store.get_peer(self.local_peer_id.as_str()) {
            Option::Some(p) => {
                match self.store.get_app(p, uuid.as_str()) {
                    Option::Some(a) => {
                        if self.store.app_label_exists(a) {
                            return Result::Err(DaemonError::LabelTaken);
                        }
                    },
                    Option::None => {},
                }
            },
            Option::None => {},
        }
        let ghost s0 = self.store;
        let peer_row = self.store.get_or_put_peer(self.local_peer_id.as_str());
        let ghost s1 = self.store;
        let app = self.store.get_or_put_app(peer_row, uuid.as_str());
        let ghost s2 = self.store;
        proof {
            assert(s1.labels == s0.labels);
            assert(s2.labels == s1.labels);
            assert(!crate::store::has_label(s2, label@));
            assert(!crate::store::app_has_label(s2, app)) by {
                if crate::store::app_has_label(s2, app) {
                    let w = choose|k: int|
                        0 <= k < s2.labels@.len() && (#[trigger] s2.labels@[k]).app_id == app;
                    assert(s0.labels@[w].app_id == app);
                    assert(crate::store::has_app_row(s0, app));
                    if crate::store::has_app(s0, peer_row, uuid@) {
                        assert(crate::store::app_has_label(s0, app));
                    } else {
                        let v = choose|k: int|
                            0 <= k < s0.apps@.len() && (#[trigger] s0.apps@[k]).id == app;
                        assert(s0.apps@[v].id < s0.next_app_id);
                        assert(app == s1.next_app_id || crate::store::has_app(
                            s1,
                            peer_row,
                            uuid@,
                        ));
                    }
                }
            }
        }
        match self.store.put_app_label(app, label) {
            Result::Ok(()) => Result::Ok(uuid),
            Result::Err(_) => {
                proof {
                    assert(false);
                }
                vstd::pervasive::unreached()
            },
        }
    }

    /// Creates a local app instance: a fresh random uuid under the
    /// local peer, bound to the given label.  A label that is already
    /// bound is refused and nothing changes; success is decided by
    /// `create_app_with_uuid` on the drawn uuid.
    pub fn create_app(&mut self, label: &str) -> (r: Result<String, DaemonError>)
        requires
            old(self).wf(),
            old(self).store.next_peer_id < 0x7fff_ffff_ffff_ffff,
            old(self).store.next_app_id < 0x7fff_ffff_ffff_ffff,
        ensures
            final(self).wf(),
            *final(self) == (Daemon { store: final(self).store, ..*old(self) }),
            crate::store::has_label(old(self).store, label@) ==> r is Err,
            old(self).store.labels@.len() == 0 ==> r is Ok,
            r matches Result::Err(e) ==> e == DaemonError::LabelTaken && *final(self) == *old(
                self,
            ),
            r is Err ==> crate::store::has_label(old(self).store, label@) || (exists|i: int|
                0 <= i < old(self).store.labels@.len() && crate::store::app_peer(
                    old(self).store,
                    (#[trigger] old(self).store.labels@[i]).app_id,
                ) == crate::store::peer_id_of(old(self).store, old(self).local_peer_id@)),
            r matches Result::Ok(uuid) ==> ({
                let s = final(self).store;
                let local = old(self).local_peer_id@;
                &&& uuid@.len() == 36
                &&& !crate::store::has_label(old(self).store, label@)
                &&& crate::store::has_peer(s, local)
                &&& crate::store::has_app(s, crate::store::peer_id_of(s, local), uuid@)
                &&& crate::store::has_label(s, label@)
                &&& crate::store::label_app(s, label@) == crate::store::app_id_of(
                    s,
                    crate::store::peer_id_of(s, local),
                    uuid@,
                )
                &&& s.inbox == old(self).store.inbox
                &&& s.outbox == old(self).store.outbox
                &&& s.blobs == old(self).store.blobs
                &&& s.announcements == old(self).store.announcements
            }),
    {
        let uuid = Store::generate_app_uuid();
        let ghost uuid_text = uuid@;
        let r = self.create_app_with_uuid(label, uuid);
        proof {
            let s = old(self).store;
            let local = old(self).local_peer_id@;
            if r is Err && !crate::store::has_label(s, label@) {
                let pid = crate::store::peer_id_of(s, local);
                let a = crate::store::app_id_of(s, pid, uuid_text);
                assert(crate::store::has_app(s, pid, uuid_text));
                assert(crate::store::app_has_label(s, a));
                let w = choose|k: int|
                    0 <= k < s.labels@.len() && (#[trigger] s.labels@[k]).app_id == a;
                let v = choose|k: int|
                    0 <= k < s.apps@.len() && (#[trigger] s.apps@[k]).peer_id == pid
                        && s.apps@[k].uuid@ == uuid_text;
                assert(s.apps@[v].id == a);
                assert(crate::store::app_peer(s, a) == pid) by {
                    let u = choose|k: int|
                        0 <= k < s.apps@.len() && (#[trigger] s.apps@[k]).id == a;
                    assert(s.apps@[u].id == s.apps@[v].id);
                    assert(u == v);
                }
                assert(s.labels@[w].app_id == a && crate::store::app_peer(s, s.labels@[w].app_id)
                    == pid);
            }
        }
        r
    }

    /// The uuid bound to a label, if any.
    pub fn get_app_uuid(&self, label: &str) -> (r: Option<String>)
        requires
            self.wf(),
        ensures
            match r {
                Option::Some(uuid) => crate::store::has_label(self.store, label@) && uuid@
                    == crate::store::app_uuid(
                    self.store,
                    crate::store::label_app(self.store, label@),
                ),
                Option::None => !crate::store::has_label(self.store, label@),
            },
    {
        match self.store.get_app_by_label(label) {
            Option::Some(app_id) => {
                match self.store.get_app_uuid(app_id) {
                    Option::Some(uuid) => Option::Some(uuid),
                    Option::None => {
                        proof {
                            assert(false);
                        }
                        vstd::pervasive::unreached()
                    },
                }
            },
            Option::None => Option::None,
        }
    }

    /// Builds the overlay send for an announcement addressed to a
    /// remote peer.  A peer id that does not parse is refused.
    pub fn send_announce(&self, to_peer: &str, app_uuid: String, data: JsonValue) -> (r: Result<
        Vec<Action>,
        DaemonError,
    >)
        ensures
            r is Ok <==> is_valid_peer_id(to_peer@),
            r matches Result::Err(e) ==> e == DaemonError::InvalidPeerId,
            r matches Result::Ok(acts) ==> acts@.len() == 1 && (acts@[0] matches
                Action::SwarmSend { peer, request } && peer@ == to_peer@ && request@
                == (swarm::RequestView::Announce { app_uuid: app_uuid@, data: data@ })),
    {
        if !peer_id_valid(to_peer) {
            return Result::Err(DaemonError::InvalidPeerId);
        }
        let mut acts: Vec<Action> = Vec::new();
        acts.push(Action::SwarmSend {
            peer: to_peer.to_owned(),
            request: swarm::Request::Announce { app_uuid, data },
        });
        Result::Ok(acts)
    }

    /// Queues an outbound message: interns the blob, appends an outbox
    /// row, and asks the event loop to send the overlay request and
    /// register the delivery attempt under the overlay's request id.
    /// Succeeds exactly when both apps are known and the peer id
    /// parses; nothing changes on failure.
    #[verifier::rlimit(60)]
    pub fn send_message(
        &mut self,
        to_peer: &str,
        to_uuid: &str,
        from_uuid: &str,
        message: Vec<u8>,
        now: i64,
    ) -> (r: Result<Vec<Action>, DaemonError>)
        requires
            old(self).wf(),
            old(self).store.next_blob_id < 0x7fff_ffff_ffff_ffff,
            old(self).store.next_outbox_id < 0x7fff_ffff_ffff_ffff,
        ensures
            final(self).wf(),
            *final(self) == (Daemon { store: final(self).store, ..*old(self) }),
            r is Ok <==> ({
                let s = old(self).store;
                let local = old(self).local_peer_id@;
                &&& crate::store::has_peer(s, local)
                &&& crate::store::has_peer(s, to_peer@)
                &&& crate::store::has_app(s, crate::store::peer_id_of(s, local), from_uuid@)
                &&& crate::store::has_app(s, crate::store::peer_id_of(s, to_peer@), to_uuid@)
                &&& is_valid_peer_id(to_peer@)
            }),
            r is Err ==> *final(self) == *old(self),
            r matches Result::Err(e) ==> Option::Some(e) == send_refusal(
                old(self).store,
                old(self).local_peer_id@,
                to_peer@,
                to_uuid@,
                from_uuid@,
            ),
            r matches Result::Ok(acts) ==> ({
                let s = old(self).store;
                let local = old(self).local_peer_id@;
                let from_app = crate::store::app_id_of(
                    s,
                    crate::store::peer_id_of(s, local),
                    from_uuid@,
                );
                let to_app = crate::store::app_id_of(
                    s,
                    crate::store::peer_id_of(s, to_peer@),
                    to_uuid@,
                );
                let outbox_id = s.next_outbox_id;
                &&& message_queued(
                    s,
                    final(self).store,
                    from_app,
                    to_app,
                    message@,
                    now,
                    outbox_id,
                )
                &&& acts@.len() == 1
                &&& (acts@[0] matches Action::SwarmSendTracked { peer, request, outbox_id: o }
                    && peer@ == to_peer@ && o == outbox_id && request@ == (
                swarm::RequestView::Message {
                    from_app_uuid: from_uuid@,
                    to_app_uuid: to_uuid@,
                    message: message@,
                }))
            }),
    {
        let local_row = match self.store.get_peer(self.local_peer_id.as_str()) {
            Option::Some(id) => id,
            Option::None => {
                return Result::Err(DaemonError::UnknownFromApp);
            },
        };
        let to_row = match self.store.get_peer(to_peer) {
            Option::Some(id) => id,
            Option::None => {
                return Result::Err(DaemonError::UnknownToApp);
            },
        };
        let from_app = match self.store.get_app(local_row, from_uuid) {
            Option::Some(id) => id,
            Option::None => {
                return Result::Err(DaemonError::UnknownFromApp);
            },
        };
        let to_app = match self.store.get_app(to_row, to_uuid) {
            Option::Some(id) => id,
            Option::None => {
                return Result::Err(DaemonError::UnknownToApp);
            },
        };
        if !peer_id_valid(to_peer) {
            return Result::Err(DaemonError::InvalidPeerId);
        }
        let blob_id = self.store.get_or_put_message_data(&message);
        let ghost s1 = self.store;
        proof {
            let s0 = old(self).store;
            assert(s1.apps == s0.apps);
            let wf0 = choose|k: int|
                0 <= k < s0.apps@.len() && (#[trigger] s0.apps@[k]).id == from_app;
            assert(s1.apps@[wf0].id == from_app);
            let wt0 = choose|k: int|
                0 <= k < s0.apps@.len() && (#[trigger] s0.apps@[k]).id == to_app;
            assert(s1.apps@[wt0].id == to_app);
        }
        let outbox_id = self.store.put_message_outbox(now, from_app, to_app, blob_id);
        proof {
            let s2 = self.store;
            assert(s2.blobs == s1.blobs);
            assert(crate::store::blob_id_of(s2, message@) == blob_id) by {
                assert(crate::store::blob_id_of(s1, message@) == blob_id);
            }
        }
        let mut acts: Vec<Action> = Vec::new();
        acts.push(Action::SwarmSendTracked {
            peer: to_peer.to_owned(),
            request: swarm::Request::Message {
                from_app_uuid: from_uuid.to_owned(),
                to_app_uuid: to_uuid.to_owned(),
                message,
            },
            outbox_id,
        });
        Result::Ok(acts)
    }
}

impl Daemon {
    /// Dispatches one client request at time `now`, returning the
    /// actions to perform.  Every response action carries the id of
    /// the request that triggered it.  Subscription requests register
    /// the reply queue and produce no immediate response.
    #[verifier::loop_isolation(false)]
    #[verifier::rlimit(100)]
    #[verifier::spinoff_prover]
    pub fn handle_request(&mut self, request_id: u64, body: RequestBody, now: i64) -> (r: Result<
        Vec<Action>,
        DaemonError,
    >)
        requires
            old(self).wf(),
            old(self).store.next_peer_id < 0x7fff_ffff_ffff_ffff,
            old(self).store.next_app_id < 0x7fff_ffff_ffff_ffff,
            old(self).store.next_blob_id < 0x7fff_ffff_ffff_ffff,
            old(self).store.next_inbox_id < 0x7fff_ffff_ffff_ffff,
            old(self).store.next_outbox_id < 0x7fff_ffff_ffff_ffff,
        ensures
            final(self).wf(),
            final(self).local_peer_id == old(self).local_peer_id,
            final(self).delivery_attempts == old(self).delivery_attempts,
            final(self).peers == old(self).peers,
            r matches Result::Ok(acts) ==> (forall|k: int|
                0 <= k < acts@.len() ==> ((#[trigger] acts@[k]) matches Action::Respond {
                    request_id: rid,
                    ..
                } ==> rid == request_id)),
            r matches Result::Ok(acts) ==> (match body@ {
                crate::protocol::RequestBodyView::SubscribePeerEvents => acts@.len() == 0,
                crate::protocol::RequestBodyView::SubscribeAnnounceEvents => acts@.len() == 0,
                crate::protocol::RequestBodyView::SubscribeInboxEvents { .. } => acts@.len() == 0,
                _ => single_reply(acts@, request_id),
            }),
            match body@ {
                crate::protocol::RequestBodyView::CreateAppInstance { label } => {
                    &&& *final(self) == (Daemon { store: final(self).store, ..*old(self) })
                    &&& crate::store::has_label(old(self).store, label) ==> r is Err
                    &&& (old(self).store.labels@.len() == 0 ==> r is Ok)
                    &&& (r matches Result::Err(e) ==> e == DaemonError::LabelTaken && *final(self)
                        == *old(self))
                    &&& (r is Err ==> crate::store::has_label(old(self).store, label) || (exists|
                        i: int,
                    |
                        0 <= i < old(self).store.labels@.len() && crate::store::app_peer(
                            old(self).store,
                            (#[trigger] old(self).store.labels@[i]).app_id,
                        ) == crate::store::peer_id_of(old(self).store, old(self).local_peer_id@)))
                    &&& (r matches Result::Ok(acts) ==> ({
                        let s = final(self).store;
                        let local = old(self).local_peer_id@;
                        &&& acts@.len() == 1
                        &&& (acts@[0] matches Action::Respond { request_id: rid, body: b } && rid
                            == request_id && (b@ matches
                        ResponseBodyView::CreateAppInstance { uuid } && {
                            &&& uuid.len() == 36
                            &&& !crate::store::has_label(old(self).store, label)
                            &&& crate::store::has_label(s, label)
                            &&& crate::store::has_peer(s, local)
                            &&& crate::store::has_app(s, crate::store::peer_id_of(s, local), uuid)
                            &&& crate::store::label_app(s, label) == crate::store::app_id_of(
                                s,
                                crate::store::peer_id_of(s, local),
                                uuid,
                            )
                        }))
                    }))
                },
                crate::protocol::RequestBodyView::AppInstanceUuid { label } => {
                    &&& *final(self) == *old(self)
                    &&& (r matches Result::Ok(acts) && acts@.len() == 1)
                    &&& (r matches Result::Ok(acts) ==> is_respond(
                        acts@[0],
                        request_id,
                        ResponseBodyView::AppInstanceUuid {
                            uuid: if crate::store::has_label(old(self).store, label) {
                                Option::Some(
                                    crate::store::app_uuid(
                                        old(self).store,
                                        crate::store::label_app(old(self).store, label),
                                    ),
                                )
                            } else {
                                Option::None
                            },
                        },
                    ))
                },
                crate::protocol::RequestBodyView::LocalPeerId => {
                    &&& *final(self) == *old(self)
                    &&& (r matches Result::Ok(acts) && acts@.len() == 1)
                    &&& (r matches Result::Ok(acts) ==> is_respond(
                        acts@[0],
                        request_id,
                        ResponseBodyView::LocalPeerId { peer_id: old(self).local_peer_id@ },
                    ))
                },
                crate::protocol::RequestBodyView::Peers => {
                    &&& *final(self) == *old(self)
                    &&& (r matches Result::Ok(acts) && acts@.len() == 1)
                    &&& (r matches Result::Ok(acts) ==> (acts@[0] matches Action::Respond {
                        request_id: rid,
                        body: b,
                    } && rid == request_id && (b@ matches ResponseBodyView::Peers { peers } && {
                        &&& peers.len() == old(self).peers@.len()
                        &&& (forall|i: int|
                            0 <= i < peers.len() ==> peers[i] == (
                            #[trigger] old(self).peers@[i]).peer_id@)
                    })))
                },
                crate::protocol::RequestBodyView::Announce { peer, app_uuid, data } => {
                    if peer == old(self).local_peer_id@ {
                        &&& r is Ok
                        &&& *final(self) == (Daemon { store: final(self).store, ..*old(self) })
                        &&& announce_applied(
                            old(self).store,
                            final(self).store,
                            peer,
                            app_uuid,
                            now,
                            data,
                        )
                        &&& (r matches Result::Ok(acts) ==> ({
                            let subs = old(self).announce_subscribers@;
                            &&& acts@.len() == subs.len() + 1
                            &&& (forall|k: int|
                                0 <= k < subs.len() ==> is_publish(
                                    #[trigger] acts@[k],
                                    subs[k],
                                    ResponseBodyView::AppAnnouncement { peer, app_uuid, data },
                                ))
                            &&& is_respond(
                                acts@[subs.len() as int],
                                request_id,
                                ResponseBodyView::Success,
                            )
                            &&& (forall|k: int|
                                0 <= k < acts@.len() ==> !is_swarm_send(#[trigger] acts@[k]))
                        }))
                    } else {
                        &&& (r is Ok <==> is_valid_peer_id(peer))
                        &&& (r matches Result::Err(e) ==> e == DaemonError::InvalidPeerId
                            && *final(self) == *old(self))
                        &&& (r matches Result::Ok(acts) ==> *final(self) == *old(self)
                            && acts@.len() == 2 && (acts@[0] matches Action::SwarmSend {
                            peer: p,
                            request,
                        } && p@ == peer && request@ == (swarm::RequestView::Announce {
                            app_uuid,
                            data,
                        })) && is_respond(acts@[1], request_id, ResponseBodyView::Success))
                    }
                },
                crate::protocol::RequestBodyView::SendMessage {
                    peer,
                    app_uuid,
                    from_app_uuid,
                    message,
                } => {
                    &&& *final(self) == (Daemon { store: final(self).store, ..*old(self) })
                    &&& (r is Ok <==> ({
                        let s = old(self).store;
                        let local = old(self).local_peer_id@;
                        &&& crate::store::has_peer(s, local)
                        &&& crate::store::has_peer(s, peer)
                        &&& crate::store::has_app(
                            s,
                            crate::store::peer_id_of(s, local),
                            from_app_uuid,
                        )
                        &&& crate::store::has_app(s, crate::store::peer_id_of(s, peer), app_uuid)
                        &&& is_valid_peer_id(peer)
                    }))
                    &&& (r is Err ==> *final(self) == *old(self))
                    &&& (r matches Result::Err(e) ==> Option::Some(e) == send_refusal(
                        old(self).store,
                        old(self).local_peer_id@,
                        peer,
                        app_uuid,
                        from_app_uuid,
                    ))
                    &&& (r matches Result::Ok(acts) ==> ({
                        let s = old(self).store;
                        let local = old(self).local_peer_id@;
                        let from_app = crate::store::app_id_of(
                            s,
                            crate::store::peer_id_of(s, local),
                            from_app_uuid,
                        );
                        let to_app = crate::store::app_id_of(
                            s,
                            crate::store::peer_id_of(s, peer),
                            app_uuid,
                        );
                        &&& message_queued(
                            s,
                            final(self).store,
                            from_app,
                            to_app,
                            message,
                            now,
                            s.next_outbox_id,
                        )
                        &&& acts@.len() == 2
                        &&& (acts@[0] matches Action::SwarmSendTracked {
                            peer: p,
                            request,
                            outbox_id,
                        } && p@ == peer && outbox_id == s.next_outbox_id && request@ == (
                        swarm::RequestView::Message {
                            from_app_uuid,
                            to_app_uuid: app_uuid,
                            message,
                        }))
                        &&& is_respond(acts@[1], request_id, ResponseBodyView::Success)
                    }))
                },
                crate::protocol::RequestBodyView::InboxMessages { app_uuid } => {
                    &&& r is Ok
                    &&& *final(self) == (Daemon { store: final(self).store, ..*old(self) })
                    &&& final(self).store == (Store {
                        peers: final(self).store.peers,
                        apps: final(self).store.apps,
                        next_peer_id: final(self).store.next_peer_id,
                        next_app_id: final(self).store.next_app_id,
                        ..old(self).store
                    })
                    &&& (forall|j: int|
                        0 <= j < old(self).store.peers@.len() ==> final(self).store.peers@[j]
                            == old(self).store.peers@[j])
                    &&& old(self).store.peers@.len() <= final(self).store.peers@.len()
                    &&& (forall|j: int|
                        0 <= j < old(self).store.apps@.len() ==> final(self).store.apps@[j]
                            == old(self).store.apps@[j])
                    &&& old(self).store.apps@.len() <= final(self).store.apps@.len()
                    &&& crate::store::has_peer(final(self).store, old(self).local_peer_id@)
                    &&& ({
                        let s = final(self).store;
                        let app = crate::store::app_id_of(
                            s,
                            crate::store::peer_id_of(s, old(self).local_peer_id@),
                            app_uuid,
                        );
                        &&& crate::store::has_app(
                            s,
                            crate::store::peer_id_of(s, old(self).local_peer_id@),
                            app_uuid,
                        )
                        &&& (r matches Result::Ok(acts) ==> acts@.len() == 1 && (acts@[0] matches
                        Action::Respond { request_id: rid, body: b } && rid == request_id && (b@
                            matches ResponseBodyView::InboxMessages { messages } && {
                            let rows = crate::store::inbox_rows_for(s, app);
                            &&& messages.len() == rows.len()
                            &&& (forall|i: int|
                                0 <= i < messages.len() ==> #[trigger] messages[i]
                                    == crate::store::message_of_row(s, rows[i]))
                            &&& (forall|i: int, j: int|
                                0 <= i < j < messages.len() ==> messages[i].id < messages[j].id)
                        })))
                    })
                },
                crate::protocol::RequestBodyView::DeleteInboxMessage { app_uuid, message_id } => {
                    &&& *final(self) == (Daemon { store: final(self).store, ..*old(self) })
                    &&& (forall|j: int|
                        0 <= j < old(self).store.peers@.len() ==> final(self).store.peers@[j]
                            == old(self).store.peers@[j])
                    &&& old(self).store.peers@.len() <= final(self).store.peers@.len()
                    &&& (forall|j: int|
                        0 <= j < old(self).store.apps@.len() ==> final(self).store.apps@[j]
                            == old(self).store.apps@[j])
                    &&& old(self).store.apps@.len() <= final(self).store.apps@.len()
                    &&& (r is Ok <==> message_id <= 0x7fff_ffff_ffff_ffff)
                    &&& (r matches Result::Err(e) ==> e == DaemonError::InvalidMessageId
                        && *final(self) == *old(self))
                    &&& (r matches Result::Ok(acts) ==> ({
                        let s = final(self).store;
                        let app = crate::store::app_id_of(
                            s,
                            crate::store::peer_id_of(s, old(self).local_peer_id@),
                            app_uuid,
                        );
                        &&& acts@.len() == 1
                        &&& is_respond(acts@[0], request_id, ResponseBodyView::Success)
                        &&& s == (Store {
                            peers: s.peers,
                            apps: s.apps,
                            inbox: s.inbox,
                            next_peer_id: s.next_peer_id,
                            next_app_id: s.next_app_id,
                            ..old(self).store
                        })
                        &&& (forall|j: int|
                            0 <= j < s.inbox@.len() ==> !((#[trigger] s.inbox@[j]).id
                                == message_id as i64 && s.inbox@[j].to_app_id == app))
                        &&& (forall|j: int|
                            0 <= j < s.inbox@.len() ==> old(self).store.inbox@.contains(
                                #[trigger] s.inbox@[j],
                            ))
                        &&& (forall|j: int|
                            0 <= j < old(self).store.inbox@.len() && !((
                            #[trigger] old(self).store.inbox@[j]).id == message_id as i64 && old(
                                self,
                            ).store.inbox@[j].to_app_id == app) ==> s.inbox@.contains(
                                old(self).store.inbox@[j],
                            ))
                    }))
                },
                crate::protocol::RequestBodyView::AppAnnouncements => {
                    &&& *final(self) == *old(self)
                    &&& (r matches Result::Ok(acts) && acts@.len() == 1)
                    &&& (r matches Result::Ok(acts) ==> (acts@[0] matches Action::Respond {
                        request_id: rid,
                        body: b,
                    } && rid == request_id && (b@ matches ResponseBodyView::AppAnnouncements {
                        announcements,
                    } && {
                        let s = old(self).store;
                        &&& announcements.len() == s.announcements@.len()
                        &&& (forall|i: int|
                            0 <= i < announcements.len() ==> #[trigger] announcements[i]
                                == crate::store::announcement_of_row(s, s.announcements@[i]))
                    })))
                },
                crate::protocol::RequestBodyView::SubscribePeerEvents => {
                    &&& r is Ok
                    &&& (r matches Result::Ok(acts) ==> acts@.len() == 0)
                    &&& *final(self) == (Daemon {
                        peer_subscribers: final(self).peer_subscribers,
                        ..*old(self)
                    })
                    &&& (forall|x: u64|
                        peer_subscribed(*final(self), x) <==> peer_subscribed(*old(self), x) || x
                            == request_id)
                },
                crate::protocol::RequestBodyView::SubscribeAnnounceEvents => {
                    &&& r is Ok
                    &&& (r matches Result::Ok(acts) ==> acts@.len() == 0)
                    &&& *final(self) == (Daemon {
                        announce_subscribers: final(self).announce_subscribers,
                        ..*old(self)
                    })
                    &&& (forall|x: u64|
                        announce_subscribed(*final(self), x) <==> announce_subscribed(
                            *old(self),
                            x,
                        ) || x == request_id)
                },
                crate::protocol::RequestBodyView::SubscribeInboxEvents { app_uuid } => {
                    &&& r is Ok
                    &&& (r matches Result::Ok(acts) ==> acts@.len() == 0)
                    &&& *final(self) == (Daemon {
                        store: final(self).store,
                        inbox_subscribers: final(self).inbox_subscribers,
                        ..*old(self)
                    })
                    &&& final(self).store == (Store {
                        peers: final(self).store.peers,
                        apps: final(self).store.apps,
                        next_peer_id: final(self).store.next_peer_id,
                        next_app_id: final(self).store.next_app_id,
                        ..old(self).store
                    })
                    &&& (forall|j: int|
                        0 <= j < old(self).store.peers@.len() ==> final(self).store.peers@[j]
                            == old(self).store.peers@[j])
                    &&& old(self).store.peers@.len() <= final(self).store.peers@.len()
                    &&& (forall|j: int|
                        0 <= j < old(self).store.apps@.len() ==> final(self).store.apps@[j]
                            == old(self).store.apps@[j])
                    &&& old(self).store.apps@.len() <= final(self).store.apps@.len()
                    &&& crate::store::has_peer(final(self).store, old(self).local_peer_id@)
                    &&& ({
                        let s = final(self).store;
                        let app = crate::store::app_id_of(
                            s,
                            crate::store::peer_id_of(s, old(self).local_peer_id@),
                            app_uuid,
                        );
                        &&& crate::store::has_app(
                            s,
                            crate::store::peer_id_of(s, old(self).local_peer_id@),
                            app_uuid,
                        )
                        &&& (forall|a: i64, x: u64|
                            inbox_subscribed(*final(self), a, x) <==> inbox_subscribed(
                                *old(self),
                                a,
                                x,
                            ) || (a == app && x == request_id))
                    })
                },
                crate::protocol::RequestBodyView::DialAddress { address } => {
                    &&& (r is Ok <==> is_valid_multiaddr(address))
                    &&& (r matches Result::Err(e) ==> e == DaemonError::InvalidAddress
                        && *final(self) == *old(self))
                    &&& (r matches Result::Ok(acts) ==> *final(self) == *old(self) && acts@.len()
                        == 2 && (acts@[0] matches Action::Dial { address: a } && a@ == address)
                        && is_respond(acts@[1], request_id, ResponseBodyView::Success))
                },
                crate::protocol::RequestBodyView::GetLastPort { app_uuid } => {
                    &&& r is Ok
                    &&& *final(self) == (Daemon { store: final(self).store, ..*old(self) })
                    &&& final(self).store == (Store {
                        peers: final(self).store.peers,
                        apps: final(self).store.apps,
                        next_peer_id: final(self).store.next_peer_id,
                        next_app_id: final(self).store.next_app_id,
                        ..old(self).store
                    })
                    &&& (forall|j: int|
                        0 <= j < old(self).store.peers@.len() ==> final(self).store.peers@[j]
                            == old(self).store.peers@[j])
                    &&& old(self).store.peers@.len() <= final(self).store.peers@.len()
                    &&& (forall|j: int|
                        0 <= j < old(self).store.apps@.len() ==> final(self).store.apps@[j]
                            == old(self).store.apps@[j])
                    &&& old(self).store.apps@.len() <= final(self).store.apps@.len()
                    &&& crate::store::has_app(
                        final(self).store,
                        crate::store::peer_id_of(final(self).store, old(self).local_peer_id@),
                        app_uuid,
                    )
                    &&& ({
                        let s = final(self).store;
                        let app = crate::store::app_id_of(
                            s,
                            crate::store::peer_id_of(s, old(self).local_peer_id@),
                            app_uuid,
                        );
                        r matches Result::Ok(acts) ==> acts@.len() == 1 && (acts@[0] matches
                        Action::Respond { request_id: rid, body: b } && rid == request_id && (b@
                            matches ResponseBodyView::GetLastPort { port } && {
                            &&& (port is Some <==> crate::store::has_port(s, app))
                            &&& (port matches Option::Some(p) ==> exists|i: int|
                                0 <= i < s.ports@.len() && (#[trigger] s.ports@[i]).app_id == app
                                    && s.ports@[i].port == p)
                        }))
                    })
                },
                crate::protocol::RequestBodyView::SetLastPort { app_uuid, port } => {
                    &&& r is Ok
                    &&& *final(self) == (Daemon { store: final(self).store, ..*old(self) })
                    &&& final(self).store == (Store {
                        peers: final(self).store.peers,
                        apps: final(self).store.apps,
                        ports: final(self).store.ports,
                        next_peer_id: final(self).store.next_peer_id,
                        next_app_id: final(self).store.next_app_id,
                        ..old(self).store
                    })
                    &&& (forall|j: int|
                        0 <= j < old(self).store.peers@.len() ==> final(self).store.peers@[j]
                            == old(self).store.peers@[j])
                    &&& old(self).store.peers@.len() <= final(self).store.peers@.len()
                    &&& (forall|j: int|
                        0 <= j < old(self).store.apps@.len() ==> final(self).store.apps@[j]
                            == old(self).store.apps@[j])
                    &&& old(self).store.apps@.len() <= final(self).store.apps@.len()
                    &&& crate::store::has_app(
                        final(self).store,
                        crate::store::peer_id_of(final(self).store, old(self).local_peer_id@),
                        app_uuid,
                    )
                    &&& ({
                        let s = final(self).store;
                        let app = crate::store::app_id_of(
                            s,
                            crate::store::peer_id_of(s, old(self).local_peer_id@),
                            app_uuid,
                        );
                        &&& crate::store::has_port(s, app)
                        &&& (forall|i: int|
                            0 <= i < s.ports@.len() && (#[trigger] s.ports@[i]).app_id == app
                                ==> s.ports@[i].port == port)
                        &&& (forall|i: int|
                            0 <= i < old(self).store.ports@.len() && (
                            #[trigger] old(self).store.ports@[i]).app_id != app
                                ==> s.ports@.contains(old(self).store.ports@[i]))
                        &&& (forall|i: int|
                            0 <= i < s.ports@.len() && (#[trigger] s.ports@[i]).app_id != app
                                ==> old(self).store.ports@.contains(s.ports@[i]))
                    })
                    &&& (r matches Result::Ok(acts) ==> acts@.len() == 1 && is_respond(
                        acts@[0],
                        request_id,
                        ResponseBodyView::Success,
                    ))
                },
            },
    {
        match body {
            RequestBody::CreateAppInstance { label } => {
                let uuid = self.create_app(label.as_str())?;
                let mut acts: Vec<Action> = Vec::new();
                acts.push(Action::Respond {
                    request_id,
                    body: ResponseBody::CreateAppInstance { uuid },
                });
                Result::Ok(acts)
            },
            RequestBody::AppInstanceUuid { label } => {
                let uuid = self.get_app_uuid(label.as_str());
                let mut acts: Vec<Action> = Vec::new();
                acts.push(Action::Respond {
                    request_id,
                    body: ResponseBody::AppInstanceUuid { uuid },
                });
                Result::Ok(acts)
            },
            RequestBody::LocalPeerId => {
                let mut acts: Vec<Action> = Vec::new();
                acts.push(Action::Respond {
                    request_id,
                    body: ResponseBody::LocalPeerId { peer_id: self.local_peer_id.clone() },
                });
                Result::Ok(acts)
            },
            RequestBody::Peers => {
                let mut peers: Vec<String> = Vec::new();
                let mut i: usize = 0;
                while i < self.peers.len()
                    invariant
                        i <= self.peers@.len(),
                        peers@.len() == i,
                        forall|j: int|
                            0 <= j < i ==> (#[trigger] peers@[j])@ == self.peers@[j].peer_id@,
                    decreases self.peers@.len() - i,
                {
                    peers.push(self.peers[i].peer_id.clone());
                    i += 1;
                }
                let mut acts: Vec<Action> = Vec::new();
                acts.push(Action::Respond { request_id, body: ResponseBody::Peers { peers } });
                Result::Ok(acts)
            },
            RequestBody::Announce { peer, app_uuid, data } => {
                if crate::store::str_eq(peer.as_str(), self.local_peer_id.as_str()) {
                    let mut acts = self.apply_announce(peer.as_str(), app_uuid.as_str(), &data, now);
                    acts.push(Action::Respond { request_id, body: ResponseBody::Success });
                    Result::Ok(acts)
                } else {
                    let mut acts = self.send_announce(peer.as_str(), app_uuid, data)?;
                    acts.push(Action::Respond { request_id, body: ResponseBody::Success });
                    Result::Ok(acts)
                }
            },
            RequestBody::SendMessage { peer, app_uuid, from_app_uuid, message } => {
                let mut acts = self.send_message(
                    peer.as_str(),
                    app_uuid.as_str(),
                    from_app_uuid.as_str(),
                    message,
                    now,
                )?;
                acts.push(Action::Respond { request_id, body: ResponseBody::Success });
                Result::Ok(acts)
            },
            RequestBody::InboxMessages { app_uuid } => {
                let peer_row = self.store.get_or_put_peer(self.local_peer_id.as_str());
                let app = self.store.get_or_put_app(peer_row, app_uuid.as_str());
                let messages = self.store.list_app_inbox_messages(app);
                let mut acts: Vec<Action> = Vec::new();
                acts.push(Action::Respond {
                    request_id,
                    body: ResponseBody::InboxMessages { messages },
                });
                Result::Ok(acts)
            },
            RequestBody::DeleteInboxMessage { app_uuid, message_id } => {
                if message_id > 0x7fff_ffff_ffff_ffffu64 {
                    return Result::Err(DaemonError::InvalidMessageId);
                }
                let peer_row = self.store.get_or_put_peer(self.local_peer_id.as_str());
                let app = self.store.get_or_put_app(peer_row, app_uuid.as_str());
                self.store.delete_inbox_message(app, message_id as i64);
                let mut acts: Vec<Action> = Vec::new();
                acts.push(Action::Respond { request_id, body: ResponseBody::Success });
                Result::Ok(acts)
            },
            RequestBody::AppAnnouncements => {
                let announcements = self.store.list_app_announcements();
                let mut acts: Vec<Action> = Vec::new();
                acts.push(Action::Respond {
                    request_id,
                    body: ResponseBody::AppAnnouncements { announcements },
                });
                Result::Ok(acts)
            },
            RequestBody::SubscribePeerEvents => {
                self.subscribe_peer_events(request_id);
                Result::Ok(Vec::new())
            },
            RequestBody::SubscribeAnnounceEvents => {
                self.subscribe_announce_events(request_id);
                Result::Ok(Vec::new())
            },
            RequestBody::SubscribeInboxEvents { app_uuid } => {
                let peer_row = self.store.get_or_put_peer(self.local_peer_id.as_str());
                let app = self.store.get_or_put_app(peer_row, app_uuid.as_str());
                self.subscribe_inbox_events(app, request_id);
                Result::Ok(Vec::new())
            },
            RequestBody::DialAddress { address } => {
                if !multiaddr_valid(address.as_str()) {
                    return Result::Err(DaemonError::InvalidAddress);
                }
                let mut acts: Vec<Action> = Vec::new();
                acts.push(Action::Dial { address });
                acts.push(Action::Respond { request_id, body: ResponseBody::Success });
                Result::Ok(acts)
            },
            RequestBody::GetLastPort { app_uuid } => {
                let peer_row = self.store.get_or_put_peer(self.local_peer_id.as_str());
                let app = self.store.get_or_put_app(peer_row, app_uuid.as_str());
                let port = self.store.get_last_port(app);
                let mut acts: Vec<Action> = Vec::new();
                acts.push(Action::Respond {
                    request_id,
                    body: ResponseBody::GetLastPort { port },
                });
                Result::Ok(acts)
            },
            RequestBody::SetLastPort { app_uuid, port } => {
                let peer_row = self.store.get_or_put_peer(self.local_peer_id.as_str());
                let app = self.store.get_or_put_app(peer_row, app_uuid.as_str());
                self.store.set_last_port(app, port);
                let mut acts: Vec<Action> = Vec::new();
                acts.push(Action::Respond { request_id, body: ResponseBody::Success });
                Result::Ok(acts)
            },
        }
    }

    /// Dispatches one client request and turns a refusal into an
    /// `Error` response under the same request id, so that a single
    /// client's bad request never stops the coordinator.  Every
    /// request other than a subscription is answered by exactly one
    /// response body; a refusal is answered by exactly one `Error`
    /// body carrying the refusal's diagnostic line.
    #[verifier::rlimit(100)]
    #[verifier::spinoff_prover]
    pub fn client_request(&mut self, request_id: u64, body: RequestBody, now: i64) -> (r: Vec<
        Action,
    >)
        requires
            old(self).wf(),
            old(self).store.next_peer_id < 0x7fff_ffff_ffff_ffff,
            old(self).store.next_app_id < 0x7fff_ffff_ffff_ffff,
            old(self).store.next_blob_id < 0x7fff_ffff_ffff_ffff,
            old(self).store.next_inbox_id < 0x7fff_ffff_ffff_ffff,
            old(self).store.next_outbox_id < 0x7fff_ffff_ffff_ffff,
        ensures
            final(self).wf(),
            final(self).local_peer_id == old(self).local_peer_id,
            final(self).peers == old(self).peers,
            final(self).delivery_attempts == old(self).delivery_attempts,
            forall|k: int|
                0 <= k < r@.len() ==> ((#[trigger] r@[k]) matches Action::Respond {
                    request_id: rid,
                    ..
                } ==> rid == request_id),
            match body@ {
                crate::protocol::RequestBodyView::SubscribePeerEvents => r@.len() == 0,
                crate::protocol::RequestBodyView::SubscribeAnnounceEvents => r@.len() == 0,
                crate::protocol::RequestBodyView::SubscribeInboxEvents { .. } => r@.len() == 0,
                _ => single_reply(r@, request_id),
            },
            match body@ {
                crate::protocol::RequestBodyView::CreateAppInstance { label } => {
                    &&& (crate::store::has_label(old(self).store, label) ==> error_reply(
                        r@,
                        request_id,
                        DaemonError::LabelTaken,
                    ))
                    &&& (old(self).store.labels@.len() == 0 ==> no_error_reply(r@))
                    &&& (forall|k: int|
                        0 <= k < r@.len() && is_error_respond(#[trigger] r@[k]) ==> error_reply(
                            r@,
                            request_id,
                            DaemonError::LabelTaken,
                        ))
                },
                crate::protocol::RequestBodyView::Announce { peer, .. } => {
                    if peer == old(self).local_peer_id@ {
                        no_error_reply(r@)
                    } else {
                        &&& (!is_valid_peer_id(peer) <==> error_reply(
                            r@,
                            request_id,
                            DaemonError::InvalidPeerId,
                        ))
                        &&& (is_valid_peer_id(peer) ==> no_error_reply(r@))
                    }
                },
                crate::protocol::RequestBodyView::SendMessage {
                    peer,
                    app_uuid,
                    from_app_uuid,
                    ..
                } => {
                    match send_refusal(
                        old(self).store,
                        old(self).local_peer_id@,
                        peer,
                        app_uuid,
                        from_app_uuid,
                    ) {
                        Option::Some(e) => error_reply(r@, request_id, e),
                        Option::None => no_error_reply(r@),
                    }
                },
                crate::protocol::RequestBodyView::DeleteInboxMessage { message_id, .. } => {
                    &&& (message_id > 0x7fff_ffff_ffff_ffff <==> error_reply(
                        r@,
                        request_id,
                        DaemonError::InvalidMessageId,
                    ))
                    &&& (message_id <= 0x7fff_ffff_ffff_ffff ==> no_error_reply(r@))
                },
                crate::protocol::RequestBodyView::DialAddress { address } => {
                    &&& (!is_valid_multiaddr(address) <==> error_reply(
                        r@,
                        request_id,
                        DaemonError::InvalidAddress,
                    ))
                    &&& (is_valid_multiaddr(address) ==> no_error_reply(r@))
                },
                _ => no_error_reply(r@),
            },
            body@ is LocalPeerId ==> *final(self) == *old(self) && r@.len() == 1 && is_respond(
                r@[0],
                request_id,
                ResponseBodyView::LocalPeerId { peer_id: old(self).local_peer_id@ },
            ),
            body@ is AppAnnouncements ==> *final(self) == *old(self) && r@.len() == 1,
    {
        match self.handle_request(request_id, body, now) {
            Result::Ok(acts) => acts,
            Result::Err(e) => {
                let mut acts: Vec<Action> = Vec::new();
                acts.push(Action::Respond {
                    request_id,
                    body: ResponseBody::Error { message: e.message() },
                });
                acts
            },
        }
    }
}

/// One overlay event, as the coordinator sees it.
#[derive(Debug)]
pub enum SwarmEvent {
    /// A peer was discovered under an address.
    PeerDiscovered { peer_id: String, address: String },
    /// A previously discovered peer address expired.
    PeerExpired { peer_id: String, address: String },
    /// Another host sent a request; the step that handles it may
    /// acknowledge it on its response channel.
    InboundRequest { peer_id: String, request: swarm::Request },
    /// Another host answered an outbound request.
    InboundResponse { overlay_request_id: u64, response: swarm::Response },
    /// The overlay started listening on an address.
    Listening { address: String },
    /// A connection was established to an address.
    ConnectionEstablished { address: String },
    /// A connection to an address closed.
    ConnectionClosed { address: String },
    /// The identify flow yielded listen addresses for a peer.
    Identified { peer_id: String, addresses: Vec<String> },
}

impl Daemon {
    /// Dispatches one overlay event at time `now`, returning the
    /// actions to perform.  Connection and listener notices change
    /// nothing; discovery and expiry maintain the presence table;
    /// inbound requests and responses are handled as such.
    #[verifier::loop_isolation(false)]
    #[verifier::rlimit(100)]
    #[verifier::spinoff_prover]
    pub fn swarm_event(&mut self, event: SwarmEvent, now: i64) -> (r: Result<Vec<Action>, DaemonError>)
        requires
            old(self).wf(),
            old(self).store.next_peer_id < 0x7fff_ffff_ffff_fffe,
            old(self).store.next_app_id < 0x7fff_ffff_ffff_fffe,
            old(self).store.next_blob_id < 0x7fff_ffff_ffff_ffff,
            old(self).store.next_inbox_id < 0x7fff_ffff_ffff_ffff,
        ensures
            final(self).wf(),
            final(self).local_peer_id == old(self).local_peer_id,
            match event {
                SwarmEvent::PeerDiscovered { .. } => r is Ok,
                SwarmEvent::PeerExpired { .. } => r is Ok,
                SwarmEvent::InboundResponse { .. } => r is Ok && (r matches Result::Ok(acts)
                    ==> acts@.len() == 0),
                SwarmEvent::Listening { .. } => r is Ok && *final(self) == *old(self),
                SwarmEvent::ConnectionEstablished { .. } => r is Ok && *final(self) == *old(self),
                SwarmEvent::ConnectionClosed { .. } => r is Ok && *final(self) == *old(self),
                SwarmEvent::Identified { peer_id, addresses } => {
                    &&& r is Ok
                    &&& *final(self) == (Daemon { peers: final(self).peers, ..*old(self) })
                    &&& (addresses@.len() > 0 ==> peer_present(*final(self), peer_id@))
                    &&& (r matches Result::Ok(acts) ==> (forall|k: int|
                        0 <= k < acts@.len() ==> ((#[trigger] acts@[k]) matches Action::Publish {
                            body,
                            ..
                        } && body@ == (ResponseBodyView::PeerDiscovered { peer_id: peer_id@ }))))
                },
                SwarmEvent::InboundRequest { .. } => true,
            },
            (event matches SwarmEvent::PeerDiscovered { peer_id, address } ==> ({
                &&& *final(self) == (Daemon { peers: final(self).peers, ..*old(self) })
                &&& peer_present(*final(self), peer_id@)
                &&& (!peer_present(*old(self), peer_id@) ==> (r matches Result::Ok(acts) && {
                    &&& acts@.len() == old(self).peer_subscribers@.len()
                    &&& (forall|k: int|
                        0 <= k < acts@.len() ==> is_publish(
                            #[trigger] acts@[k],
                            old(self).peer_subscribers@[k],
                            ResponseBodyView::PeerDiscovered { peer_id: peer_id@ },
                        ))
                }))
                &&& (peer_present(*old(self), peer_id@) ==> (r matches Result::Ok(acts)
                    && acts@.len() == 0))
            })),
            (event matches SwarmEvent::PeerExpired { peer_id, address } ==> ({
                &&& *final(self) == (Daemon { peers: final(self).peers, ..*old(self) })
                &&& (peer_present(*old(self), peer_id@) && entry_only_addr(
                    old(self).peers@[peer_entry_index(*old(self), peer_id@)],
                    address@,
                ) ==> !peer_present(*final(self), peer_id@) && (r matches Result::Ok(acts) && {
                    &&& acts@.len() == old(self).peer_subscribers@.len()
                    &&& (forall|k: int|
                        0 <= k < acts@.len() ==> is_publish(
                            #[trigger] acts@[k],
                            old(self).peer_subscribers@[k],
                            ResponseBodyView::PeerExpired { peer_id: peer_id@ },
                        ))
                }))
            })),
            (event matches SwarmEvent::InboundRequest { peer_id, request } ==> ({
                &&& *final(self) == (Daemon { store: final(self).store, ..*old(self) })
                &&& match request@ {
                    swarm::RequestView::Announce { app_uuid, data } => {
                        &&& r is Ok
                        &&& announce_applied(
                            old(self).store,
                            final(self).store,
                            peer_id@,
                            app_uuid,
                            now,
                            data,
                        )
                        &&& (r matches Result::Ok(acts) ==> ({
                            let subs = old(self).announce_subscribers@;
                            &&& acts@.len() == subs.len() + 1
                            &&& (forall|k: int|
                                0 <= k < subs.len() ==> is_publish(
                                    #[trigger] acts@[k],
                                    subs[k],
                                    ResponseBodyView::AppAnnouncement {
                                        peer: peer_id@,
                                        app_uuid,
                                        data,
                                    },
                                ))
                            &&& acts@.last() is Acknowledge
                            &&& (forall|k: int|
                                0 <= k < acts@.len() ==> !is_swarm_send(#[trigger] acts@[k]))
                        }))
                    },
                    swarm::RequestView::Message { from_app_uuid, to_app_uuid, message } => {
                        &&& r is Ok
                        &&& message_received(
                            old(self).store,
                            final(self).store,
                            peer_id@,
                            old(self).local_peer_id@,
                            from_app_uuid,
                            to_app_uuid,
                            message,
                            now,
                            old(self).store.next_inbox_id,
                        )
                        &&& (r matches Result::Ok(acts) ==> ({
                            let s = final(self).store;
                            let to_app = crate::store::app_id_of(
                                s,
                                crate::store::peer_id_of(s, old(self).local_peer_id@),
                                to_app_uuid,
                            );
                            let inbox_id = old(self).store.next_inbox_id;
                            let subs = old(self).inbox_subscribers@.filter(
                                |e: InboxSubscriber| e.app_id == to_app,
                            );
                            &&& acts@.len() == subs.len() + 1
                            &&& (forall|k: int|
                                0 <= k < subs.len() ==> is_publish(
                                    #[trigger] acts@[k],
                                    subs[k].request_id,
                                    ResponseBodyView::Message(
                                        crate::protocol::MessageView {
                                            id: inbox_id as u64,
                                            peer: peer_id@,
                                            uuid: from_app_uuid,
                                            message,
                                        },
                                    ),
                                ))
                            &&& acts@.last() is Acknowledge
                        }))
                    },
                }
            })),
            (event matches SwarmEvent::InboundResponse { overlay_request_id, response } ==> ({
                &&& *final(self) == (Daemon {
                    store: final(self).store,
                    delivery_attempts: final(self).delivery_attempts,
                    ..*old(self)
                })
                &&& (has_attempt(*old(self), overlay_request_id) ==> ({
                    let bound = attempt_outbox(*old(self), overlay_request_id);
                    &&& !has_attempt(*final(self), overlay_request_id)
                    &&& !crate::store::has_outbox_row(final(self).store, bound)
                }))
                &&& (!has_attempt(*old(self), overlay_request_id) ==> *final(self) == *old(self))
            })),
    {
        match event {
            SwarmEvent::PeerDiscovered { peer_id, address } => {
                Result::Ok(self.add_peer_address(peer_id.as_str(), address.as_str()))
            },
            SwarmEvent::PeerExpired { peer_id, address } => {
                Result::Ok(self.remove_peer_address(peer_id.as_str(), address.as_str()))
            },
            SwarmEvent::InboundRequest { peer_id, request } => {
                self.swarm_request(peer_id.as_str(), request, now)
            },
            SwarmEvent::InboundResponse { overlay_request_id, response } => {
                self.swarm_response(overlay_request_id, response);
                Result::Ok(Vec::new())
            },
            SwarmEvent::Listening { address } => Result::Ok(Vec::new()),
            SwarmEvent::ConnectionEstablished { address } => Result::Ok(Vec::new()),
            SwarmEvent::ConnectionClosed { address } => Result::Ok(Vec::new()),
            SwarmEvent::Identified { peer_id, addresses } => {
                let mut acts: Vec<Action> = Vec::new();
                let mut i: usize = 0;
                while i < addresses.len()
                    invariant
                        i <= addresses@.len(),
                        self.wf(),
                        *self == (Daemon { peers: self.peers, ..*old(self) }),
                        i > 0 ==> peer_present(*self, peer_id@),
                        forall|k: int|
                            0 <= k < acts@.len() ==> ((#[trigger] acts@[k]) matches
                            Action::Publish { body, .. } && body@ == (
                            ResponseBodyView::PeerDiscovered { peer_id: peer_id@ })),
                    decreases addresses@.len() - i,
                {
                    let mut more = self.add_peer_address(peer_id.as_str(), addresses[i].as_str());
                    acts.append(&mut more);
                    i += 1;
                }
                Result::Ok(acts)
            },
        }
    }
}

} // verus!
