//! The connection registry, the server state, and the poll facade: the
//! five queues a host drains or feeds once per scheduling tick, and the
//! registration, routing and removal steps that connect them.
//!
//! The server owns the synchronous side of the system. The asynchronous
//! side — binding a listener, accepting sockets, reading from and writing
//! to them — lives outside the library; it hands accepted sockets, read
//! chunks and failure reports in through the methods here, and takes
//! registered sockets and encoded frames back out.

use crate::channel::Channel;
use crate::codec::{
    classify_chunk, classifies_to, encode_all, frames_match, message_encoding, yields_no_message,
};
use crate::errors::NetworkError;
use crate::events::{Inbox, Message, NetworkEvent, Outbox};
use vstd::prelude::*;

verus! {

#[verifier::external_type_specification]
#[verifier::external_body]
#[verifier::reject_recursive_types(K)]
#[verifier::reject_recursive_types(V)]
#[verifier::reject_recursive_types(S)]
pub struct ExDashMap<K, V, S>(dashmap::DashMap<K, V, S>);

/// A unique identifier for a client: an opaque, copyable 128-bit value
/// minted when a socket is accepted. It is a pure lookup key and carries
/// no resources; looking up a removed identifier simply misses.
#[derive(Debug, Eq, PartialEq, Hash, Clone, Copy, Structural)]
pub struct ClientId(u128);

impl ClientId {
    /// The raw 128-bit value behind the identifier.
    pub closed spec fn spec_raw(&self) -> u128 {
        self.0
    }

    /// The raw 128-bit value behind the identifier.
    pub fn raw(&self) -> (r: u128)
        ensures
            r == self.spec_raw(),
    {
        self.0
    }
}

/// Relies on `uuid::Uuid::new_v4` (and `Uuid::as_u128`, which returns the
/// identifier's raw bits): it draws a random version-4 identifier.
/// Nothing is promised of the value; in particular, not uniqueness.
#[verifier::external_body]
fn mint_raw_id() -> u128 {
    uuid::Uuid::new_v4().as_u128()
}

/// An accepted raw socket, queued until the host drains the
/// incoming-connections queue and it is registered. The core never reads
/// the socket — it only carries it from acceptance to the worker spawn —
/// so the socket's type is the caller's choice: a TCP stream in a real
/// host, a plain stand-in under test.
#[derive(Debug)]
pub struct IncomingConnection<S> {
    pub socket: S,
}

/// The registry's bookkeeping for one connection: its private outbound
/// queue. The record is exclusively owned by the registry and never
/// aliased; dropping it drops the queue. The connection's worker handles
/// live with the runtime, outside the library.
pub(crate) struct ClientRecord {
    pub(crate) outbox: Channel<Message>,
}

/// The concurrent map from connection identifier to connection record,
/// held behind a sharded-map so that lookups from the polling side never
/// contend on one global lock.
pub(crate) struct Registry {
    map: dashmap::DashMap<ClientId, ClientRecord>,
    model: Ghost<Map<ClientId, ClientRecord>>,
}

/// Relies on `dashmap::DashMap::new`: it creates an empty map.
#[verifier::external_body]
fn dashmap_new() -> dashmap::DashMap<ClientId, ClientRecord> {
    dashmap::DashMap::new()
}

impl Registry {
    pub(crate) closed spec fn view(&self) -> Map<ClientId, ClientRecord> {
        self.model@
    }

    pub(crate) fn new() -> (r: Registry)
        ensures
            r@ == Map::<ClientId, ClientRecord>::empty(),
    {
        Registry { map: dashmap_new(), model: Ghost(Map::empty()) }
    }

    /// Relies on `dashmap::DashMap::insert` on a map this struct owns
    /// exclusively: the map afterwards holds the record under the
    /// identifier, and whatever record was under it before is dropped.
    #[verifier::external_body]
    pub(crate) fn insert(&mut self, id: ClientId, rec: ClientRecord)
        ensures
            final(self)@ == old(self)@.insert(id, rec),
    {
        let _ = self.map.insert(id, rec);
    }

    /// Relies on `dashmap::DashMap::remove` on a map this struct owns
    /// exclusively: it takes the record under the identifier out of the
    /// map if one is there, and otherwise leaves the map as it is.
    #[verifier::external_body]
    pub(crate) fn remove(&mut self, id: &ClientId) -> (r: Option<ClientRecord>)
        ensures
            old(self)@.contains_key(*id) ==> r == Some(old(self)@[*id]) && final(self)@ == old(
                self,
            )@.remove(*id),
            !old(self)@.contains_key(*id) ==> r is None && final(self)@ == old(self)@,
    {
        self.map.remove(id).map(|kv| kv.1)
    }

    /// Relies on `dashmap::DashMap::contains_key` on a map this struct
    /// owns exclusively.
    #[verifier::external_body]
    pub(crate) fn contains(&self, id: &ClientId) -> (r: bool)
        ensures
            r == self@.contains_key(*id),
    {
        self.map.contains_key(id)
    }
}

/// One entry of the record of everything the core has made observable to
/// the host: a lifecycle event, or an inbound message. The record grows
/// as items are queued and is what the ordering guarantee is stated over.
pub enum Observed {
    Event(NetworkEvent),
    Inbound(Inbox),
}

/// How one outbound envelope changes the outbound queues: it is appended
/// to the addressed connection's queue if that connection is registered,
/// and silently dropped otherwise.
pub open spec fn route_one(
    m: Map<ClientId, Seq<Message>>,
    out: Outbox,
) -> Map<ClientId, Seq<Message>> {
    if m.contains_key(out.to) {
        m.insert(out.to, m[out.to].push(out.content))
    } else {
        m
    }
}

/// How a batch of outbound envelopes, fed in order, changes the outbound
/// queues.
pub open spec fn route_all(m: Map<ClientId, Seq<Message>>, outs: Seq<Outbox>) -> Map<
    ClientId,
    Seq<Message>,
>
    decreases outs.len(),
{
    if outs.len() == 0 {
        m
    } else {
        route_all(route_one(m, outs[0]), outs.drop_first())
    }
}

proof fn lemma_route_all_snoc(m: Map<ClientId, Seq<Message>>, outs: Seq<Outbox>, out: Outbox)
    ensures
        route_all(m, outs.push(out)) == route_one(route_all(m, outs), out),
    decreases outs.len(),
{
    let s1 = outs.push(out);
    if outs.len() == 0 {
        assert(s1[0] == out);
        assert(s1.drop_first() =~= Seq::<Outbox>::empty());
        assert(route_all(m, s1) == route_all(route_one(m, out), s1.drop_first()));
        assert(route_all(route_one(m, out), Seq::<Outbox>::empty()) == route_one(m, out));
        assert(route_all(m, outs) == m);
    } else {
        assert(s1[0] == outs[0]);
        assert(s1.drop_first() =~= outs.drop_first().push(out));
        assert(route_all(m, s1) == route_all(route_one(m, s1[0]), s1.drop_first()));
        lemma_route_all_snoc(route_one(m, outs[0]), outs.drop_first(), out);
        assert(route_all(m, outs) == route_all(route_one(m, outs[0]), outs.drop_first()));
    }
}

/// The identifiers of a batch of freshly registered connections, in
/// registration order.
pub open spec fn ids_of<S>(r: Seq<(ClientId, IncomingConnection<S>)>) -> Seq<ClientId> {
    r.map_values(|p: (ClientId, IncomingConnection<S>)| p.0)
}

/// `Connected` events for the given identifiers, in order.
pub open spec fn connected_events(ids: Seq<ClientId>) -> Seq<NetworkEvent> {
    ids.map_values(|id: ClientId| NetworkEvent::Connected(id))
}

/// Record entries for the given `Connected` events, in order.
pub open spec fn connected_entries(ids: Seq<ClientId>) -> Seq<Observed> {
    ids.map_values(|id: ClientId| Observed::Event(NetworkEvent::Connected(id)))
}

/// `Disconnected` events for the given identifiers, in order.
pub open spec fn disconnected_events(ids: Seq<ClientId>) -> Seq<NetworkEvent> {
    ids.map_values(|id: ClientId| NetworkEvent::Disconnected(id))
}

/// Record entries for the given `Disconnected` events, in order.
pub open spec fn disconnected_entries(ids: Seq<ClientId>) -> Seq<Observed> {
    ids.map_values(|id: ClientId| Observed::Event(NetworkEvent::Disconnected(id)))
}

/// How registering each identifier in turn, each with an empty queue,
/// changes the outbound queues.
pub open spec fn register_all(m: Map<ClientId, Seq<Message>>, ids: Seq<ClientId>) -> Map<
    ClientId,
    Seq<Message>,
>
    decreases ids.len(),
{
    if ids.len() == 0 {
        m
    } else {
        register_all(m.insert(ids[0], Seq::empty()), ids.drop_first())
    }
}

/// How removing each identifier in turn changes the outbound queues.
pub open spec fn remove_all(m: Map<ClientId, Seq<Message>>, ids: Seq<ClientId>) -> Map<
    ClientId,
    Seq<Message>,
>
    decreases ids.len(),
{
    if ids.len() == 0 {
        m
    } else {
        remove_all(m.remove(ids[0]), ids.drop_first())
    }
}

/// What each removal in turn finds still queued for its identifier: the
/// messages that come back encoded when the lost queue is drained.
pub open spec fn lost_leftovers(m: Map<ClientId, Seq<Message>>, ids: Seq<ClientId>) -> Seq<
    Seq<Message>,
>
    decreases ids.len(),
{
    if ids.len() == 0 {
        Seq::empty()
    } else {
        seq![
            if m.contains_key(ids[0]) {
                m[ids[0]]
            } else {
                Seq::<Message>::empty()
            },
        ] + lost_leftovers(m.remove(ids[0]), ids.drop_first())
    }
}

/// The messages a batch of envelopes addresses to one connection, in
/// feed order.
pub open spec fn sent_to(outs: Seq<Outbox>, id: ClientId) -> Seq<Message>
    decreases outs.len(),
{
    if outs.len() == 0 {
        Seq::empty()
    } else {
        (if outs[0].to == id {
            seq![outs[0].content]
        } else {
            Seq::empty()
        }) + sent_to(outs.drop_first(), id)
    }
}

/// Law (per-connection order): feeding a batch of envelopes appends to a
/// registered connection's queue exactly the batch's messages addressed
/// to it, in batch order — no reordering, and no interleaving from other
/// connections' traffic. Together with `take_outbound`, whose frames are
/// the queue's encodings in queue order, the connection's wire frames
/// follow feed order.
pub proof fn lemma_feed_is_fifo(m: Map<ClientId, Seq<Message>>, outs: Seq<Outbox>, id: ClientId)
    requires
        m.contains_key(id),
    ensures
        route_all(m, outs).contains_key(id),
        route_all(m, outs)[id] == m[id] + sent_to(outs, id),
    decreases outs.len(),
{
    if outs.len() == 0 {
        assert(m[id] + sent_to(outs, id) =~= m[id]);
    } else {
        let m1 = route_one(m, outs[0]);
        assert(m1.contains_key(id));
        lemma_feed_is_fifo(m1, outs.drop_first(), id);
        if outs[0].to == id {
            assert(m1[id] == m[id].push(outs[0].content));
            assert(m[id].push(outs[0].content) + sent_to(outs.drop_first(), id) =~= m[id] + (
            seq![outs[0].content] + sent_to(outs.drop_first(), id)));
        } else {
            assert(m1[id] == m[id]);
            assert(m[id] + sent_to(outs.drop_first(), id) =~= m[id] + (Seq::<Message>::empty()
                + sent_to(outs.drop_first(), id)));
        }
    }
}

/// Law (wire order): after feeding a batch to a connection whose queue
/// stood empty, the frames that `take_outbound` hands the write worker
/// are exactly the encodings of the batch's messages for that connection,
/// one frame per message, in feed order — no reordering, no interleaving.
pub proof fn lemma_wire_order(
    m: Map<ClientId, Seq<Message>>,
    outs: Seq<Outbox>,
    id: ClientId,
    frames: Seq<Vec<u8>>,
)
    requires
        m.contains_key(id),
        m[id] == Seq::<Message>::empty(),
        frames_match(route_all(m, outs)[id], frames),
    ensures
        frames.len() == sent_to(outs, id).len(),
        forall|i: int|
            0 <= i < frames.len() ==> (#[trigger] frames[i])@ == message_encoding(
                sent_to(outs, id)[i],
            ),
{
    lemma_feed_is_fifo(m, outs, id);
    assert(route_all(m, outs)[id] =~= sent_to(outs, id));
}

/// Law (silent drop): routing an envelope to an unregistered connection
/// changes nothing at all — no event, no exception, no delivery.
pub proof fn lemma_unregistered_send_is_noop(m: Map<ClientId, Seq<Message>>, out: Outbox)
    requires
        !m.contains_key(out.to),
    ensures
        route_one(m, out) == m,
{
}

proof fn lemma_remove_all_no_new_keys(
    m: Map<ClientId, Seq<Message>>,
    ids: Seq<ClientId>,
    id: ClientId,
)
    requires
        !m.contains_key(id),
    ensures
        !remove_all(m, ids).contains_key(id),
    decreases ids.len(),
{
    if ids.len() > 0 {
        lemma_remove_all_no_new_keys(m.remove(ids[0]), ids.drop_first(), id);
    }
}

/// Law: draining the lost queue removes every identifier on it from the
/// registry, so an envelope fed for such an identifier afterwards is a
/// silent no-op.
pub proof fn lemma_drain_lost_unregisters(
    m: Map<ClientId, Seq<Message>>,
    ids: Seq<ClientId>,
    id: ClientId,
)
    requires
        ids.contains(id),
    ensures
        !remove_all(m, ids).contains_key(id),
    decreases ids.len(),
{
    if ids[0] == id {
        lemma_remove_all_no_new_keys(m.remove(id), ids.drop_first(), id);
    } else {
        let k = choose|k: int| 0 <= k < ids.len() && ids[k] == id;
        assert(ids.drop_first()[k - 1] == id);
        lemma_drain_lost_unregisters(m.remove(ids[0]), ids.drop_first(), id);
    }
}

proof fn lemma_contains_push(s: Seq<ClientId>, x: ClientId, y: ClientId)
    ensures
        s.push(x).contains(y) <==> (s.contains(y) || y == x),
{
    if s.contains(y) {
        let k = choose|k: int| 0 <= k < s.len() && s[k] == y;
        assert(s.push(x)[k] == y);
    }
    if y == x {
        assert(s.push(x)[s.len() as int] == y);
    }
    if s.push(x).contains(y) {
        let k = choose|k: int| 0 <= k < s.push(x).len() && s.push(x)[k] == y;
        if k < s.len() {
            assert(s[k] == y);
        }
    }
}

proof fn lemma_register_all_snoc(m: Map<ClientId, Seq<Message>>, ids: Seq<ClientId>, id: ClientId)
    ensures
        register_all(m, ids.push(id)) == register_all(m, ids).insert(id, Seq::empty()),
    decreases ids.len(),
{
    let s1 = ids.push(id);
    if ids.len() == 0 {
        assert(s1[0] == id);
        assert(s1.drop_first() =~= Seq::<ClientId>::empty());
        assert(register_all(m, s1) == register_all(m.insert(id, Seq::empty()), s1.drop_first()));
        assert(register_all(m.insert(id, Seq::empty()), Seq::<ClientId>::empty()) == m.insert(
            id,
            Seq::empty(),
        ));
        assert(register_all(m, ids) == m);
    } else {
        assert(s1[0] == ids[0]);
        assert(s1.drop_first() =~= ids.drop_first().push(id));
        assert(register_all(m, s1) == register_all(
            m.insert(ids[0], Seq::empty()),
            s1.drop_first(),
        ));
        lemma_register_all_snoc(m.insert(ids[0], Seq::empty()), ids.drop_first(), id);
        assert(register_all(m, ids) == register_all(
            m.insert(ids[0], Seq::empty()),
            ids.drop_first(),
        ));
    }
}

proof fn lemma_lost_leftovers_len(m: Map<ClientId, Seq<Message>>, ids: Seq<ClientId>)
    ensures
        lost_leftovers(m, ids).len() == ids.len(),
    decreases ids.len(),
{
    if ids.len() > 0 {
        lemma_lost_leftovers_len(m.remove(ids[0]), ids.drop_first());
    }
}

proof fn lemma_remove_all_snoc(m: Map<ClientId, Seq<Message>>, ids: Seq<ClientId>, id: ClientId)
    ensures
        remove_all(m, ids.push(id)) == remove_all(m, ids).remove(id),
        lost_leftovers(m, ids.push(id)) =~= lost_leftovers(m, ids).push(
            if remove_all(m, ids).contains_key(id) {
                remove_all(m, ids)[id]
            } else {
                Seq::<Message>::empty()
            },
        ),
    decreases ids.len(),
{
    let s1 = ids.push(id);
    if ids.len() == 0 {
        assert(s1[0] == id);
        assert(s1.drop_first() =~= Seq::<ClientId>::empty());
        assert(remove_all(m, s1) == remove_all(m.remove(id), s1.drop_first()));
        assert(remove_all(m.remove(id), Seq::<ClientId>::empty()) == m.remove(id));
        assert(remove_all(m, ids) == m);
        assert(lost_leftovers(m, s1) == seq![
            if m.contains_key(id) {
                m[id]
            } else {
                Seq::<Message>::empty()
            },
        ] + lost_leftovers(m.remove(id), s1.drop_first()));
        assert(lost_leftovers(m, s1) =~= lost_leftovers(m, ids).push(
            if m.contains_key(id) {
                m[id]
            } else {
                Seq::<Message>::empty()
            },
        ));
    } else {
        assert(s1[0] == ids[0]);
        assert(s1.drop_first() =~= ids.drop_first().push(id));
        assert(remove_all(m, s1) == remove_all(m.remove(ids[0]), s1.drop_first()));
        assert(lost_leftovers(m, s1) == seq![
            if m.contains_key(ids[0]) {
                m[ids[0]]
            } else {
                Seq::<Message>::empty()
            },
        ] + lost_leftovers(m.remove(ids[0]), s1.drop_first()));
        lemma_remove_all_snoc(m.remove(ids[0]), ids.drop_first(), id);
        assert(remove_all(m, ids) == remove_all(m.remove(ids[0]), ids.drop_first()));
        assert(lost_leftovers(m, ids) == seq![
            if m.contains_key(ids[0]) {
                m[ids[0]]
            } else {
                Seq::<Message>::empty()
            },
        ] + lost_leftovers(m.remove(ids[0]), ids.drop_first()));
        assert(lost_leftovers(m, s1) =~= lost_leftovers(m, ids).push(
            if remove_all(m, ids).contains_key(id) {
                remove_all(m, ids)[id]
            } else {
                Seq::<Message>::empty()
            },
        ));
    }
}

/// Whether the record justifies its entry at position `i`: an inbound
/// message is preceded by the `Connected` event of its sender.
pub open spec fn wf_entry(l: Seq<Observed>, i: int) -> bool {
    match l[i] {
        Observed::Inbound(ib) => exists|j: int|
            0 <= j < i && l[j] == Observed::Event(NetworkEvent::Connected(ib.from)),
        Observed::Event(_) => true,
    }
}

/// Whether `Connected(id)` stands somewhere in the first `n` entries.
pub open spec fn has_connected_by(l: Seq<Observed>, id: ClientId, n: int) -> bool {
    exists|j: int| 0 <= j < n && l[j] == Observed::Event(NetworkEvent::Connected(id))
}

/// Well-formedness of the record: every entry is justified, and every
/// minted identifier has its `Connected` event on record.
pub open spec fn wf_log(l: Seq<Observed>, minted: Seq<ClientId>) -> bool {
    &&& forall|i: int| 0 <= i < l.len() ==> #[trigger] wf_entry(l, i)
    &&& forall|id: ClientId|
        #[trigger] minted.contains(id) ==> has_connected_by(l, id, l.len() as int)
}

proof fn lemma_wf_push_event(l: Seq<Observed>, minted: Seq<ClientId>, e: NetworkEvent)
    requires
        wf_log(l, minted),
    ensures
        wf_log(l.push(Observed::Event(e)), minted),
{
    let l1 = l.push(Observed::Event(e));
    assert forall|i: int| 0 <= i < l1.len() implies #[trigger] wf_entry(l1, i) by {
        if i < l.len() {
            assert(wf_entry(l, i));
            assert(l1[i] == l[i]);
            match l[i] {
                Observed::Inbound(ib) => {
                    let j = choose|j: int|
                        0 <= j < i && l[j] == Observed::Event(NetworkEvent::Connected(ib.from));
                    assert(l1[j] == l[j]);
                },
                Observed::Event(_) => {},
            }
        }
    };
    assert forall|id: ClientId| #[trigger] minted.contains(id) implies has_connected_by(
        l1,
        id,
        l1.len() as int,
    ) by {
        let j = choose|j: int|
            0 <= j < l.len() && l[j] == Observed::Event(NetworkEvent::Connected(id));
        assert(l1[j] == l[j]);
    };
}

proof fn lemma_wf_push_connected(l: Seq<Observed>, minted: Seq<ClientId>, id: ClientId)
    requires
        wf_log(l, minted),
    ensures
        wf_log(l.push(Observed::Event(NetworkEvent::Connected(id))), minted.push(id)),
{
    let l1 = l.push(Observed::Event(NetworkEvent::Connected(id)));
    lemma_wf_push_event(l, minted, NetworkEvent::Connected(id));
    assert forall|x: ClientId| #[trigger] minted.push(id).contains(x) implies has_connected_by(
        l1,
        x,
        l1.len() as int,
    ) by {
        if minted.contains(x) {
            assert(has_connected_by(l1, x, l1.len() as int));
        } else {
            let k = choose|k: int| 0 <= k < minted.push(id).len() && minted.push(id)[k] == x;
            assert(x == id);
            assert(l1[l.len() as int] == Observed::Event(NetworkEvent::Connected(id)));
        }
    };
}

proof fn lemma_wf_push_inbound(l: Seq<Observed>, minted: Seq<ClientId>, ib: Inbox)
    requires
        wf_log(l, minted),
        minted.contains(ib.from),
    ensures
        wf_log(l.push(Observed::Inbound(ib)), minted),
{
    let l1 = l.push(Observed::Inbound(ib));
    assert forall|i: int| 0 <= i < l1.len() implies #[trigger] wf_entry(l1, i) by {
        if i < l.len() {
            assert(wf_entry(l, i));
            assert(l1[i] == l[i]);
            match l[i] {
                Observed::Inbound(x) => {
                    let j = choose|j: int|
                        0 <= j < i && l[j] == Observed::Event(NetworkEvent::Connected(x.from));
                    assert(l1[j] == l[j]);
                },
                Observed::Event(_) => {},
            }
        } else {
            let j = choose|j: int|
                0 <= j < l.len() && l[j] == Observed::Event(NetworkEvent::Connected(ib.from));
            assert(l1[j] == l[j]);
        }
    };
    assert forall|id: ClientId| #[trigger] minted.contains(id) implies has_connected_by(
        l1,
        id,
        l1.len() as int,
    ) by {
        let j = choose|j: int|
            0 <= j < l.len() && l[j] == Observed::Event(NetworkEvent::Connected(id));
        assert(l1[j] == l[j]);
    };
}

/// Law (connection before content): in the record of everything made
/// observable, a connection's `Connected` event stands strictly before
/// every inbound message from that connection. Items are queued in record
/// order and the drains hand them out in queue order, so `Connected(id)`
/// is observable no later than the tick in which the first inbound
/// message from `id` is.
pub proof fn lemma_connected_before_inbound<S>(s: &Server<S>, i: int, ib: Inbox)
    requires
        s.wf(),
        0 <= i < s.observed().len(),
        s.observed()[i] == Observed::Inbound(ib),
    ensures
        exists|j: int|
            0 <= j < i && s.observed()[j] == Observed::Event(NetworkEvent::Connected(ib.from)),
{
    assert(wf_entry(s.observed(), i));
}

/// The networking core's shared state: the connection registry and the
/// bridge queues that the host drains or feeds once per tick.
#[verifier::reject_recursive_types(S)]
pub struct Server<S> {
    clients: Registry,
    incoming: Channel<IncomingConnection<S>>,
    lost: Channel<ClientId>,
    events: Channel<NetworkEvent>,
    inbox: Channel<Inbox>,
    minted: Vec<ClientId>,
    log: Ghost<Seq<Observed>>,
}

impl<S> Server<S> {
    /// The accepted sockets waiting to be registered, oldest first.
    pub closed spec fn incoming_queue(&self) -> Seq<IncomingConnection<S>> {
        self.incoming@
    }

    /// The identifiers of connections whose socket reached end of stream,
    /// waiting for removal, oldest first.
    pub closed spec fn lost_queue(&self) -> Seq<ClientId> {
        self.lost@
    }

    /// The lifecycle events waiting for the host, oldest first.
    pub closed spec fn event_queue(&self) -> Seq<NetworkEvent> {
        self.events@
    }

    /// The inbound messages waiting for the host, oldest first.
    pub closed spec fn inbound_queue(&self) -> Seq<Inbox> {
        self.inbox@
    }

    /// Each registered connection's private outbound queue, oldest
    /// message first.
    pub closed spec fn outboxes(&self) -> Map<ClientId, Seq<Message>> {
        self.clients@.map_values(|r: ClientRecord| r.outbox@)
    }

    /// Whether outbound traffic for this identifier still reaches a
    /// write worker.
    pub open spec fn registered(&self, id: ClientId) -> bool {
        self.outboxes().contains_key(id)
    }

    /// Whether this identifier was ever handed out by registration.
    pub closed spec fn was_minted(&self, id: ClientId) -> bool {
        self.minted@.contains(id)
    }

    /// Everything made observable so far — every lifecycle event and
    /// every inbound message, in the order it was queued. Draining hands
    /// items to the host in exactly this order, so the record is the
    /// reference for ordering guarantees.
    pub closed spec fn observed(&self) -> Seq<Observed> {
        self.log@
    }

    /// Well-formedness, established by [`Server::new`] and preserved by
    /// every method: an inbound message from a connection is recorded
    /// only after that connection's `Connected` event, and every minted
    /// identifier has its `Connected` event on record.
    pub closed spec fn wf(&self) -> bool {
        wf_log(self.log@, self.minted@)
    }

    /// Create a server whose queues and registry are all empty. The
    /// asynchronous runtime that drives the I/O side lives with the
    /// caller, outside the library.
    pub fn new() -> (r: Server<S>)
        ensures
            r.wf(),
            r.incoming_queue() == Seq::<IncomingConnection<S>>::empty(),
            r.lost_queue() == Seq::<ClientId>::empty(),
            r.event_queue() == Seq::<NetworkEvent>::empty(),
            r.inbound_queue() == Seq::<Inbox>::empty(),
            r.outboxes() == Map::<ClientId, Seq<Message>>::empty(),
            r.observed() == Seq::<Observed>::empty(),
            forall|id: ClientId| !r.was_minted(id),
    {
        let r = Server {
            clients: Registry::new(),
            incoming: Channel::new(),
            lost: Channel::new(),
            events: Channel::new(),
            inbox: Channel::new(),
            minted: Vec::new(),
            log: Ghost(Seq::empty()),
        };
        proof {
            assert(r.outboxes() =~= Map::<ClientId, Seq<Message>>::empty());
        }
        r
    }

    /// Append one lifecycle event to the events queue and to the record.
    fn emit(&mut self, e: NetworkEvent)
        requires
            old(self).wf(),
        ensures
            final(self).wf(),
            final(self).event_queue() == old(self).event_queue().push(e),
            final(self).observed() == old(self).observed().push(Observed::Event(e)),
            final(self).incoming_queue() == old(self).incoming_queue(),
            final(self).lost_queue() == old(self).lost_queue(),
            final(self).inbound_queue() == old(self).inbound_queue(),
            final(self).outboxes() == old(self).outboxes(),
            forall|id: ClientId| final(self).was_minted(id) == old(self).was_minted(id),
    {
        let ghost l0 = self.log@;
        let ghost m0 = self.minted@;
        self.events.push(e);
        proof {
            self.log@ = self.log@.push(Observed::Event(e));
            lemma_wf_push_event(l0, m0, e);
        }
    }

    /// Queue one accepted socket for registration at the next poll; the
    /// listener's accept loop never touches application state itself.
    pub fn accepted(&mut self, connection: IncomingConnection<S>)
        requires
            old(self).wf(),
        ensures
            final(self).wf(),
            final(self).incoming_queue() == old(self).incoming_queue().push(connection),
            final(self).lost_queue() == old(self).lost_queue(),
            final(self).event_queue() == old(self).event_queue(),
            final(self).inbound_queue() == old(self).inbound_queue(),
            final(self).outboxes() == old(self).outboxes(),
            final(self).observed() == old(self).observed(),
            forall|id: ClientId| final(self).was_minted(id) == old(self).was_minted(id),
    {
        self.incoming.push(connection);
    }

    /// Record that binding the listener failed: exactly one
    /// `Error(Listen)` event is queued, and nothing else changes — in
    /// particular no connection is ever registered on this path. The
    /// failure is fatal for that listener instance; the caller does not
    /// retry.
    pub fn listen_failed(&mut self, reason: String)
        requires
            old(self).wf(),
        ensures
            final(self).wf(),
            final(self).event_queue() == old(self).event_queue().push(
                NetworkEvent::Error(NetworkError::Listen(reason)),
            ),
            final(self).observed() == old(self).observed().push(
                Observed::Event(NetworkEvent::Error(NetworkError::Listen(reason))),
            ),
            final(self).incoming_queue() == old(self).incoming_queue(),
            final(self).lost_queue() == old(self).lost_queue(),
            final(self).inbound_queue() == old(self).inbound_queue(),
            final(self).outboxes() == old(self).outboxes(),
            forall|id: ClientId| final(self).was_minted(id) == old(self).was_minted(id),
    {
        self.emit(NetworkEvent::Error(NetworkError::Listen(reason)));
    }

    /// Record that one accept attempt failed: an `Error(Accept)` event is
    /// queued and the accept loop goes on.
    pub fn accept_failed(&mut self, reason: String)
        requires
            old(self).wf(),
        ensures
            final(self).wf(),
            final(self).event_queue() == old(self).event_queue().push(
                NetworkEvent::Error(NetworkError::Accept(reason)),
            ),
            final(self).observed() == old(self).observed().push(
                Observed::Event(NetworkEvent::Error(NetworkError::Accept(reason))),
            ),
            final(self).incoming_queue() == old(self).incoming_queue(),
            final(self).lost_queue() == old(self).lost_queue(),
            final(self).inbound_queue() == old(self).inbound_queue(),
            final(self).outboxes() == old(self).outboxes(),
            forall|id: ClientId| final(self).was_minted(id) == old(self).was_minted(id),
    {
        self.emit(NetworkEvent::Error(NetworkError::Accept(reason)));
    }

    /// Record that a connection's socket reached end of stream (a
    /// zero-length read): its identifier joins the lost queue, and
    /// `Disconnected` is emitted later, when the lost queue is drained.
    pub fn read_eof(&mut self, id: ClientId)
        requires
            old(self).wf(),
        ensures
            final(self).wf(),
            final(self).lost_queue() == old(self).lost_queue().push(id),
            final(self).incoming_queue() == old(self).incoming_queue(),
            final(self).event_queue() == old(self).event_queue(),
            final(self).inbound_queue() == old(self).inbound_queue(),
            final(self).outboxes() == old(self).outboxes(),
            final(self).observed() == old(self).observed(),
            forall|x: ClientId| final(self).was_minted(x) == old(self).was_minted(x),
    {
        self.lost.push(id);
    }

    /// Record that a read on a connection's socket failed: an
    /// `Error(SocketRead)` event is queued. The read worker stops, but no
    /// lost-identifier signal follows — only a clean end of stream does
    /// that.
    pub fn read_failed(&mut self, id: ClientId, reason: String)
        requires
            old(self).wf(),
        ensures
            final(self).wf(),
            final(self).event_queue() == old(self).event_queue().push(
                NetworkEvent::Error(NetworkError::SocketRead(reason, id)),
            ),
            final(self).observed() == old(self).observed().push(
                Observed::Event(NetworkEvent::Error(NetworkError::SocketRead(reason, id))),
            ),
            final(self).incoming_queue() == old(self).incoming_queue(),
            final(self).lost_queue() == old(self).lost_queue(),
            final(self).inbound_queue() == old(self).inbound_queue(),
            final(self).outboxes() == old(self).outboxes(),
            forall|x: ClientId| final(self).was_minted(x) == old(self).was_minted(x),
    {
        self.emit(NetworkEvent::Error(NetworkError::SocketRead(reason, id)));
    }

    /// Whether this identifier was ever handed out by registration.
    pub fn is_minted(&self, id: &ClientId) -> (r: bool)
        ensures
            r == self.was_minted(*id),
    {
        let mut i: usize = 0;
        while i < self.minted.len()
            invariant
                i <= self.minted@.len(),
                forall|j: int| 0 <= j < i ==> self.minted@[j] != *id,
            decreases self.minted@.len() - i,
        {
            if self.minted[i] == *id {
                return true;
            }
            i += 1;
        }
        false
    }

    /// Whether outbound traffic for this identifier still reaches a
    /// write worker.
    pub fn is_registered(&self, id: &ClientId) -> (r: bool)
        ensures
            r == self.registered(*id),
    {
        self.clients.contains(id)
    }

    /// Register one accepted connection: mint a fresh identifier, create
    /// the connection's private outbound queue, insert the record into
    /// the registry, and emit `Connected`. The socket comes back with the
    /// new identifier so that the caller can split it and hand the halves
    /// to the connection's read and write workers.
    pub fn register_connection(&mut self, connection: IncomingConnection<S>) -> (r: (
        ClientId,
        IncomingConnection<S>,
    ))
        requires
            old(self).wf(),
        ensures
            final(self).wf(),
            r.1 == connection,
            final(self).outboxes() == old(self).outboxes().insert(r.0, Seq::<Message>::empty()),
            final(self).event_queue() == old(self).event_queue().push(
                NetworkEvent::Connected(r.0),
            ),
            final(self).observed() == old(self).observed().push(
                Observed::Event(NetworkEvent::Connected(r.0)),
            ),
            forall|x: ClientId|
                final(self).was_minted(x) == (old(self).was_minted(x) || x == r.0),
            final(self).incoming_queue() == old(self).incoming_queue(),
            final(self).lost_queue() == old(self).lost_queue(),
            final(self).inbound_queue() == old(self).inbound_queue(),
    {
        let ghost l0 = self.log@;
        let ghost m0 = self.minted@;
        let ghost obx0 = self.outboxes();
        let id = ClientId(mint_raw_id());
        let rec = ClientRecord { outbox: Channel::new() };
        self.clients.insert(id, rec);
        self.minted.push(id);
        self.events.push(NetworkEvent::Connected(id));
        proof {
            self.log@ = self.log@.push(Observed::Event(NetworkEvent::Connected(id)));
            lemma_wf_push_connected(l0, m0, id);
            assert(self.outboxes() =~= obx0.insert(id, Seq::<Message>::empty()));
            assert forall|x: ClientId|
                self.minted@.contains(x) == (m0.contains(x) || x == id) by {
                if m0.contains(x) {
                    let k = choose|k: int| 0 <= k < m0.len() && m0[k] == x;
                    assert(self.minted@[k] == x);
                } else if x == id {
                    assert(self.minted@[m0.len() as int] == x);
                } else if self.minted@.contains(x) {
                    let k = choose|k: int| 0 <= k < self.minted@.len() && self.minted@[k] == x;
                    if k < m0.len() {
                        assert(m0[k] == x);
                    }
                }
            };
        }
        (id, connection)
    }

    /// Classify one chunk read from a connection's socket and deliver the
    /// resulting message, if any, to the inbound queue. Returns whether
    /// the chunk was taken at all: a chunk for an identifier this server
    /// never minted is ignored, which cannot happen to the read workers,
    /// since they only ever hand in chunks for identifiers handed out at
    /// registration.
    pub fn deliver_chunk(&mut self, id: ClientId, chunk: Vec<u8>) -> (known: bool)
        requires
            old(self).wf(),
            chunk@.len() > 0,
        ensures
            final(self).wf(),
            known == old(self).was_minted(id),
            known && !yields_no_message(chunk@) ==> exists|ib: Inbox|
                {
                    &&& ib.from == id
                    &&& #[trigger] classifies_to(chunk@, Some(ib.content))
                    &&& final(self).inbound_queue() == old(self).inbound_queue().push(ib)
                    &&& final(self).observed() == old(self).observed().push(
                        Observed::Inbound(ib),
                    )
                },
            !(known && !yields_no_message(chunk@)) ==> final(self).inbound_queue() == old(
                self,
            ).inbound_queue() && final(self).observed() == old(self).observed(),
            final(self).incoming_queue() == old(self).incoming_queue(),
            final(self).lost_queue() == old(self).lost_queue(),
            final(self).event_queue() == old(self).event_queue(),
            final(self).outboxes() == old(self).outboxes(),
            forall|x: ClientId| final(self).was_minted(x) == old(self).was_minted(x),
    {
        let ghost l0 = self.log@;
        let ghost m0 = self.minted@;
        let ghost c0 = chunk@;
        if !self.is_minted(&id) {
            return false;
        }
        match classify_chunk(chunk) {
            None => true,
            Some(m) => {
                let ib = Inbox { from: id, content: m };
                let ghost gib = ib;
                self.inbox.push(ib);
                proof {
                    self.log@ = self.log@.push(Observed::Inbound(gib));
                    lemma_wf_push_inbound(l0, m0, gib);
                    assert(classifies_to(c0, Some(gib.content)));
                }
                true
            },
        }
    }

    /// Route one outbound envelope onto the addressed connection's
    /// private queue. An envelope for an identifier that is not
    /// registered is silently dropped: no error, no event, no delivery —
    /// a deliberate fire-and-forget policy.
    pub fn send(&mut self, out: Outbox)
        requires
            old(self).wf(),
        ensures
            final(self).wf(),
            final(self).outboxes() == route_one(old(self).outboxes(), out),
            final(self).incoming_queue() == old(self).incoming_queue(),
            final(self).lost_queue() == old(self).lost_queue(),
            final(self).event_queue() == old(self).event_queue(),
            final(self).inbound_queue() == old(self).inbound_queue(),
            final(self).observed() == old(self).observed(),
            forall|x: ClientId| final(self).was_minted(x) == old(self).was_minted(x),
    {
        let ghost obx0 = self.outboxes();
        let to = out.to;
        match self.clients.remove(&to) {
            Some(mut rec) => {
                rec.outbox.push(out.content);
                self.clients.insert(to, rec);
                proof {
                    assert(self.outboxes() =~= route_one(obx0, out));
                }
            },
            None => {
                proof {
                    assert(self.outboxes() =~= route_one(obx0, out));
                }
            },
        }
    }

    /// Feed a batch of outbound envelopes collected by the host during
    /// one tick: each is routed, in order, onto the addressed
    /// connection's private queue, and each envelope whose connection is
    /// not registered is silently dropped.
    pub fn feed_outbound(&mut self, batch: Vec<Outbox>)
        requires
            old(self).wf(),
        ensures
            final(self).wf(),
            final(self).outboxes() == route_all(old(self).outboxes(), batch@),
            final(self).incoming_queue() == old(self).incoming_queue(),
            final(self).lost_queue() == old(self).lost_queue(),
            final(self).event_queue() == old(self).event_queue(),
            final(self).inbound_queue() == old(self).inbound_queue(),
            final(self).observed() == old(self).observed(),
            forall|x: ClientId| final(self).was_minted(x) == old(self).was_minted(x),
    {
        let ghost obx0 = self.outboxes();
        let ghost b0 = batch@;
        let ghost inc0 = self.incoming@;
        let ghost lost0 = self.lost@;
        let ghost ev0 = self.events@;
        let ghost ibx0 = self.inbox@;
        let ghost log0 = self.log@;
        let ghost mint0 = self.minted@;
        let mut rest = batch;
        let ghost mut done: Seq<Outbox> = Seq::empty();
        proof {
            assert(done + rest@ =~= b0);
        }
        while rest.len() > 0
            invariant
                self.wf(),
                done + rest@ == b0,
                self.outboxes() == route_all(obx0, done),
                self.incoming@ == inc0,
                self.lost@ == lost0,
                self.events@ == ev0,
                self.inbox@ == ibx0,
                self.log@ == log0,
                forall|x: ClientId| self.was_minted(x) == old(self).was_minted(x),
            decreases rest@.len(),
        {
            let ghost rest0 = rest@;
            let out = rest.remove(0);
            let ghost gout = out;
            self.send(out);
            proof {
                lemma_route_all_snoc(obx0, done, gout);
                done = done.push(gout);
                assert(done + rest@ =~= b0);
            }
        }
        proof {
            assert(done =~= b0);
        }
    }

    /// Drain and encode everything queued for one connection, oldest
    /// first; its queue is empty afterwards. The caller hands the frames
    /// to that connection's write worker, which writes each fully to the
    /// socket. For an unregistered identifier nothing is returned and
    /// nothing changes.
    pub fn take_outbound(&mut self, id: &ClientId) -> (frames: Vec<Vec<u8>>)
        requires
            old(self).wf(),
        ensures
            final(self).wf(),
            old(self).registered(*id) ==> final(self).outboxes() == old(self).outboxes().insert(
                *id,
                Seq::<Message>::empty(),
            ) && frames_match(old(self).outboxes()[*id], frames@),
            !old(self).registered(*id) ==> final(self).outboxes() == old(self).outboxes()
                && frames@ == Seq::<Vec<u8>>::empty(),
            final(self).incoming_queue() == old(self).incoming_queue(),
            final(self).lost_queue() == old(self).lost_queue(),
            final(self).event_queue() == old(self).event_queue(),
            final(self).inbound_queue() == old(self).inbound_queue(),
            final(self).observed() == old(self).observed(),
            forall|x: ClientId| final(self).was_minted(x) == old(self).was_minted(x),
    {
        let ghost obx0 = self.outboxes();
        match self.clients.remove(id) {
            Some(mut rec) => {
                let msgs = rec.outbox.drain();
                let frames = encode_all(msgs);
                self.clients.insert(*id, rec);
                proof {
                    assert(self.outboxes() =~= obx0.insert(*id, Seq::<Message>::empty()));
                }
                frames
            },
            None => Vec::new(),
        }
    }

    /// Remove a connection's record; whatever still stood on its queue
    /// comes back encoded so the caller can flush it before the write
    /// worker's feed ends. Removing an absent identifier changes nothing.
    fn take_record(&mut self, id: &ClientId) -> (frames: Vec<Vec<u8>>)
        requires
            old(self).wf(),
        ensures
            final(self).wf(),
            old(self).registered(*id) ==> final(self).outboxes() == old(self).outboxes().remove(
                *id,
            ) && frames_match(old(self).outboxes()[*id], frames@),
            !old(self).registered(*id) ==> final(self).outboxes() == old(self).outboxes()
                && frames@ == Seq::<Vec<u8>>::empty(),
            final(self).incoming_queue() == old(self).incoming_queue(),
            final(self).lost_queue() == old(self).lost_queue(),
            final(self).event_queue() == old(self).event_queue(),
            final(self).inbound_queue() == old(self).inbound_queue(),
            final(self).observed() == old(self).observed(),
            forall|x: ClientId| final(self).was_minted(x) == old(self).was_minted(x),
    {
        let ghost obx0 = self.outboxes();
        match self.clients.remove(id) {
            Some(mut rec) => {
                let msgs = rec.outbox.drain();
                let frames = encode_all(msgs);
                proof {
                    assert(self.outboxes() =~= obx0.remove(*id));
                }
                frames
            },
            None => Vec::new(),
        }
    }

    /// Remove a connection and emit `Disconnected`. This is the lost-id
    /// path, taken when the connection's socket reached end of stream;
    /// `Disconnected` is emitted even for an identifier that is no longer
    /// registered. Whatever still stood queued for the connection comes
    /// back encoded, for the caller to flush before the write worker's
    /// feed ends.
    pub fn remove_client(&mut self, id: &ClientId) -> (frames: Vec<Vec<u8>>)
        requires
            old(self).wf(),
        ensures
            final(self).wf(),
            old(self).registered(*id) ==> final(self).outboxes() == old(self).outboxes().remove(
                *id,
            ) && frames_match(old(self).outboxes()[*id], frames@),
            !old(self).registered(*id) ==> final(self).outboxes() == old(self).outboxes()
                && frames@ == Seq::<Vec<u8>>::empty(),
            final(self).event_queue() == old(self).event_queue().push(
                NetworkEvent::Disconnected(*id),
            ),
            final(self).observed() == old(self).observed().push(
                Observed::Event(NetworkEvent::Disconnected(*id)),
            ),
            final(self).incoming_queue() == old(self).incoming_queue(),
            final(self).lost_queue() == old(self).lost_queue(),
            final(self).inbound_queue() == old(self).inbound_queue(),
            forall|x: ClientId| final(self).was_minted(x) == old(self).was_minted(x),
    {
        let frames = self.take_record(id);
        self.emit(NetworkEvent::Disconnected(*id));
        frames
    }

    /// Explicit host-initiated removal: the record and its queue are
    /// dropped (whatever still stood queued comes back encoded), no
    /// `Disconnected` event is emitted, and outbound traffic for the
    /// identifier is silently dropped from now on. The connection's read
    /// worker is not interrupted: it ends only when the socket itself
    /// errors or is closed by the peer. This asymmetry with the lost-id
    /// path is an accepted, documented limitation.
    pub fn disconnect(&mut self, id: &ClientId) -> (frames: Vec<Vec<u8>>)
        requires
            old(self).wf(),
        ensures
            final(self).wf(),
            old(self).registered(*id) ==> final(self).outboxes() == old(self).outboxes().remove(
                *id,
            ) && frames_match(old(self).outboxes()[*id], frames@),
            !old(self).registered(*id) ==> final(self).outboxes() == old(self).outboxes()
                && frames@ == Seq::<Vec<u8>>::empty(),
            final(self).incoming_queue() == old(self).incoming_queue(),
            final(self).lost_queue() == old(self).lost_queue(),
            final(self).event_queue() == old(self).event_queue(),
            final(self).inbound_queue() == old(self).inbound_queue(),
            final(self).observed() == old(self).observed(),
            forall|x: ClientId| final(self).was_minted(x) == old(self).was_minted(x),
    {
        self.take_record(id)
    }

    /// Drain the incoming-connections queue and register each accepted
    /// socket, in arrival order: exactly the sockets present at the
    /// moment of the call are taken, each gets a fresh identifier, an
    /// empty private outbound queue, and a `Connected` event, in order.
    /// The identifier–socket pairs come back so the caller can spawn each
    /// connection's read and write workers.
    pub fn drain_incoming(&mut self) -> (r: Vec<(ClientId, IncomingConnection<S>)>)
        requires
            old(self).wf(),
        ensures
            final(self).wf(),
            r@.len() == old(self).incoming_queue().len(),
            forall|i: int|
                0 <= i < r@.len() ==> (#[trigger] r@[i]).1 == old(self).incoming_queue()[i],
            final(self).incoming_queue() == Seq::<IncomingConnection<S>>::empty(),
            final(self).event_queue() == old(self).event_queue() + connected_events(ids_of(r@)),
            final(self).observed() == old(self).observed() + connected_entries(ids_of(r@)),
            final(self).outboxes() == register_all(old(self).outboxes(), ids_of(r@)),
            forall|x: ClientId|
                final(self).was_minted(x) == (old(self).was_minted(x) || ids_of(r@).contains(x)),
            final(self).lost_queue() == old(self).lost_queue(),
            final(self).inbound_queue() == old(self).inbound_queue(),
    {
        let ghost ev0 = self.events@;
        let ghost log0 = self.log@;
        let ghost obx0 = self.outboxes();
        let ghost lost0 = self.lost@;
        let ghost ibx0 = self.inbox@;
        let mut socks = self.incoming.drain();
        let ghost socks0 = socks@;
        let mut r: Vec<(ClientId, IncomingConnection<S>)> = Vec::new();
        proof {
            assert(socks0.skip(0) =~= socks0);
            assert(ids_of(r@) =~= Seq::<ClientId>::empty());
            assert(ev0 + connected_events(ids_of(r@)) =~= ev0);
            assert(log0 + connected_entries(ids_of(r@)) =~= log0);
        }
        while socks.len() > 0
            invariant
                self.wf(),
                r@.len() + socks@.len() == socks0.len(),
                socks@ == socks0.skip(r@.len() as int),
                forall|i: int| 0 <= i < r@.len() ==> (#[trigger] r@[i]).1 == socks0[i],
                self.incoming@ == Seq::<IncomingConnection<S>>::empty(),
                self.events@ == ev0 + connected_events(ids_of(r@)),
                self.log@ == log0 + connected_entries(ids_of(r@)),
                self.outboxes() == register_all(obx0, ids_of(r@)),
                forall|x: ClientId|
                    self.was_minted(x) == (old(self).was_minted(x) || ids_of(r@).contains(x)),
                self.lost@ == lost0,
                self.inbox@ == ibx0,
            decreases socks@.len(),
        {
            let ghost k = r@.len() as int;
            let ghost ids_k = ids_of(r@);
            let c = socks.remove(0);
            proof {
                assert(c == socks0[k]);
            }
            let (id, c2) = self.register_connection(c);
            r.push((id, c2));
            proof {
                assert(ids_of(r@) =~= ids_k.push(id));
                lemma_register_all_snoc(obx0, ids_k, id);
                assert(self.events@ =~= ev0 + connected_events(ids_of(r@)));
                assert(self.log@ =~= log0 + connected_entries(ids_of(r@)));
                assert(socks@ =~= socks0.skip(k + 1));
                assert forall|x: ClientId|
                    self.was_minted(x) == (old(self).was_minted(x) || ids_of(r@).contains(x)) by {
                    lemma_contains_push(ids_k, id, x);
                };
            }
        }
        r
    }

    /// Drain the lost-identifiers queue: exactly the identifiers present
    /// at the moment of the call are taken, in order, and each is removed
    /// from the registry and gets a `Disconnected` event. Each identifier
    /// comes back with whatever still stood queued for it, encoded, so
    /// the caller can flush it to the write worker.
    pub fn drain_lost(&mut self) -> (r: Vec<(ClientId, Vec<Vec<u8>>)>)
        requires
            old(self).wf(),
        ensures
            final(self).wf(),
            final(self).lost_queue() == Seq::<ClientId>::empty(),
            r@.len() == old(self).lost_queue().len(),
            forall|i: int| 0 <= i < r@.len() ==> (#[trigger] r@[i]).0 == old(self).lost_queue()[i],
            final(self).event_queue() == old(self).event_queue() + disconnected_events(
                old(self).lost_queue(),
            ),
            final(self).observed() == old(self).observed() + disconnected_entries(
                old(self).lost_queue(),
            ),
            final(self).outboxes() == remove_all(old(self).outboxes(), old(self).lost_queue()),
            forall|i: int|
                0 <= i < r@.len() ==> frames_match(
                    lost_leftovers(old(self).outboxes(), old(self).lost_queue())[i],
                    (#[trigger] r@[i]).1@,
                ),
            final(self).incoming_queue() == old(self).incoming_queue(),
            final(self).inbound_queue() == old(self).inbound_queue(),
            forall|x: ClientId| final(self).was_minted(x) == old(self).was_minted(x),
    {
        let ghost ev0 = self.events@;
        let ghost log0 = self.log@;
        let ghost obx0 = self.outboxes();
        let ghost inc0 = self.incoming@;
        let ghost ibx0 = self.inbox@;
        let mut ids = self.lost.drain();
        let ghost lost0 = ids@;
        let mut r: Vec<(ClientId, Vec<Vec<u8>>)> = Vec::new();
        let ghost mut done: Seq<ClientId> = Seq::empty();
        proof {
            assert(done + ids@ =~= lost0);
            assert(ev0 + disconnected_events(done) =~= ev0);
            assert(log0 + disconnected_entries(done) =~= log0);
        }
        while ids.len() > 0
            invariant
                self.wf(),
                r@.len() == done.len(),
                done + ids@ == lost0,
                self.lost@ == Seq::<ClientId>::empty(),
                forall|i: int| 0 <= i < r@.len() ==> (#[trigger] r@[i]).0 == done[i],
                self.events@ == ev0 + disconnected_events(done),
                self.log@ == log0 + disconnected_entries(done),
                self.outboxes() == remove_all(obx0, done),
                forall|i: int|
                    0 <= i < r@.len() ==> frames_match(
                        lost_leftovers(obx0, done)[i],
                        (#[trigger] r@[i]).1@,
                    ),
                self.incoming@ == inc0,
                self.inbox@ == ibx0,
                forall|x: ClientId| self.was_minted(x) == old(self).was_minted(x),
            decreases ids@.len(),
        {
            let ghost done_k = done;
            let id = ids.remove(0);
            let frames = self.remove_client(&id);
            r.push((id, frames));
            proof {
                lemma_remove_all_snoc(obx0, done_k, id);
                lemma_lost_leftovers_len(obx0, done_k);
                done = done_k.push(id);
                assert(done + ids@ =~= lost0);
                assert(self.events@ =~= ev0 + disconnected_events(done));
                assert(self.log@ =~= log0 + disconnected_entries(done));
                let cond = if remove_all(obx0, done_k).contains_key(id) {
                    remove_all(obx0, done_k)[id]
                } else {
                    Seq::<Message>::empty()
                };
                assert(lost_leftovers(obx0, done) =~= lost_leftovers(obx0, done_k).push(cond));
                assert forall|i: int| 0 <= i < r@.len() implies frames_match(
                    lost_leftovers(obx0, done)[i],
                    (#[trigger] r@[i]).1@,
                ) by {
                    if i < done_k.len() {
                        assert(lost_leftovers(obx0, done)[i] == lost_leftovers(obx0, done_k)[i]);
                    } else {
                        assert(lost_leftovers(obx0, done)[i] == cond);
                    }
                };
            }
        }
        proof {
            assert(done =~= lost0);
        }
        r
    }

    /// Hand every queued lifecycle event to the host: exactly the items
    /// present at the moment of the call, oldest first. The queue is
    /// empty afterwards; items queued during the drain are kept for the
    /// next one, with no duplication and no omission.
    pub fn drain_events(&mut self) -> (r: Vec<NetworkEvent>)
        requires
            old(self).wf(),
        ensures
            final(self).wf(),
            r@ == old(self).event_queue(),
            final(self).event_queue() == Seq::<NetworkEvent>::empty(),
            final(self).incoming_queue() == old(self).incoming_queue(),
            final(self).lost_queue() == old(self).lost_queue(),
            final(self).inbound_queue() == old(self).inbound_queue(),
            final(self).outboxes() == old(self).outboxes(),
            final(self).observed() == old(self).observed(),
            forall|x: ClientId| final(self).was_minted(x) == old(self).was_minted(x),
    {
        self.events.drain()
    }

    /// Hand every queued inbound message to the host: exactly the items
    /// present at the moment of the call, oldest first. The queue is
    /// empty afterwards; items queued during the drain are kept for the
    /// next one, with no duplication and no omission.
    pub fn drain_inbound(&mut self) -> (r: Vec<Inbox>)
        requires
            old(self).wf(),
        ensures
            final(self).wf(),
            r@ == old(self).inbound_queue(),
            final(self).inbound_queue() == Seq::<Inbox>::empty(),
            final(self).incoming_queue() == old(self).incoming_queue(),
            final(self).lost_queue() == old(self).lost_queue(),
            final(self).event_queue() == old(self).event_queue(),
            final(self).outboxes() == old(self).outboxes(),
            final(self).observed() == old(self).observed(),
            forall|x: ClientId| final(self).was_minted(x) == old(self).was_minted(x),
    {
        self.inbox.drain()
    }

    /// Record that a write on a connection's socket failed: an
    /// `Error(SocketWrite)` event is queued. The write worker stops, but
    /// the connection stays registered and reachable for routing; only
    /// the read side's end of stream, or an explicit disconnect, removes
    /// it.
    pub fn write_failed(&mut self, id: ClientId, reason: String)
        requires
            old(self).wf(),
        ensures
            final(self).wf(),
            final(self).event_queue() == old(self).event_queue().push(
                NetworkEvent::Error(NetworkError::SocketWrite(reason, id)),
            ),
            final(self).observed() == old(self).observed().push(
                Observed::Event(NetworkEvent::Error(NetworkError::SocketWrite(reason, id))),
            ),
            final(self).incoming_queue() == old(self).incoming_queue(),
            final(self).lost_queue() == old(self).lost_queue(),
            final(self).inbound_queue() == old(self).inbound_queue(),
            final(self).outboxes() == old(self).outboxes(),
            forall|x: ClientId| final(self).was_minted(x) == old(self).was_minted(x),
    {
        self.emit(NetworkEvent::Error(NetworkError::SocketWrite(reason, id)));
    }
}

} // verus!
