use vstd::prelude::*;

use crate::address::Addr;
use crate::frame::MAX_PAYLOAD_LEN;
use crate::message::{encoding_of, fields_of, packed, surely_fits, CodecError, MessageView, TcpMessage};

verus! {

/// An event sent to the hub by the reader of one connection.
///
/// `S` is the handle through which the hub writes to the connection.
#[derive(Debug)]
pub enum MpscMessage<S> {
    /// A connection opened, with its handle.
    Connect(Addr, S),
    /// A message arrived on the connection.
    Message(Addr, TcpMessage),
    /// The peer left cleanly.
    Disconnect(Addr),
    /// Reading from the connection failed, for the reason given.
    Error(Addr, String),
}

/// A registered connection: its address and the handle the hub writes to.
#[derive(Debug)]
pub struct Connection<S> {
    pub address: Addr,
    pub stream: S,
}

/// What the hub asks its runner to do after an event.
#[derive(Debug)]
pub enum HubAction {
    /// Nothing to send: go on with the next event.
    Continue,
    /// Write `frame` once to the connection of each address in `recipients`.
    Broadcast { frame: Vec<u8>, recipients: Vec<Addr> },
    /// The message's encoding does not fit in a frame, and it reaches nobody.
    Undeliverable(CodecError),
    /// The last connection is gone and the hub has stopped: shut the server down.
    Terminate,
}

/// An event as a mathematical value.
pub enum EventView {
    Connect(Addr),
    Message(Addr, MessageView),
    Disconnect(Addr),
    Error(Addr, Seq<char>),
}

pub open spec fn event_view<S>(e: MpscMessage<S>) -> EventView {
    match e {
        MpscMessage::Connect(a, _) => EventView::Connect(a),
        MpscMessage::Message(a, m) => EventView::Message(a, m@),
        MpscMessage::Disconnect(a) => EventView::Disconnect(a),
        MpscMessage::Error(a, why) => EventView::Error(a, why@),
    }
}

pub open spec fn events_view<S>(es: Seq<MpscMessage<S>>) -> Seq<EventView> {
    es.map_values(|e: MpscMessage<S>| event_view(e))
}

/// The registered addresses after an event, given those before it.
pub open spec fn next_addresses(before: Set<Addr>, e: EventView) -> Set<Addr> {
    match e {
        EventView::Connect(a) => before.insert(a),
        EventView::Message(_, _) => before,
        EventView::Disconnect(a) => before.remove(a),
        EventView::Error(a, _) => before.remove(a),
    }
}

/// The addresses that have had a connect event and no disconnect or error event since,
/// in a run of events that starts with no connection.
pub open spec fn live_addresses(events: Seq<EventView>) -> Set<Addr>
    decreases events.len(),
{
    if events.len() == 0 {
        Set::empty()
    } else {
        next_addresses(live_addresses(events.drop_last()), events.last())
    }
}

/// `recipients` names each address of `registered` but `sender` exactly once, and nothing else.
pub open spec fn delivers(registered: Set<Addr>, sender: Addr, recipients: Seq<Addr>) -> bool {
    &&& recipients.no_duplicates()
    &&& forall|b: Addr| #[trigger]
        recipients.contains(b) <==> (registered.contains(b) && b != sender)
}

/// What a message event leads to: nothing where no other peer is registered; else the
/// message's frame for every other registered peer, or, where the message's encoding does
/// not fit in a frame, the report that it reaches nobody.
pub open spec fn message_outcome(registered: Set<Addr>, sender: Addr, m: MessageView, r: HubAction) -> bool {
    if registered.remove(sender) == Set::<Addr>::empty() {
        r is Continue
    } else {
        &&& packed(fields_of(m)).len() <= MAX_PAYLOAD_LEN ==> (r matches HubAction::Broadcast {
            frame,
            recipients,
        } && frame@ == encoding_of(m) && delivers(registered, sender, recipients@))
        &&& packed(fields_of(m)).len() > MAX_PAYLOAD_LEN ==> (r matches HubAction::Undeliverable(e)
            && e == CodecError::TooLong)
        &&& surely_fits(m) ==> r is Broadcast
    }
}

/// What removing `address` does: the registry loses it, and the hub stops exactly when
/// the registry goes from holding connections to holding none, and it was made to stop
/// after the last connection.
pub open spec fn removal_outcome<S>(before: &Hub<S>, after: &Hub<S>, address: Addr, r: HubAction) -> bool {
    &&& after.registry() == before.registry().remove(address)
    &&& after.has_terminated() == (before.shuts_down_after_last() && before.registry().len() > 0
        && after.registry().len() == 0)
    &&& (r is Terminate) == after.has_terminated()
    &&& !after.has_terminated() ==> r is Continue
}

/// The single owner of the connection registry.
pub struct Hub<S> {
    connections: Vec<Connection<S>>,
    registry: Ghost<Map<Addr, S>>,
    shutdown_after_last: bool,
    terminated: bool,
}

impl<S> Hub<S> {
    /// The addresses of the registered connections, in the order they were registered.
    pub closed spec fn addresses(&self) -> Seq<Addr> {
        self.connections@.map_values(|c: Connection<S>| c.address)
    }

    /// The registry: each registered address with the handle of its connection.
    pub closed spec fn registry(&self) -> Map<Addr, S> {
        self.registry@
    }

    /// The number of registered connections.
    pub closed spec fn size(&self) -> nat {
        self.connections@.len()
    }

    pub closed spec fn shuts_down_after_last(&self) -> bool {
        self.shutdown_after_last
    }

    pub closed spec fn has_terminated(&self) -> bool {
        self.terminated
    }

    pub closed spec fn wf(&self) -> bool {
        &&& self.addresses().no_duplicates()
        &&& self.registry@.dom() == self.addresses().to_set()
        &&& forall|i: int|
            0 <= i < self.connections@.len() ==> #[trigger] self.registry@[self.connections@[i].address]
                == self.connections@[i].stream
        &&& self.terminated ==> self.registry@.is_empty()
    }

    /// A hub with an empty registry. With `shutdown_after_last` it stops once the
    /// registry becomes empty again.
    pub fn new(shutdown_after_last: bool) -> (r: Hub<S>)
        ensures
            r.wf(),
            r.registry() == Map::<Addr, S>::empty(),
            r.shuts_down_after_last() == shutdown_after_last,
            !r.has_terminated(),
    {
        let r = Hub {
            connections: Vec::new(),
            registry: Ghost(Map::empty()),
            shutdown_after_last,
            terminated: false,
        };
        assert(r.addresses() =~= Seq::<Addr>::empty());
        assert(r.registry@.dom() =~= r.addresses().to_set());
        r
    }

    /// The number of registered connections.
    pub fn len(&self) -> (r: usize)
        requires
            self.wf(),
        ensures
            r == self.registry().len(),
    {
        proof {
            self.lemma_size();
        }
        self.connections.len()
    }

    /// Whether the hub has stopped.
    pub fn is_terminated(&self) -> (r: bool)
        ensures
            r == self.has_terminated(),
    {
        self.terminated
    }

    proof fn lemma_size(&self)
        requires
            self.wf(),
        ensures
            self.connections@.len() == self.registry().dom().len(),
            self.addresses().len() == self.connections@.len(),
    {
        self.addresses().unique_seq_to_set();
    }

    /// The handle of the connection registered under `address`, if any.
    pub fn stream(&self, address: &Addr) -> (r: Option<&S>)
        requires
            self.wf(),
        ensures
            match r {
                Some(s) => self.registry().contains_key(*address) && *s == self.registry()[*address],
                None => !self.registry().contains_key(*address),
            },
    {
        match self.position(address) {
            Some(i) => Some(&self.connections[i].stream),
            None => None,
        }
    }

    fn position(&self, address: &Addr) -> (r: Option<usize>)
        requires
            self.wf(),
        ensures
            match r {
                Some(i) => i < self.connections@.len() && self.addresses()[i as int] == *address,
                None => !self.addresses().contains(*address),
            },
    {
        let mut i: usize = 0;
        while i < self.connections.len()
            invariant
                i <= self.connections@.len(),
                forall|j: int| 0 <= j < i ==> self.addresses()[j] != *address,
            decreases self.connections@.len() - i,
        {
            if self.connections[i].address == *address {
                return Some(i);
            }
            i += 1;
        }
        None
    }

    fn register(&mut self, address: Addr, stream: S)
        requires
            old(self).wf(),
            !old(self).terminated,
        ensures
            final(self).wf(),
            final(self).registry() == old(self).registry().insert(address, stream),
            final(self).shutdown_after_last == old(self).shutdown_after_last,
            !final(self).terminated,
    {
        let ghost old_addrs = self.addresses();
        let ghost old_conns = self.connections@;
        let ghost s = stream;
        let ghost mut at: int = old_conns.len() as int;
        match self.position(&address) {
            Some(i) => {
                proof {
                    at = i as int;
                }
                self.connections[i].stream = stream;
                assert(self.addresses() =~= old_addrs);
                assert(forall|k: int| 0 <= k < old_conns.len() && k != i ==> self.connections@[k] == old_conns[k]);
            },
            None => {
                self.connections.push(Connection { address, stream });
                assert(self.addresses() =~= old_addrs.push(address));
                proof {
                    old_addrs.lemma_push_to_set_commute(address);
                }
            },
        }
        self.registry = Ghost(self.registry@.insert(address, s));
        assert(self.registry@.dom() =~= self.addresses().to_set());
        assert forall|i: int|
            0 <= i < self.connections@.len() implies #[trigger] self.registry@[self.connections@[i].address]
                == self.connections@[i].stream by {
            assert(self.connections@[at].stream == s && self.addresses()[at] == address);
            if self.connections@[i].address != address {
                assert(self.addresses()[i] == old_addrs[i]);
                assert(self.connections@[i] == old_conns[i]);
            } else {
                assert(self.addresses()[i] == self.addresses()[at]);
            }
        }
    }

    fn unregister(&mut self, address: &Addr)
        requires
            old(self).wf(),
        ensures
            final(self).wf(),
            final(self).registry() == old(self).registry().remove(*address),
            final(self).shutdown_after_last == old(self).shutdown_after_last,
            final(self).terminated == old(self).terminated,
    {
        let ghost old_addrs = self.addresses();
        let ghost old_conns = self.connections@;
        match self.position(address) {
            Some(i) => {
                self.connections.remove(i);
                assert(self.addresses() =~= old_addrs.remove(i as int));
                assert forall|b: Addr| #[trigger]
                    self.addresses().contains(b) <==> (old_addrs.contains(b) && b != *address) by {
                    if old_addrs.contains(b) && b != *address {
                        let k = choose|k: int| 0 <= k < old_addrs.len() && old_addrs[k] == b;
                        if k < i {
                            assert(self.addresses()[k] == b);
                        } else {
                            assert(self.addresses()[k - 1] == b);
                        }
                    }
                    if self.addresses().contains(b) {
                        let k = choose|k: int| 0 <= k < self.addresses().len() && self.addresses()[k] == b;
                        if k < i {
                            assert(old_addrs[k] == b);
                        } else {
                            assert(old_addrs[k + 1] == b);
                        }
                    }
                }
                assert forall|j: int, k: int|
                    0 <= j < self.addresses().len() && 0 <= k < self.addresses().len() && j != k
                    implies self.addresses()[j] != self.addresses()[k] by {
                    let jj = if j < i { j } else { j + 1 };
                    let kk = if k < i { k } else { k + 1 };
                    assert(old_addrs[jj] == self.addresses()[j]);
                    assert(old_addrs[kk] == self.addresses()[k]);
                }
            },
            None => {},
        }
        self.registry = Ghost(self.registry@.remove(*address));
        assert(self.registry@.dom() =~= self.addresses().to_set());
        assert forall|j: int|
            0 <= j < self.connections@.len() implies #[trigger] self.registry@[self.connections@[j].address]
                == self.connections@[j].stream by {
            assert(self.addresses()[j] == self.connections@[j].address);
            assert(self.addresses().contains(self.connections@[j].address));
        }
    }

    /// Processes one event: registers a connection, broadcasts a message to every other
    /// peer, or removes a connection and decides whether the hub stops.
    pub fn step(&mut self, event: MpscMessage<S>) -> (r: HubAction)
        requires
            old(self).wf(),
            !old(self).has_terminated(),
        ensures
            final(self).wf(),
            final(self).shuts_down_after_last() == old(self).shuts_down_after_last(),
            final(self).registry().dom() == next_addresses(old(self).registry().dom(), event_view(event)),
            match event {
                MpscMessage::Connect(a, s) => {
                    &&& final(self).registry() == old(self).registry().insert(a, s)
                    &&& !final(self).has_terminated()
                    &&& r is Continue
                },
                MpscMessage::Message(a, m) => {
                    &&& final(self).registry() == old(self).registry()
                    &&& !final(self).has_terminated()
                    &&& message_outcome(old(self).registry().dom(), a, m@, r)
                },
                MpscMessage::Disconnect(a) => removal_outcome(old(self), final(self), a, r),
                MpscMessage::Error(a, _) => removal_outcome(old(self), final(self), a, r),
            },
    {
        match event {
            MpscMessage::Connect(address, stream) => {
                self.register(address, stream);
                HubAction::Continue
            },
            MpscMessage::Message(address, msg) => {
                let recipients = self.recipients(&address);
                let ghost others = self.registry().dom().remove(address);
                if recipients.len() == 0 {
                    assert(others =~= Set::<Addr>::empty()) by {
                        assert forall|b: Addr| !others.contains(b) by {
                            assert(!recipients@.contains(b));
                        }
                    }
                    HubAction::Continue
                } else {
                    assert(recipients@.contains(recipients@[0]));
                    assert(others.contains(recipients@[0]));
                    assert(others != Set::<Addr>::empty());
                    match msg.to_bytes() {
                        Ok(frame) => HubAction::Broadcast { frame, recipients },
                        Err(e) => HubAction::Undeliverable(e),
                    }
                }
            },
            MpscMessage::Disconnect(address) => self.remove(&address),
            MpscMessage::Error(address, _) => self.remove(&address),
        }
    }

    fn remove(&mut self, address: &Addr) -> (r: HubAction)
        requires
            old(self).wf(),
            !old(self).has_terminated(),
        ensures
            final(self).wf(),
            final(self).shuts_down_after_last() == old(self).shuts_down_after_last(),
            removal_outcome(old(self), final(self), *address, r),
    {
        proof {
            self.lemma_size();
        }
        let had_connections = self.connections.len() > 0;
        self.unregister(address);
        proof {
            self.lemma_size();
        }
        if had_connections && self.connections.len() == 0 && self.shutdown_after_last {
            self.terminated = true;
            assert(self.registry@ =~= Map::<Addr, S>::empty());
            HubAction::Terminate
        } else {
            HubAction::Continue
        }
    }

    /// The addresses of every registered connection but `sender`'s, each once.
    pub fn recipients(&self, sender: &Addr) -> (r: Vec<Addr>)
        requires
            self.wf(),
        ensures
            delivers(self.registry().dom(), *sender, r@),
    {
        let ghost addrs = self.addresses();
        let mut out: Vec<Addr> = Vec::new();
        let mut i: usize = 0;
        while i < self.connections.len()
            invariant
                self.wf(),
                addrs == self.addresses(),
                i <= self.connections@.len(),
                out@.no_duplicates(),
                forall|b: Addr| #[trigger]
                    out@.contains(b) <==> (addrs.subrange(0, i as int).contains(b) && b != *sender),
            decreases self.connections@.len() - i,
        {
            let b = self.connections[i].address;
            assert(addrs[i as int] == b);
            let ghost old_out = out@;
            if b != *sender {
                assert(!out@.contains(b)) by {
                    if out@.contains(b) {
                        let k = choose|k: int| 0 <= k < i && addrs.subrange(0, i as int)[k] == b;
                        assert(addrs[k] == addrs[i as int]);
                    }
                }
                out.push(b);
                assert(out@ == old_out.push(b));
            }
            let ghost before = addrs.subrange(0, i as int);
            let ghost after = addrs.subrange(0, i + 1);
            assert(after =~= before.push(b));
            assert forall|c: Addr| #[trigger]
                out@.contains(c) <==> (after.contains(c) && c != *sender) by {
                if out@.contains(c) && !old_out.contains(c) {
                    let k = choose|k: int| 0 <= k < out@.len() && out@[k] == c;
                    if k < old_out.len() {
                        assert(old_out[k] == c);
                    }
                }
                if old_out.contains(c) {
                    let k = choose|k: int| 0 <= k < old_out.len() && old_out[k] == c;
                    assert(out@[k] == c);
                }
                if before.contains(c) {
                    let k = choose|k: int| 0 <= k < before.len() && before[k] == c;
                    assert(after[k] == c);
                }
                if after.contains(c) && c != b {
                    let k = choose|k: int| 0 <= k < after.len() && after[k] == c;
                    assert(before[k] == c);
                }
                if c == b && b != *sender {
                    assert(out@[out@.len() - 1] == c);
                }
                if c == b {
                    assert(after[i as int] == c);
                }
            }
            i += 1;
        }
        assert(addrs.subrange(0, i as int) == addrs);
        assert forall|b: Addr| #[trigger] out@.contains(b) <==> (self.registry().dom().contains(b) && b != *sender) by {
            assert(addrs.to_set().contains(b) <==> addrs.contains(b));
        }
        out
    }
}

/// Delivery: a broadcast reaches every registered peer but the sender exactly once, and
/// never the sender.
pub proof fn lemma_delivery(registered: Set<Addr>, sender: Addr, recipients: Seq<Addr>)
    requires
        delivers(registered, sender, recipients),
    ensures
        forall|b: Addr|
            registered.contains(b) && b != sender ==> #[trigger] recipients.to_multiset().count(b) == 1,
        recipients.to_multiset().count(sender) == 0,
{
    broadcast use vstd::seq_lib::to_multiset_contains;

    recipients.lemma_multiset_has_no_duplicates();
    assert(!recipients.contains(sender));
    assert forall|b: Addr|
        registered.contains(b) && b != sender implies #[trigger] recipients.to_multiset().count(b) == 1 by {
        assert(recipients.contains(b));
    }
}

/// Registry consistency: the number of registered connections is the number of distinct
/// addresses in the registry.
pub proof fn lemma_registry_size<S>(hub: &Hub<S>)
    requires
        hub.wf(),
    ensures
        hub.size() == hub.registry().len(),
{
    hub.lemma_size();
}

/// Registry consistency: along any run of a hub that starts empty, the registry holds
/// exactly the addresses that have had a connect event and no disconnect or error event
/// since, and the number of registered connections is the number of those addresses.
pub proof fn lemma_registry_consistency<S>(hubs: Seq<Hub<S>>, events: Seq<EventView>)
    requires
        hubs.len() == events.len() + 1,
        hubs[0].registry().dom() == Set::<Addr>::empty(),
        forall|i: int|
            0 <= i < events.len() ==> #[trigger] hubs[i + 1].registry().dom() == next_addresses(
                hubs[i].registry().dom(),
                events[i],
            ),
        forall|i: int| 0 <= i < hubs.len() ==> #[trigger] hubs[i].wf(),
    ensures
        forall|i: int|
            0 <= i < hubs.len() ==> #[trigger] hubs[i].registry().dom() == live_addresses(events.subrange(0, i)),
        forall|i: int|
            0 <= i < hubs.len() ==> #[trigger] hubs[i].size() == live_addresses(events.subrange(0, i)).len(),
    decreases events.len(),
{
    if events.len() > 0 {
        let n = events.len() - 1;
        let earlier = hubs.subrange(0, n + 1);
        let first = events.subrange(0, n as int);
        assert forall|i: int| 0 <= i < first.len() implies #[trigger] earlier[i + 1].registry().dom()
            == next_addresses(earlier[i].registry().dom(), first[i]) by {
            assert(earlier[i + 1] == hubs[i + 1]);
            assert(earlier[i] == hubs[i]);
        }
        assert forall|i: int| 0 <= i < earlier.len() implies #[trigger] earlier[i].wf() by {
            assert(earlier[i] == hubs[i]);
        }
        lemma_registry_consistency(earlier, first);
        assert forall|i: int| 0 <= i < hubs.len() implies #[trigger] hubs[i].registry().dom()
            == live_addresses(events.subrange(0, i)) by {
            if i <= n {
                assert(earlier[i] == hubs[i]);
                assert(first.subrange(0, i) =~= events.subrange(0, i));
            } else {
                assert(earlier[n] == hubs[n]);
                assert(first.subrange(0, n as int) =~= first);
                assert(events.subrange(0, i).drop_last() =~= first);
                assert(events.subrange(0, i).last() == events[n]);
            }
        }
    } else {
        assert(events.subrange(0, 0) =~= Seq::<EventView>::empty());
    }
    assert forall|i: int| 0 <= i < hubs.len() implies #[trigger] hubs[i].size()
        == live_addresses(events.subrange(0, i)).len() by {
        lemma_registry_size(&hubs[i]);
    }
}

/// Termination: a hub that stops after the last connection stops on the event that takes
/// its registry from holding connections to holding none, and on no other (a removal from
/// an already empty registry included); a hub that does not, never stops.
pub proof fn lemma_termination<S>(before: &Hub<S>, after: &Hub<S>, address: Addr, r: HubAction)
    requires
        before.wf(),
        !before.has_terminated(),
        removal_outcome(before, after, address, r),
    ensures
        after.has_terminated() <==> (before.shuts_down_after_last() && before.registry().len() > 0
            && before.registry().remove(address).len() == 0),
        before.registry().len() == 0 ==> !after.has_terminated() && r is Continue,
        !before.shuts_down_after_last() ==> !after.has_terminated() && r is Continue,
        before.shuts_down_after_last() && before.registry().dom() == set![address] ==> r is Terminate,
{
    if before.registry().dom() == set![address] {
        assert(before.registry().remove(address).dom() =~= Set::<Addr>::empty());
        assert(before.registry().dom().contains(address));
        assert(before.registry().dom().len() > 0);
    }
}

} // verus!
