use vstd::prelude::*;

use crate::address::Addr;
use crate::frame::{bytes_from, concat_bytes, framed, lemma_frame_round_trip, split_frame, split_spec, Split, HEADER_LEN, MAX_PAYLOAD_LEN};
use crate::hub::{event_view, events_view, EventView, MpscMessage};
use crate::message::{decode_payload_spec, MessageView, ProtocolError, TcpMessage};

verus! {

/// The reason given when a connection sends bytes that are no frame of a message.
pub const MALFORMED: &'static str = "malformed frame";

/// The reason given when the peer closes the connection without leaving.
pub const CLOSED: &'static str = "connection closed";

/// What the reader of `address` makes of the buffered bytes `buf`: the events it emits,
/// the bytes it keeps for later, and whether it has stopped.
///
/// Each whole frame at the front becomes a message event; a leaving message is followed
/// by a disconnect and ends the reading; a frame that does not decode, or announces too
/// long a payload, gives an error event and ends the reading.
pub open spec fn drain(address: Addr, buf: Seq<u8>) -> (Seq<EventView>, Seq<u8>, bool)
    decreases buf.len(),
{
    match split_spec(buf) {
        Split::Incomplete => (Seq::empty(), buf, false),
        Split::Oversized => (seq![EventView::Error(address, MALFORMED@)], Seq::empty(), true),
        Split::Complete(n) => {
            let end = HEADER_LEN + n;
            match decode_payload_spec(buf.subrange(HEADER_LEN as int, end as int)) {
                Err(_) => (seq![EventView::Error(address, MALFORMED@)], Seq::empty(), true),
                Ok(m) => if m is Leaving {
                    (
                        seq![EventView::Message(address, m), EventView::Disconnect(address)],
                        Seq::empty(),
                        true,
                    )
                } else {
                    let later = drain(address, buf.subrange(end as int, buf.len() as int));
                    (seq![EventView::Message(address, m)] + later.0, later.1, later.2)
                },
            }
        },
    }
}

/// The frames of the payloads `ps`, one after another.
pub open spec fn frames(ps: Seq<Seq<u8>>) -> Seq<u8>
    decreases ps.len(),
{
    if ps.len() == 0 {
        Seq::empty()
    } else {
        framed(ps[0]) + frames(ps.drop_first())
    }
}

/// A reader fed frames whose payloads decode to messages, the last of them and no other a
/// leaving notice, emits one message event for each, then a disconnect, and stops: it
/// emits nothing for what follows.
pub proof fn lemma_reads_up_to_leaving(address: Addr, ps: Seq<Seq<u8>>, ms: Seq<MessageView>, rest: Seq<u8>)
    requires
        ps.len() == ms.len(),
        ms.len() > 0,
        forall|i: int| 0 <= i < ps.len() ==> #[trigger] ps[i].len() <= MAX_PAYLOAD_LEN,
        forall|i: int| 0 <= i < ps.len() ==> #[trigger] decode_payload_spec(ps[i]) == Ok::<MessageView, ProtocolError>(ms[i]),
        forall|i: int| 0 <= i < ms.len() - 1 ==> !(#[trigger] ms[i] is Leaving),
        ms.last() is Leaving,
    ensures
        drain(address, frames(ps) + rest) == (
            ms.map_values(|m: MessageView| EventView::Message(address, m)).push(EventView::Disconnect(address)),
            Seq::<u8>::empty(),
            true,
        ),
    decreases ps.len(),
{
    let tail = frames(ps.drop_first()) + rest;
    assert(frames(ps) + rest =~= framed(ps[0]) + tail);
    lemma_frame_round_trip(ps[0], tail);
    let events = ms.map_values(|m: MessageView| EventView::Message(address, m));
    if ms.len() == 1 {
        assert(events.push(EventView::Disconnect(address)) =~= seq![
            EventView::Message(address, ms[0]),
            EventView::Disconnect(address),
        ]);
    } else {
        let ps2 = ps.drop_first();
        let ms2 = ms.drop_first();
        assert(!(ms[0] is Leaving));
        assert forall|i: int| 0 <= i < ps2.len() implies #[trigger] ps2[i].len() <= MAX_PAYLOAD_LEN
            && decode_payload_spec(ps2[i]) == Ok::<MessageView, ProtocolError>(ms2[i]) by {
            assert(ps2[i] == ps[i + 1]);
            assert(ms2[i] == ms[i + 1]);
        }
        assert forall|i: int| 0 <= i < ms2.len() - 1 implies !(#[trigger] ms2[i] is Leaving) by {
            assert(ms2[i] == ms[i + 1]);
        }
        lemma_reads_up_to_leaving(address, ps2, ms2, rest);
        let events2 = ms2.map_values(|m: MessageView| EventView::Message(address, m));
        assert(events.push(EventView::Disconnect(address)) =~= seq![EventView::Message(address, ms[0])]
            + events2.push(EventView::Disconnect(address)));
    }
}

/// Turns the bytes read from one connection into events for the hub.
pub struct Reader {
    address: Addr,
    pending: Vec<u8>,
    finished: bool,
}

impl Reader {
    pub closed spec fn addr(&self) -> Addr {
        self.address
    }

    /// Bytes received that do not yet make a whole frame.
    pub closed spec fn pending_bytes(&self) -> Seq<u8> {
        self.pending@
    }

    pub closed spec fn has_finished(&self) -> bool {
        self.finished
    }

    pub closed spec fn wf(&self) -> bool {
        self.pending@.len() < HEADER_LEN + MAX_PAYLOAD_LEN
    }

    /// A reader for the connection with the peer at `address`.
    pub fn new(address: Addr) -> (r: Reader)
        ensures
            r.wf(),
            r.addr() == address,
            r.pending_bytes() == Seq::<u8>::empty(),
            !r.has_finished(),
    {
        Reader { address, pending: Vec::new(), finished: false }
    }

    /// Whether the reader has stopped.
    pub fn is_finished(&self) -> (r: bool)
        ensures
            r == self.has_finished(),
    {
        self.finished
    }

    /// The event that registers the connection with the hub, sent before any other.
    pub fn opening<S>(&self, stream: S) -> (r: MpscMessage<S>)
        ensures
            r == MpscMessage::Connect(self.addr(), stream),
    {
        MpscMessage::Connect(self.address, stream)
    }

    /// Takes bytes read from the connection and returns the events they complete.
    pub fn on_data<S>(&mut self, chunk: &[u8]) -> (r: Vec<MpscMessage<S>>)
        requires
            old(self).wf(),
            !old(self).has_finished(),
            chunk@.len() <= usize::MAX - (HEADER_LEN + MAX_PAYLOAD_LEN),
        ensures
            final(self).wf(),
            final(self).addr() == old(self).addr(),
            ({
                let d = drain(old(self).addr(), old(self).pending_bytes() + chunk@);
                &&& events_view(r@) == d.0
                &&& final(self).pending_bytes() == d.1
                &&& final(self).has_finished() == d.2
            }),
    {
        let ghost whole = self.pending@ + chunk@;
        let buf = concat_bytes(self.pending.as_slice(), chunk);
        let address = self.address;
        let mut events: Vec<MpscMessage<S>> = Vec::new();
        let mut start: usize = 0;
        assert(buf@.subrange(0, buf@.len() as int) =~= whole);
        loop
            invariant
                buf@ == whole,
                whole == old(self).pending@ + chunk@,
                whole.len() <= usize::MAX,
                address == old(self).address,
                !self.finished,
                self.address == address,
                start <= buf@.len(),
                ({
                    let d = drain(address, buf@.subrange(start as int, buf@.len() as int));
                    drain(address, whole) == (events_view(events@) + d.0, d.1, d.2)
                }),
            decreases buf@.len() - start,
        {
            let ghost rest = buf@.subrange(start as int, buf@.len() as int);
            let ghost before = events_view(events@);
            let ghost d = drain(address, rest);
            assert(drain(address, whole) == (before + d.0, d.1, d.2));
            match split_frame(buf.as_slice(), start) {
                Split::Incomplete => {
                    let kept = bytes_from(buf.as_slice(), start);
                    assert(before + Seq::<EventView>::empty() =~= before);
                    assert(kept@ =~= rest);
                    self.pending = kept;
                    return events;
                },
                Split::Oversized => {
                    assert(d == (seq![EventView::Error(address, MALFORMED@)], Seq::<u8>::empty(), true));
                    events.push(MpscMessage::Error(address, String::from_str(MALFORMED)));
                    assert(events_view(events@) =~= before + seq![EventView::Error(address, MALFORMED@)]);
                    self.pending = Vec::new();
                    self.finished = true;
                    return events;
                },
                Split::Complete(n) => {
                    assert(HEADER_LEN + n <= rest.len());
                    let end = start + HEADER_LEN + n;
                    let payload = vstd::slice::slice_subrange(buf.as_slice(), start + HEADER_LEN, end);
                    assert(payload@ =~= rest.subrange(HEADER_LEN as int, HEADER_LEN + n));
                    match TcpMessage::decode_payload(payload) {
                        Err(_) => {
                            assert(d == (seq![EventView::Error(address, MALFORMED@)], Seq::<u8>::empty(), true));
                            events.push(MpscMessage::Error(address, String::from_str(MALFORMED)));
                            assert(events_view(events@) =~= before + seq![EventView::Error(address, MALFORMED@)]);
                            self.pending = Vec::new();
                            self.finished = true;
                            return events;
                        },
                        Ok(m) => {
                            let leaving = m.is_leaving();
                            let ghost mv = m@;
                            events.push(MpscMessage::Message(address, m));
                            if leaving {
                                events.push(MpscMessage::Disconnect(address));
                                assert(events_view(events@) =~= before + seq![
                                    EventView::Message(address, mv),
                                    EventView::Disconnect(address),
                                ]);
                                self.pending = Vec::new();
                                self.finished = true;
                                return events;
                            }
                            assert(events_view(events@) =~= before + seq![EventView::Message(address, mv)]);
                            assert(buf@.subrange(end as int, buf@.len() as int) =~= rest.subrange(
                                HEADER_LEN + n,
                                rest.len() as int,
                            ));
                            let ghost later = drain(address, buf@.subrange(end as int, buf@.len() as int));
                            assert(before + (seq![EventView::Message(address, mv)] + later.0) =~= (before
                                + seq![EventView::Message(address, mv)]) + later.0);
                            start = end;
                        },
                    }
                },
            }
        }
    }

    /// Records that reading from the connection failed, and returns the error event.
    pub fn on_read_error<S>(&mut self, reason: String) -> (r: MpscMessage<S>)
        requires
            old(self).wf(),
        ensures
            final(self).wf(),
            final(self).has_finished(),
            final(self).addr() == old(self).addr(),
            event_view(r) == EventView::Error(old(self).addr(), reason@),
    {
        self.finished = true;
        MpscMessage::Error(self.address, reason)
    }

    /// Records that the peer closed the connection, and returns the error event: a peer
    /// that leaves cleanly says so first.
    pub fn on_end<S>(&mut self) -> (r: MpscMessage<S>)
        requires
            old(self).wf(),
        ensures
            final(self).wf(),
            final(self).has_finished(),
            final(self).addr() == old(self).addr(),
            event_view(r) == EventView::Error(old(self).addr(), CLOSED@),
    {
        self.finished = true;
        MpscMessage::Error(self.address, String::from_str(CLOSED))
    }
}

} // verus!
