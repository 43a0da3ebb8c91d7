use vstd::prelude::*;

use crate::address::Addr;
use crate::frame::{bytes_from, concat_bytes, lemma_split_bounds, split_frame, split_spec, Split, HEADER_LEN, MAX_PAYLOAD_LEN};
use crate::message::{decode_payload_spec, sender_of, MessageView, ProtocolError, TcpMessage};

verus! {

/// The input line with which a user leaves.
pub const EXIT_COMMAND: &'static str = ".exit";

/// Whether `c` has the Unicode property White_Space.
pub open spec fn is_white_space(c: char) -> bool {
    let n = c as u32;
    ||| 0x9 <= n <= 0xd
    ||| n == 0x20 || n == 0x85 || n == 0xa0 || n == 0x1680
    ||| 0x2000 <= n <= 0x200a
    ||| n == 0x2028 || n == 0x2029 || n == 0x202f || n == 0x205f || n == 0x3000
}

/// `s` without the white space at its start.
pub open spec fn trim_start(s: Seq<char>) -> Seq<char>
    decreases s.len(),
{
    if s.len() > 0 && is_white_space(s[0]) {
        trim_start(s.drop_first())
    } else {
        s
    }
}

/// `s` without the white space at its end.
pub open spec fn trim_end(s: Seq<char>) -> Seq<char>
    decreases s.len(),
{
    if s.len() > 0 && is_white_space(s.last()) {
        trim_end(s.drop_last())
    } else {
        s
    }
}

/// `s` without the white space at either end.
pub open spec fn trimmed(s: Seq<char>) -> Seq<char> {
    trim_end(trim_start(s))
}

/// Relies on str::trim: it removes the leading and trailing characters that have the
/// Unicode property White_Space.
#[verifier::external_body]
fn trim(s: &str) -> (r: String)
    ensures
        r@ == trimmed(s@),
{
    s.trim().to_string()
}

/// The message that a trimmed input line of a user at `address` stands for: nothing for
/// an empty line, leaving for the exit command, else a chat with the line as its text.
pub open spec fn line_message(address: Addr, text: Seq<char>) -> MessageView {
    if text.len() == 0 {
        MessageView::Nothing(address)
    } else if text == EXIT_COMMAND@ {
        MessageView::Leaving(address)
    } else {
        MessageView::Chat(address, text)
    }
}

/// The message for an input line that has already been trimmed.
pub fn message_for_trimmed(address: Addr, text: String) -> (r: TcpMessage)
    ensures
        r@ == line_message(address, text@),
{
    if text.as_str().is_empty() {
        TcpMessage::Nothing(address)
    } else if text == String::from_str(EXIT_COMMAND) {
        TcpMessage::Leaving(address)
    } else {
        TcpMessage::Chat(address, text)
    }
}

/// The message for an input line typed by the user at `address`.
pub fn message_for_line(address: Addr, line: &str) -> (r: TcpMessage)
    ensures
        r@ == line_message(address, trimmed(line@)),
{
    message_for_trimmed(address, trim(line))
}

/// What a client makes of the buffered bytes `buf` it received: the messages of the whole
/// frames at the front, the bytes it keeps for later, and the error that stops it, if any.
///
/// Unlike a server's reader it reads on past a leaving notice, which may be a peer's.
pub open spec fn unpack_stream(buf: Seq<u8>) -> (Seq<MessageView>, Seq<u8>, Option<ProtocolError>)
    decreases buf.len(),
{
    match split_spec(buf) {
        Split::Incomplete => (Seq::empty(), buf, None),
        Split::Oversized => (Seq::empty(), Seq::empty(), Some(ProtocolError::TooLong)),
        Split::Complete(n) => {
            let end = HEADER_LEN + n;
            match decode_payload_spec(buf.subrange(HEADER_LEN as int, end as int)) {
                Err(e) => (Seq::empty(), Seq::empty(), Some(e)),
                Ok(m) => {
                    let later = unpack_stream(buf.subrange(end as int, buf.len() as int));
                    (seq![m] + later.0, later.1, later.2)
                },
            }
        },
    }
}

pub open spec fn messages_view(ms: Seq<TcpMessage>) -> Seq<MessageView> {
    ms.map_values(|m: TcpMessage| m@)
}

/// Turns the bytes a client receives from the server into messages.
pub struct Inbox {
    pending: Vec<u8>,
    failed: bool,
}

impl Inbox {
    /// Bytes received that do not yet make a whole frame.
    pub closed spec fn pending_bytes(&self) -> Seq<u8> {
        self.pending@
    }

    pub closed spec fn has_failed(&self) -> bool {
        self.failed
    }

    pub closed spec fn wf(&self) -> bool {
        self.pending@.len() < HEADER_LEN + MAX_PAYLOAD_LEN
    }

    /// An inbox that has received nothing.
    pub fn new() -> (r: Inbox)
        ensures
            r.wf(),
            r.pending_bytes() == Seq::<u8>::empty(),
            !r.has_failed(),
    {
        Inbox { pending: Vec::new(), failed: false }
    }

    /// Whether a malformed frame has stopped the inbox.
    pub fn is_failed(&self) -> (r: bool)
        ensures
            r == self.has_failed(),
    {
        self.failed
    }

    /// Takes bytes received and returns the messages they complete, and the error that
    /// stops the inbox if a frame is malformed.
    pub fn on_data(&mut self, chunk: &[u8]) -> (r: (Vec<TcpMessage>, Option<ProtocolError>))
        requires
            old(self).wf(),
            !old(self).has_failed(),
            chunk@.len() <= usize::MAX - (HEADER_LEN + MAX_PAYLOAD_LEN),
        ensures
            final(self).wf(),
            ({
                let d = unpack_stream(old(self).pending_bytes() + chunk@);
                &&& messages_view(r.0@) == d.0
                &&& final(self).pending_bytes() == d.1
                &&& r.1 == d.2
                &&& final(self).has_failed() == d.2 is Some
            }),
    {
        let ghost whole = self.pending@ + chunk@;
        let buf = concat_bytes(self.pending.as_slice(), chunk);
        let mut got: Vec<TcpMessage> = Vec::new();
        let mut start: usize = 0;
        assert(buf@.subrange(0, buf@.len() as int) =~= whole);
        loop
            invariant
                buf@ == whole,
                whole == old(self).pending@ + chunk@,
                whole.len() <= usize::MAX,
                !self.failed,
                start <= buf@.len(),
                ({
                    let d = unpack_stream(buf@.subrange(start as int, buf@.len() as int));
                    unpack_stream(whole) == (messages_view(got@) + d.0, d.1, d.2)
                }),
            decreases buf@.len() - start,
        {
            let ghost rest = buf@.subrange(start as int, buf@.len() as int);
            let ghost before = messages_view(got@);
            proof {
                lemma_split_bounds(rest);
            }
            assert(before + Seq::<MessageView>::empty() =~= before);
            match split_frame(buf.as_slice(), start) {
                Split::Incomplete => {
                    let kept = bytes_from(buf.as_slice(), start);
                    assert(kept@ =~= rest);
                    self.pending = kept;
                    return (got, None);
                },
                Split::Oversized => {
                    self.pending = Vec::new();
                    self.failed = true;
                    return (got, Some(ProtocolError::TooLong));
                },
                Split::Complete(n) => {
                    let end = start + HEADER_LEN + n;
                    let payload = vstd::slice::slice_subrange(buf.as_slice(), start + HEADER_LEN, end);
                    assert(payload@ =~= rest.subrange(HEADER_LEN as int, HEADER_LEN + n));
                    match TcpMessage::decode_payload(payload) {
                        Err(e) => {
                            self.pending = Vec::new();
                            self.failed = true;
                            return (got, Some(e));
                        },
                        Ok(m) => {
                            let ghost mv = m@;
                            got.push(m);
                            assert(messages_view(got@) =~= before + seq![mv]);
                            assert(buf@.subrange(end as int, buf@.len() as int) =~= rest.subrange(
                                HEADER_LEN + n,
                                rest.len() as int,
                            ));
                            let ghost later = unpack_stream(buf@.subrange(end as int, buf@.len() as int));
                            assert(before + (seq![mv] + later.0) =~= (before + seq![mv]) + later.0);
                            start = end;
                        },
                    }
                },
            }
        }
    }
}

/// How a client shows a message it received.
#[derive(Clone, Copy, Debug, PartialEq, Eq, Structural)]
pub enum Echo {
    /// A message of its own.
    Own,
    /// Its own leaving notice: the last message it waits for.
    OwnLast,
    /// A message of another peer.
    Peer,
}

/// Tells a client at `local` how to show `msg`.
pub fn echo_for(msg: &TcpMessage, local: Addr) -> (r: Echo)
    ensures
        sender_of(msg@) != local ==> r == Echo::Peer,
        sender_of(msg@) == local && msg@ is Leaving ==> r == Echo::OwnLast,
        sender_of(msg@) == local && !(msg@ is Leaving) ==> r == Echo::Own,
{
    if msg.get_address() != local {
        Echo::Peer
    } else if msg.is_leaving() {
        Echo::OwnLast
    } else {
        Echo::Own
    }
}

} // verus!
