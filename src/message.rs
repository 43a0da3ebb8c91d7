use vstd::prelude::*;

use crate::address::Addr;
use crate::frame::{encode_frame, framed, split_frame, split_spec, Split, HEADER_LEN, MAX_PAYLOAD_LEN};

verus! {

#[verifier::external_type_specification]
#[verifier::external_body]
pub struct ExDecodeError(rmp_serde::decode::Error);

#[verifier::external_type_specification]
#[verifier::external_body]
pub struct ExEncodeError(rmp_serde::encode::Error);

/// Tag of a chat message in its wire fields.
pub const TAG_CHAT: u8 = 0;
/// Tag of a leaving notice in its wire fields.
pub const TAG_LEAVING: u8 = 1;
/// Tag of an empty message in its wire fields.
pub const TAG_NOTHING: u8 = 2;
/// Address family of an IPv4 sender in the wire fields.
pub const FAMILY_V4: u8 = 4;
/// Address family of an IPv6 sender in the wire fields.
pub const FAMILY_V6: u8 = 6;

/// The most bytes that the MessagePack encoding of the wire fields spends besides the
/// UTF-8 bytes of the text: an array header, five integers and a string header.
pub const PACKED_OVERHEAD: usize = 55;

/// The MessagePack encoding of a tuple of wire fields.
pub uninterp spec fn packed(fields: (u8, u8, u64, u64, u16, Seq<char>)) -> Seq<u8>;

/// The wire fields that a MessagePack byte string decodes to, if any.
pub uninterp spec fn unpacked(bytes: Seq<u8>) -> Option<(u8, u8, u64, u64, u16, Seq<char>)>;

/// Relies on rmp_serde::to_vec: the bytes are the MessagePack encoding of the tuple,
/// which depends on the tuple alone; its writer into a `Vec` fails only where memory
/// cannot be reserved, and integers, strings and tuples are written without error.
/// The encoding is an array header (at most 5 bytes), each integer in at most 9 bytes,
/// and the text as a string header (at most 5 bytes) and its UTF-8 bytes (at most 4 per
/// character). rmp_serde::from_slice reads that array back into the same tuple wherever
/// the string's length fits the 32-bit length header, which holds of any encoding no
/// longer than a frame's payload.
#[verifier::external_body]
fn pack_fields(fields: &(u8, u8, u64, u64, u16, String)) -> (r: Result<Vec<u8>, rmp_serde::encode::Error>)
    ensures
        r is Ok,
        r matches Ok(v) ==> v@ == packed((fields.0, fields.1, fields.2, fields.3, fields.4, fields.5@)),
        r matches Ok(v) ==> v@.len() <= PACKED_OVERHEAD + 4 * fields.5@.len(),
        r matches Ok(v) ==> (v@.len() <= MAX_PAYLOAD_LEN ==> unpacked(v@) == Some(
            (fields.0, fields.1, fields.2, fields.3, fields.4, fields.5@),
        )),
{
    rmp_serde::to_vec(fields)
}

/// Relies on rmp_serde::from_slice: whether and to what the bytes decode depends
/// on the bytes alone.
#[verifier::external_body]
fn unpack_fields(bytes: &[u8]) -> (r: Result<(u8, u8, u64, u64, u16, String), rmp_serde::decode::Error>)
    ensures
        match r {
            Ok(f) => unpacked(bytes@) == Some((f.0, f.1, f.2, f.3, f.4, f.5@)),
            Err(_) => unpacked(bytes@) is None,
        },
{
    rmp_serde::from_slice(bytes)
}

/// A message as a mathematical value.
pub enum MessageView {
    Chat(Addr, Seq<char>),
    Leaving(Addr),
    Nothing(Addr),
}

/// A message between a client and the server, with the address of its sender.
#[derive(Debug)]
pub enum TcpMessage {
    Chat(Addr, String),
    Leaving(Addr),
    Nothing(Addr),
}

impl View for TcpMessage {
    type V = MessageView;

    open spec fn view(&self) -> MessageView {
        match self {
            TcpMessage::Chat(a, t) => MessageView::Chat(*a, t@),
            TcpMessage::Leaving(a) => MessageView::Leaving(*a),
            TcpMessage::Nothing(a) => MessageView::Nothing(*a),
        }
    }
}

impl PartialEq for TcpMessage {
    fn eq(&self, o: &TcpMessage) -> (r: bool) {
        match (self, o) {
            (TcpMessage::Chat(a, t), TcpMessage::Chat(b, u)) => *a == *b && *t == *u,
            (TcpMessage::Leaving(a), TcpMessage::Leaving(b)) => *a == *b,
            (TcpMessage::Nothing(a), TcpMessage::Nothing(b)) => *a == *b,
            _ => false,
        }
    }
}

impl vstd::std_specs::cmp::PartialEqSpecImpl for TcpMessage {
    open spec fn obeys_eq_spec() -> bool {
        true
    }

    open spec fn eq_spec(&self, o: &TcpMessage) -> bool {
        self@ == o@
    }
}

/// Why a byte string is not a message.
#[derive(Clone, Copy, Debug, PartialEq, Eq, Structural)]
pub enum ProtocolError {
    /// The bytes end before the frame does.
    Truncated,
    /// The frame announces a payload longer than the limit.
    TooLong,
    /// Bytes follow the end of the frame.
    TrailingBytes,
    /// The payload is no MessagePack encoding of the wire fields.
    Undecodable,
    /// The fields carry a tag that names no kind of message.
    UnknownTag(u8),
    /// The fields carry no valid sender address.
    BadAddress,
    /// A message without text carries text.
    UnexpectedText,
}

/// Why a message could not be put on the wire.
#[derive(Clone, Copy, Debug, PartialEq, Eq, Structural)]
pub enum CodecError {
    /// The encoding is longer than a frame may carry.
    TooLong,
}

pub open spec fn sender_of(m: MessageView) -> Addr {
    match m {
        MessageView::Chat(a, _) => a,
        MessageView::Leaving(a) => a,
        MessageView::Nothing(a) => a,
    }
}

/// The wire fields of an address: family, high and low bits of the host, port.
pub open spec fn addr_fields(a: Addr) -> (u8, u64, u64, u16) {
    match a {
        Addr::V4 { ip, port } => (FAMILY_V4, 0, ip as u64, port),
        Addr::V6 { high, low, port } => (FAMILY_V6, high, low, port),
    }
}

/// The wire fields of a message: tag, address fields, text (empty but for a chat).
pub open spec fn fields_of(m: MessageView) -> (u8, u8, u64, u64, u16, Seq<char>) {
    let (tag, text) = match m {
        MessageView::Chat(_, t) => (TAG_CHAT, t),
        MessageView::Leaving(_) => (TAG_LEAVING, Seq::<char>::empty()),
        MessageView::Nothing(_) => (TAG_NOTHING, Seq::<char>::empty()),
    };
    let (family, high, low, port) = addr_fields(sender_of(m));
    (tag, family, high, low, port, text)
}

/// The address that address fields stand for, if they stand for one.
pub open spec fn addr_of_fields(family: u8, high: u64, low: u64, port: u16) -> Option<Addr> {
    if family == FAMILY_V4 && high == 0 && low <= u32::MAX {
        Some(Addr::V4 { ip: low as u32, port })
    } else if family == FAMILY_V6 {
        Some(Addr::V6 { high, low, port })
    } else {
        None
    }
}

/// The message that wire fields stand for, or why they stand for none.
pub open spec fn message_of(f: (u8, u8, u64, u64, u16, Seq<char>)) -> Result<MessageView, ProtocolError> {
    if f.0 != TAG_CHAT && f.0 != TAG_LEAVING && f.0 != TAG_NOTHING {
        Err(ProtocolError::UnknownTag(f.0))
    } else {
        match addr_of_fields(f.1, f.2, f.3, f.4) {
            None => Err(ProtocolError::BadAddress),
            Some(a) => if f.0 == TAG_CHAT {
                Ok(MessageView::Chat(a, f.5))
            } else if f.5.len() != 0 {
                Err(ProtocolError::UnexpectedText)
            } else if f.0 == TAG_LEAVING {
                Ok(MessageView::Leaving(a))
            } else {
                Ok(MessageView::Nothing(a))
            },
        }
    }
}

/// The message that a frame's payload decodes to.
pub open spec fn decode_payload_spec(p: Seq<u8>) -> Result<MessageView, ProtocolError> {
    match unpacked(p) {
        None => Err(ProtocolError::Undecodable),
        Some(f) => message_of(f),
    }
}

/// The message that a byte string holding exactly one frame decodes to.
pub open spec fn decode_spec(b: Seq<u8>) -> Result<MessageView, ProtocolError> {
    match split_spec(b) {
        Split::Incomplete => Err(ProtocolError::Truncated),
        Split::Oversized => Err(ProtocolError::TooLong),
        Split::Complete(n) => if b.len() > HEADER_LEN + n {
            Err(ProtocolError::TrailingBytes)
        } else {
            decode_payload_spec(b.subrange(HEADER_LEN as int, HEADER_LEN + n))
        },
    }
}

/// The bytes that stand for a message on the wire, when its encoding fits in a frame.
pub open spec fn encoding_of(m: MessageView) -> Seq<u8> {
    framed(packed(fields_of(m)))
}

/// A message whose text is short enough that its encoding surely fits in a frame.
pub open spec fn surely_fits(m: MessageView) -> bool {
    PACKED_OVERHEAD + 4 * fields_of(m).5.len() <= MAX_PAYLOAD_LEN
}

pub open spec fn result_view(r: Result<TcpMessage, ProtocolError>) -> Result<MessageView, ProtocolError> {
    match r {
        Ok(m) => Ok(m@),
        Err(e) => Err(e),
    }
}

impl TcpMessage {
    /// The wire fields of the message.
    pub fn to_fields(&self) -> (r: (u8, u8, u64, u64, u16, String))
        ensures
            (r.0, r.1, r.2, r.3, r.4, r.5@) == fields_of(self@),
    {
        let a = self.get_address();
        let (family, high, low, port): (u8, u64, u64, u16) = match a {
            Addr::V4 { ip, port } => (FAMILY_V4, 0, ip as u64, port),
            Addr::V6 { high, low, port } => (FAMILY_V6, high, low, port),
        };
        match self {
            TcpMessage::Chat(_, t) => (TAG_CHAT, family, high, low, port, t.clone()),
            TcpMessage::Leaving(_) => (TAG_LEAVING, family, high, low, port, String::new()),
            TcpMessage::Nothing(_) => (TAG_NOTHING, family, high, low, port, String::new()),
        }
    }

    /// The message that wire fields stand for, or why they stand for none.
    pub fn from_fields(f: (u8, u8, u64, u64, u16, String)) -> (r: Result<TcpMessage, ProtocolError>)
        ensures
            result_view(r) == message_of((f.0, f.1, f.2, f.3, f.4, f.5@)),
    {
        let (tag, family, high, low, port, text) = f;
        if tag != TAG_CHAT && tag != TAG_LEAVING && tag != TAG_NOTHING {
            return Err(ProtocolError::UnknownTag(tag));
        }
        let a = if family == FAMILY_V4 && high == 0 && low <= u32::MAX as u64 {
            Addr::V4 { ip: low as u32, port }
        } else if family == FAMILY_V6 {
            Addr::V6 { high, low, port }
        } else {
            return Err(ProtocolError::BadAddress);
        };
        if tag == TAG_CHAT {
            Ok(TcpMessage::Chat(a, text))
        } else if !text.as_str().is_empty() {
            Err(ProtocolError::UnexpectedText)
        } else if tag == TAG_LEAVING {
            Ok(TcpMessage::Leaving(a))
        } else {
            Ok(TcpMessage::Nothing(a))
        }
    }

    /// Decodes the payload of one frame.
    pub fn decode_payload(payload: &[u8]) -> (r: Result<TcpMessage, ProtocolError>)
        ensures
            result_view(r) == decode_payload_spec(payload@),
    {
        match unpack_fields(payload) {
            Ok(f) => TcpMessage::from_fields(f),
            Err(_) => Err(ProtocolError::Undecodable),
        }
    }

    /// Decodes a byte string that holds exactly one frame.
    pub fn from_bytes(buf: &[u8]) -> (r: Result<TcpMessage, ProtocolError>)
        ensures
            result_view(r) == decode_spec(buf@),
    {
        assert(buf@.subrange(0, buf@.len() as int) == buf@);
        match split_frame(buf, 0) {
            Split::Incomplete => Err(ProtocolError::Truncated),
            Split::Oversized => Err(ProtocolError::TooLong),
            Split::Complete(n) => {
                if buf.len() > HEADER_LEN + n {
                    Err(ProtocolError::TrailingBytes)
                } else {
                    let payload = vstd::slice::slice_subrange(buf, HEADER_LEN, HEADER_LEN + n);
                    TcpMessage::decode_payload(payload)
                }
            },
        }
    }

    /// The bytes that stand for the message on the wire: one frame, which decodes back
    /// to the message.
    ///
    /// Fails exactly where the encoding does not fit in a frame, whose payload is bounded
    /// by `MAX_PAYLOAD_LEN`; it surely fits where the text has at most
    /// (`MAX_PAYLOAD_LEN` - `PACKED_OVERHEAD`) / 4 characters.
    pub fn to_bytes(&self) -> (r: Result<Vec<u8>, CodecError>)
        ensures
            surely_fits(self@) ==> r is Ok,
            packed(fields_of(self@)).len() <= MAX_PAYLOAD_LEN ==> (r matches Ok(v) && v@
                == encoding_of(self@)),
            packed(fields_of(self@)).len() > MAX_PAYLOAD_LEN ==> r == Err::<Vec<u8>, CodecError>(
                CodecError::TooLong,
            ),
            r matches Ok(v) ==> decode_spec(v@) == Ok::<MessageView, ProtocolError>(self@),
    {
        let fields = self.to_fields();
        let payload = pack_fields(&fields).unwrap();
        if payload.len() > MAX_PAYLOAD_LEN {
            Err(CodecError::TooLong)
        } else {
            proof {
                lemma_codec_round_trip(self@, payload@);
            }
            Ok(encode_frame(payload.as_slice()))
        }
    }

    /// Whether the message says that its sender is leaving.
    pub fn is_leaving(&self) -> (r: bool)
        ensures
            r == (self@ is Leaving),
    {
        matches!(self, TcpMessage::Leaving(_))
    }

    /// The address of the message's sender.
    pub fn get_address(&self) -> (r: Addr)
        ensures
            r == sender_of(self@),
    {
        match self {
            TcpMessage::Chat(addr, _) => *addr,
            TcpMessage::Leaving(addr) => *addr,
            TcpMessage::Nothing(addr) => *addr,
        }
    }
}

/// Turning a message into wire fields and back gives the same message.
pub proof fn lemma_fields_round_trip(m: MessageView)
    ensures
        message_of(fields_of(m)) == Ok::<MessageView, ProtocolError>(m),
{
}

/// Decoding a frame of a message's MessagePack payload gives that message back, wherever
/// the payload decodes to the message's own fields.
proof fn lemma_codec_round_trip(m: MessageView, payload: Seq<u8>)
    requires
        payload.len() <= MAX_PAYLOAD_LEN,
        unpacked(payload) == Some(fields_of(m)),
    ensures
        decode_spec(framed(payload)) == Ok::<MessageView, ProtocolError>(m),
{
    crate::frame::lemma_frame_round_trip(payload, Seq::empty());
    assert(framed(payload) + Seq::<u8>::empty() =~= framed(payload));
    lemma_fields_round_trip(m);
}

/// No byte string of fewer bytes than a frame header decodes: it is reported too long
/// where its first bytes already show too long a header, else truncated.
pub proof fn lemma_short_input_rejected(b: Seq<u8>)
    requires
        b.len() < HEADER_LEN,
    ensures
        decode_spec(b) == Err::<MessageView, ProtocolError>(
            if crate::frame::header_too_long(b) {
                ProtocolError::TooLong
            } else {
                ProtocolError::Truncated
            },
        ),
{
}

} // verus!
