use vstd::prelude::*;

verus! {

/// Bytes in the length header that precedes every frame's payload.
pub const HEADER_LEN: usize = 4;

/// The longest payload a frame may carry: a bound on what one message may cost a
/// reader to buffer, chosen by this library.
pub const MAX_PAYLOAD_LEN: usize = 65536;

/// The big-endian 32-bit encoding of `n`.
pub open spec fn be_u32(n: nat) -> Seq<u8> {
    seq![
        (n / 0x100_0000) as u8,
        ((n / 0x1_0000) % 0x100) as u8,
        ((n / 0x100) % 0x100) as u8,
        (n % 0x100) as u8,
    ]
}

/// The number that the first four bytes of `b` hold, big-endian.
pub open spec fn header_value(b: Seq<u8>) -> nat
    recommends
        b.len() >= 4,
{
    (b[0] as nat) * 0x100_0000 + (b[1] as nat) * 0x1_0000 + (b[2] as nat) * 0x100 + (b[3] as nat)
}

/// A payload on the wire: its length, big-endian in four bytes, then the payload.
pub open spec fn framed(payload: Seq<u8>) -> Seq<u8> {
    be_u32(payload.len()) + payload
}

/// The bytes of `b` that stand before any payload already show a length header above
/// `MAX_PAYLOAD_LEN`, however the header goes on.
pub open spec fn header_too_long(b: Seq<u8>) -> bool {
    ||| b.len() >= 1 && b[0] > 0
    ||| b.len() >= 2 && b[1] > 1
    ||| b.len() >= 3 && b[1] == 1 && b[2] > 0
    ||| b.len() >= 4 && b[1] == 1 && b[3] > 0
}

/// On a whole header, the early test says exactly whether it announces too long a payload.
pub proof fn lemma_header_too_long(b: Seq<u8>)
    requires
        b.len() >= HEADER_LEN,
    ensures
        header_too_long(b) <==> header_value(b) > MAX_PAYLOAD_LEN,
{
    let (b0, b1, b2, b3) = (b[0] as int, b[1] as int, b[2] as int, b[3] as int);
    assert(header_too_long(b) <==> header_value(b) > MAX_PAYLOAD_LEN) by (nonlinear_arith)
        requires
            0 <= b0 < 256,
            0 <= b1 < 256,
            0 <= b2 < 256,
            0 <= b3 < 256,
            header_value(b) == b0 * 0x100_0000 + b1 * 0x1_0000 + b2 * 0x100 + b3,
            header_too_long(b) <==> (b0 > 0 || b1 > 1 || (b1 == 1 && b2 > 0) || (b1 == 1 && b3 > 0)),
    ;
}

/// What the front of a byte buffer holds.
#[derive(Clone, Copy, Debug, PartialEq, Eq, Structural)]
pub enum Split {
    /// Not yet a whole frame: more bytes are needed.
    Incomplete,
    /// The header announces, or its first bytes already show, a payload longer than
    /// `MAX_PAYLOAD_LEN`.
    Oversized,
    /// A whole frame whose payload has this many bytes.
    Complete(usize),
}

pub open spec fn split_spec(b: Seq<u8>) -> Split {
    if header_too_long(b) {
        Split::Oversized
    } else if b.len() < HEADER_LEN {
        Split::Incomplete
    } else if b.len() < HEADER_LEN + header_value(b) {
        Split::Incomplete
    } else {
        Split::Complete(header_value(b) as usize)
    }
}

/// A buffer that does not begin with too long a header, and is no whole frame, holds
/// less than a header and the longest payload.
pub proof fn lemma_split_bounds(b: Seq<u8>)
    ensures
        split_spec(b) is Incomplete ==> b.len() < HEADER_LEN + MAX_PAYLOAD_LEN,
        split_spec(b) matches Split::Complete(n) ==> n <= MAX_PAYLOAD_LEN && HEADER_LEN + n <= b.len()
            && n == header_value(b),
{
    if b.len() >= HEADER_LEN {
        lemma_header_too_long(b);
    }
}

/// Looks at the bytes of `buf` from `start` on and says whether they begin with a whole frame.
pub fn split_frame(buf: &[u8], start: usize) -> (r: Split)
    requires
        start <= buf@.len(),
    ensures
        r == split_spec(buf@.subrange(start as int, buf@.len() as int)),
{
    let ghost b = buf@.subrange(start as int, buf@.len() as int);
    let avail = buf.len() - start;
    if (avail >= 1 && buf[start] > 0) || (avail >= 2 && buf[start + 1] > 1) || (avail >= 3
        && buf[start + 1] == 1 && buf[start + 2] > 0) || (avail >= 4 && buf[start + 1] == 1
        && buf[start + 3] > 0) {
        return Split::Oversized;
    }
    if avail < HEADER_LEN {
        return Split::Incomplete;
    }
    let n: usize = (buf[start] as usize) * 0x100_0000 + (buf[start + 1] as usize) * 0x1_0000
        + (buf[start + 2] as usize) * 0x100 + (buf[start + 3] as usize);
    assert(n == header_value(b));
    proof {
        lemma_header_too_long(b);
    }
    if avail < HEADER_LEN + n {
        Split::Incomplete
    } else {
        Split::Complete(n)
    }
}

/// Puts `payload` into a frame: its length header, then the payload itself.
pub fn encode_frame(payload: &[u8]) -> (r: Vec<u8>)
    requires
        payload@.len() <= MAX_PAYLOAD_LEN,
    ensures
        r@ == framed(payload@),
{
    let n = payload.len();
    let mut out: Vec<u8> = Vec::with_capacity(HEADER_LEN + n);
    out.push((n / 0x100_0000) as u8);
    out.push(((n / 0x1_0000) % 0x100) as u8);
    out.push(((n / 0x100) % 0x100) as u8);
    out.push((n % 0x100) as u8);
    let mut i: usize = 0;
    while i < n
        invariant
            n == payload@.len(),
            i <= n,
            out@ == be_u32(n as nat) + payload@.subrange(0, i as int),
        decreases n - i,
    {
        out.push(payload[i]);
        i += 1;
        assert(payload@.subrange(0, i as int) == payload@.subrange(0, i - 1) + seq![payload@[i - 1]]);
    }
    assert(payload@.subrange(0, n as int) == payload@);
    out
}

/// The bytes of `a` followed by those of `b`.
pub fn concat_bytes(a: &[u8], b: &[u8]) -> (r: Vec<u8>)
    requires
        a@.len() + b@.len() <= usize::MAX,
    ensures
        r@ == a@ + b@,
{
    let mut out: Vec<u8> = Vec::new();
    let mut i: usize = 0;
    while i < a.len()
        invariant
            i <= a@.len(),
            out@ == a@.subrange(0, i as int),
        decreases a@.len() - i,
    {
        out.push(a[i]);
        i += 1;
        assert(out@ =~= a@.subrange(0, i as int));
    }
    let mut j: usize = 0;
    while j < b.len()
        invariant
            j <= b@.len(),
            out@ == a@ + b@.subrange(0, j as int),
        decreases b@.len() - j,
    {
        out.push(b[j]);
        j += 1;
        assert(out@ =~= a@ + b@.subrange(0, j as int));
    }
    assert(out@ =~= a@ + b@);
    out
}

/// The bytes of `buf` from `start` on.
pub fn bytes_from(buf: &[u8], start: usize) -> (r: Vec<u8>)
    requires
        start <= buf@.len(),
    ensures
        r@ == buf@.subrange(start as int, buf@.len() as int),
{
    let mut out: Vec<u8> = Vec::new();
    let mut k: usize = start;
    while k < buf.len()
        invariant
            start <= k <= buf@.len(),
            out@ == buf@.subrange(start as int, k as int),
        decreases buf@.len() - k,
    {
        out.push(buf[k]);
        k += 1;
        assert(out@ =~= buf@.subrange(start as int, k as int));
    }
    out
}

/// A frame made by `encode_frame` splits back into exactly its payload.
pub proof fn lemma_frame_round_trip(payload: Seq<u8>, rest: Seq<u8>)
    requires
        payload.len() <= MAX_PAYLOAD_LEN,
    ensures
        split_spec(framed(payload) + rest) == Split::Complete(payload.len() as usize),
        (framed(payload) + rest).subrange(HEADER_LEN as int, HEADER_LEN + payload.len()) == payload,
        (framed(payload) + rest).subrange(HEADER_LEN + payload.len(), (framed(payload) + rest).len() as int) == rest,
{
    let b = framed(payload) + rest;
    let n = payload.len();
    assert(header_value(b) == n) by (nonlinear_arith)
        requires
            b[0] == (n / 0x100_0000) as u8,
            b[1] == ((n / 0x1_0000) % 0x100) as u8,
            b[2] == ((n / 0x100) % 0x100) as u8,
            b[3] == (n % 0x100) as u8,
            n <= 65536,
            header_value(b) == (b[0] as nat) * 0x100_0000 + (b[1] as nat) * 0x1_0000 + (b[2] as nat) * 0x100 + (b[3] as nat),
    ;
    lemma_header_too_long(b);
    assert(b.subrange(HEADER_LEN as int, HEADER_LEN + n) =~= payload);
    assert(b.subrange(HEADER_LEN + n, b.len() as int) =~= rest);
}

} // verus!
