//! Framing of the message envelope carried over the validator link.
//!
//! A frame is one tag byte for the message type, then the correlation id and
//! the content, each preceded by its length as a big-endian `u32`. Nothing may
//! follow the content.

use vstd::prelude::*;

verus! {

/// The kinds of message exchanged with the validator.
#[derive(Clone, Copy, Debug, PartialEq, Eq, Structural)]
pub enum MessageType {
    RegisterRequest,
    RegisterResponse,
    UnregisterRequest,
    ProcessRequest,
    ProcessResponse,
    StateGetRequest,
    StateGetResponse,
    StateSetRequest,
    StateSetResponse,
    StateDeleteRequest,
    StateDeleteResponse,
}

/// Why a frame could not be decoded.
#[derive(Clone, Copy, Debug, PartialEq, Eq, Structural)]
pub enum DecodeError {
    /// The frame ends before a field it announces.
    Truncated,
    /// The tag byte names no message type.
    UnknownMessageType,
    /// Bytes follow the announced content.
    TrailingBytes,
}

/// A decoded frame.
#[derive(Debug)]
pub struct Envelope {
    pub message_type: MessageType,
    pub correlation_id: Vec<u8>,
    pub content: Vec<u8>,
}

/// What an envelope holds, as mathematical values.
pub ghost struct EnvelopeModel {
    pub message_type: MessageType,
    pub correlation_id: Seq<u8>,
    pub content: Seq<u8>,
}

impl View for Envelope {
    type V = EnvelopeModel;

    open spec fn view(&self) -> EnvelopeModel {
        EnvelopeModel {
            message_type: self.message_type,
            correlation_id: self.correlation_id@,
            content: self.content@,
        }
    }
}

/// An envelope can be framed when both length fields fit in a `u32`.
pub open spec fn encodable(m: EnvelopeModel) -> bool {
    m.correlation_id.len() <= u32::MAX && m.content.len() <= u32::MAX
}

pub open spec fn tag_of(t: MessageType) -> u8 {
    match t {
        MessageType::RegisterRequest => 0,
        MessageType::RegisterResponse => 1,
        MessageType::UnregisterRequest => 2,
        MessageType::ProcessRequest => 3,
        MessageType::ProcessResponse => 4,
        MessageType::StateGetRequest => 5,
        MessageType::StateGetResponse => 6,
        MessageType::StateSetRequest => 7,
        MessageType::StateSetResponse => 8,
        MessageType::StateDeleteRequest => 9,
        MessageType::StateDeleteResponse => 10,
    }
}

pub open spec fn type_of_tag(b: u8) -> Option<MessageType> {
    if b == 0 {
        Some(MessageType::RegisterRequest)
    } else if b == 1 {
        Some(MessageType::RegisterResponse)
    } else if b == 2 {
        Some(MessageType::UnregisterRequest)
    } else if b == 3 {
        Some(MessageType::ProcessRequest)
    } else if b == 4 {
        Some(MessageType::ProcessResponse)
    } else if b == 5 {
        Some(MessageType::StateGetRequest)
    } else if b == 6 {
        Some(MessageType::StateGetResponse)
    } else if b == 7 {
        Some(MessageType::StateSetRequest)
    } else if b == 8 {
        Some(MessageType::StateSetResponse)
    } else if b == 9 {
        Some(MessageType::StateDeleteRequest)
    } else if b == 10 {
        Some(MessageType::StateDeleteResponse)
    } else {
        None
    }
}

/// The four big-endian bytes of `n`.
pub open spec fn be32(n: u32) -> Seq<u8> {
    seq![(n >> 24u32) as u8, (n >> 16u32) as u8, (n >> 8u32) as u8, n as u8]
}

/// The big-endian `u32` held in `b[i .. i + 4]`.
pub open spec fn read_be32(b: Seq<u8>, i: int) -> u32 {
    ((b[i] as u32) << 24u32) | ((b[i + 1] as u32) << 16u32) | ((b[i + 2] as u32) << 8u32) | (
    b[i + 3] as u32)
}

/// The frame of an envelope.
pub open spec fn encode_spec(m: EnvelopeModel) -> Seq<u8> {
    seq![tag_of(m.message_type)] + be32(m.correlation_id.len() as u32) + m.correlation_id + be32(
        m.content.len() as u32,
    ) + m.content
}

/// What a byte string decodes to.
pub open spec fn decode_spec(b: Seq<u8>) -> Result<EnvelopeModel, DecodeError> {
    if b.len() < 1 {
        Err(DecodeError::Truncated)
    } else {
        match type_of_tag(b[0]) {
            None => Err(DecodeError::UnknownMessageType),
            Some(t) => {
                if b.len() < 5 {
                    Err(DecodeError::Truncated)
                } else {
                    let l = read_be32(b, 1) as int;
                    if b.len() < 9 + l {
                        Err(DecodeError::Truncated)
                    } else {
                        let c = read_be32(b, 5 + l) as int;
                        if b.len() < 9 + l + c {
                            Err(DecodeError::Truncated)
                        } else if b.len() > 9 + l + c {
                            Err(DecodeError::TrailingBytes)
                        } else {
                            Ok(
                                EnvelopeModel {
                                    message_type: t,
                                    correlation_id: b.subrange(5, 5 + l),
                                    content: b.subrange(9 + l, 9 + l + c),
                                },
                            )
                        }
                    }
                }
            },
        }
    }
}

proof fn lemma_tag_round_trip(t: MessageType, b: u8)
    ensures
        type_of_tag(tag_of(t)) == Some(t),
        type_of_tag(b) matches Some(u) ==> tag_of(u) == b,
{
}

proof fn lemma_join_split(n: u32)
    by (bit_vector)
    ensures
        ((((n >> 24u32) as u8) as u32) << 24u32) | ((((n >> 16u32) as u8) as u32) << 16u32) | ((((n
            >> 8u32) as u8) as u32) << 8u32) | ((n as u8) as u32) == n,
{
}

proof fn lemma_split_join(a: u8, b: u8, c: u8, d: u8)
    by (bit_vector)
    ensures
        ((((a as u32) << 24u32) | ((b as u32) << 16u32) | ((c as u32) << 8u32) | (d as u32))
            >> 24u32) as u8 == a,
        ((((a as u32) << 24u32) | ((b as u32) << 16u32) | ((c as u32) << 8u32) | (d as u32))
            >> 16u32) as u8 == b,
        ((((a as u32) << 24u32) | ((b as u32) << 16u32) | ((c as u32) << 8u32) | (d as u32))
            >> 8u32) as u8 == c,
        (((a as u32) << 24u32) | ((b as u32) << 16u32) | ((c as u32) << 8u32) | (d as u32)) as u8
            == d,
{
}

/// Reading back the four bytes written for `n` at offset `i` gives `n`.
pub(crate) proof fn lemma_read_written(b: Seq<u8>, i: int, n: u32)
    requires
        0 <= i,
        i + 4 <= b.len(),
        b.subrange(i, i + 4) == be32(n),
    ensures
        read_be32(b, i) == n,
{
    assert(b[i] == b.subrange(i, i + 4)[0]);
    assert(b[i + 1] == b.subrange(i, i + 4)[1]);
    assert(b[i + 2] == b.subrange(i, i + 4)[2]);
    assert(b[i + 3] == b.subrange(i, i + 4)[3]);
    lemma_join_split(n);
}

/// Writing the number read at offset `i` gives back the four bytes there.
pub(crate) proof fn lemma_written_read(b: Seq<u8>, i: int)
    requires
        0 <= i,
        i + 4 <= b.len(),
    ensures
        be32(read_be32(b, i)) == b.subrange(i, i + 4),
{
    lemma_split_join(b[i], b[i + 1], b[i + 2], b[i + 3]);
    assert(be32(read_be32(b, i)) =~= b.subrange(i, i + 4));
}

/// Decoding the frame of an encodable envelope gives that envelope back.
pub proof fn lemma_decode_encode(m: EnvelopeModel)
    requires
        encodable(m),
    ensures
        decode_spec(encode_spec(m)) == Ok::<EnvelopeModel, DecodeError>(m),
{
    let b = encode_spec(m);
    let l = m.correlation_id.len() as int;
    let c = m.content.len() as int;
    lemma_tag_round_trip(m.message_type, 0);
    assert(b.len() == 9 + l + c);
    assert(b[0] == tag_of(m.message_type));
    assert(b.subrange(1, 5) =~= be32(l as u32));
    lemma_read_written(b, 1, l as u32);
    assert(b.subrange(5 + l, 9 + l) =~= be32(c as u32));
    lemma_read_written(b, 5 + l, c as u32);
    assert(b.subrange(5, 5 + l) =~= m.correlation_id);
    assert(b.subrange(9 + l, 9 + l + c) =~= m.content);
}

/// A byte string that decodes is exactly the frame of what it decodes to.
pub proof fn lemma_encode_decode(b: Seq<u8>)
    requires
        decode_spec(b) is Ok,
    ensures
        encode_spec(decode_spec(b)->Ok_0) == b,
{
    let m = decode_spec(b)->Ok_0;
    let l = read_be32(b, 1) as int;
    let c = read_be32(b, 5 + l) as int;
    lemma_tag_round_trip(m.message_type, b[0]);
    lemma_written_read(b, 1);
    lemma_written_read(b, 5 + l);
    assert(m.correlation_id.len() == l);
    assert(m.content.len() == c);
    assert(encode_spec(m) =~= b);
}

fn message_tag(t: MessageType) -> (r: u8)
    ensures
        r == tag_of(t),
{
    match t {
        MessageType::RegisterRequest => 0,
        MessageType::RegisterResponse => 1,
        MessageType::UnregisterRequest => 2,
        MessageType::ProcessRequest => 3,
        MessageType::ProcessResponse => 4,
        MessageType::StateGetRequest => 5,
        MessageType::StateGetResponse => 6,
        MessageType::StateSetRequest => 7,
        MessageType::StateSetResponse => 8,
        MessageType::StateDeleteRequest => 9,
        MessageType::StateDeleteResponse => 10,
    }
}

fn message_type_of(b: u8) -> (r: Option<MessageType>)
    ensures
        r == type_of_tag(b),
{
    if b == 0 {
        Some(MessageType::RegisterRequest)
    } else if b == 1 {
        Some(MessageType::RegisterResponse)
    } else if b == 2 {
        Some(MessageType::UnregisterRequest)
    } else if b == 3 {
        Some(MessageType::ProcessRequest)
    } else if b == 4 {
        Some(MessageType::ProcessResponse)
    } else if b == 5 {
        Some(MessageType::StateGetRequest)
    } else if b == 6 {
        Some(MessageType::StateGetResponse)
    } else if b == 7 {
        Some(MessageType::StateSetRequest)
    } else if b == 8 {
        Some(MessageType::StateSetResponse)
    } else if b == 9 {
        Some(MessageType::StateDeleteRequest)
    } else if b == 10 {
        Some(MessageType::StateDeleteResponse)
    } else {
        None
    }
}

pub(crate) fn push_be32(out: &mut Vec<u8>, n: u32)
    ensures
        final(out)@ == old(out)@ + be32(n),
{
    out.push((n >> 24u32) as u8);
    out.push((n >> 16u32) as u8);
    out.push((n >> 8u32) as u8);
    out.push(n as u8);
    assert(final(out)@ =~= old(out)@ + be32(n));
}

pub(crate) fn push_all(out: &mut Vec<u8>, src: &Vec<u8>)
    ensures
        final(out)@ == old(out)@ + src@,
{
    let ghost start = out@;
    let mut i: usize = 0;
    while i < src.len()
        invariant
            i <= src.len(),
            out@ == start + src@.subrange(0, i as int),
        decreases src.len() - i,
    {
        out.push(src[i]);
        i = i + 1;
        assert(out@ =~= start + src@.subrange(0, i as int));
    }
    assert(src@.subrange(0, i as int) =~= src@);
}

pub(crate) fn get_be32(b: &Vec<u8>, i: usize) -> (r: u32)
    requires
        i + 4 <= b@.len(),
    ensures
        r == read_be32(b@, i as int),
{
    let n = b.len();
    assert(i + 3 < n);
    ((b[i] as u32) << 24u32) | ((b[i + 1] as u32) << 16u32) | ((b[i + 2] as u32) << 8u32) | (b[i
        + 3] as u32)
}

pub(crate) fn copy_range(b: &Vec<u8>, from: usize, to: usize) -> (r: Vec<u8>)
    requires
        from <= to <= b@.len(),
    ensures
        r@ == b@.subrange(from as int, to as int),
{
    let mut r: Vec<u8> = Vec::new();
    let mut i: usize = from;
    while i < to
        invariant
            from <= i <= to <= b@.len(),
            r@ == b@.subrange(from as int, i as int),
        decreases to - i,
    {
        r.push(b[i]);
        i = i + 1;
        assert(r@ =~= b@.subrange(from as int, i as int));
    }
    r
}

/// Frames an envelope.
pub fn encode(e: &Envelope) -> (r: Vec<u8>)
    requires
        encodable(e@),
    ensures
        r@ == encode_spec(e@),
{
    let mut out: Vec<u8> = Vec::new();
    out.push(message_tag(e.message_type));
    push_be32(&mut out, e.correlation_id.len() as u32);
    push_all(&mut out, &e.correlation_id);
    push_be32(&mut out, e.content.len() as u32);
    push_all(&mut out, &e.content);
    out
}

/// Reads one frame; fails on a short frame, an unknown tag or trailing bytes.
pub fn decode(b: &Vec<u8>) -> (r: Result<Envelope, DecodeError>)
    ensures
        match (r, decode_spec(b@)) {
            (Ok(e), Ok(m)) => e@ == m,
            (Err(x), Err(y)) => x == y,
            _ => false,
        },
{
    let n = b.len();
    if n < 1 {
        return Err(DecodeError::Truncated);
    }
    let t = match message_type_of(b[0]) {
        None => {
            return Err(DecodeError::UnknownMessageType);
        },
        Some(t) => t,
    };
    if n < 5 {
        return Err(DecodeError::Truncated);
    }
    let l = get_be32(b, 1) as usize;
    if n - 5 < l || n - 5 - l < 4 {
        return Err(DecodeError::Truncated);
    }
    let c = get_be32(b, 5 + l) as usize;
    let rest = n - 9 - l;
    if rest < c {
        return Err(DecodeError::Truncated);
    }
    if rest > c {
        return Err(DecodeError::TrailingBytes);
    }
    let correlation_id = copy_range(b, 5, 5 + l);
    let content = copy_range(b, 9 + l, n);
    Ok(Envelope { message_type: t, correlation_id, content })
}

/// The length of the frame at the start of `b`, once all of it has arrived.
pub open spec fn frame_len_spec(b: Seq<u8>) -> Option<int> {
    if b.len() < 5 {
        None
    } else {
        let l = read_be32(b, 1) as int;
        if b.len() < 9 + l {
            None
        } else {
            let c = read_be32(b, 5 + l) as int;
            if b.len() < 9 + l + c {
                None
            } else {
                Some(9 + l + c)
            }
        }
    }
}

/// How many bytes the first frame in `b` takes, or `None` while it is not
/// complete.
pub fn frame_len(b: &Vec<u8>) -> (r: Option<usize>)
    ensures
        match (r, frame_len_spec(b@)) {
            (Some(n), Some(m)) => n == m,
            (None, None) => true,
            _ => false,
        },
{
    let n = b.len();
    if n < 5 {
        return None;
    }
    let l = get_be32(b, 1) as usize;
    if n - 5 < l || n - 5 - l < 4 {
        return None;
    }
    let c = get_be32(b, 5 + l) as usize;
    if n - 9 - l < c {
        return None;
    }
    Some(9 + l + c)
}

} // verus!
