//! The frame codec: the bidirectional transform between a raw byte stream
//! and discrete messages.
//!
//! One frame is `[length: 4 bytes, big endian] [tag: 1 byte] [body]`, where
//! the length field counts the tag and the body.  `decode` consumes one
//! complete frame from the front of a growable buffer and leaves partial
//! trailing bytes for the next call; "need more bytes" (`Ok(None)`) is kept
//! strictly apart from "malformed data" (`Err`), which a caller must treat
//! as fatal for the connection: the stream cannot be resynchronized.  The
//! codec knows nothing of message semantics, only wire shape.

use vstd::prelude::*;

use crate::messages::Message;
use crate::messages::MessageView;

verus! {

/// Upper bound on the length field of a frame (tag byte plus body).
pub const MAX_FRAME_LEN: u32 = 1048576;

/// Wire tag of a handshake request; its body is the 8-byte identity.
pub const TAG_HANDSHAKE_REQUEST: u8 = 1;

/// Wire tag of a handshake acknowledgement; its body is empty.
pub const TAG_HANDSHAKE_RESPONSE: u8 = 2;

/// Wire tag of an application payload; its body is arbitrary.
pub const TAG_APPLICATION: u8 = 3;

/// Why a buffer could not be decoded; fatal for the connection, unlike the
/// "need more bytes" outcome.
#[derive(Debug, Clone, Copy, PartialEq, Eq, Structural)]
pub enum FrameError {
    /// The length field is zero or exceeds `MAX_FRAME_LEN`.
    BadLength,
    /// A known tag arrived with a body of the wrong shape.
    BadBody,
    /// The message's body does not fit in one frame (encoding only).
    TooLong,
}

/// The tags this protocol version gives a meaning to.
pub open spec fn known_tag(tag: u8) -> bool {
    tag == TAG_HANDSHAKE_REQUEST || tag == TAG_HANDSHAKE_RESPONSE || tag == TAG_APPLICATION
}

/// A message that the codec can frame and recover unchanged: its body fits
/// in one frame, and an unknown-tag message does not impersonate a known tag.
pub open spec fn wf_msg(v: MessageView) -> bool {
    match v {
        MessageView::HandshakeRequest { .. } => true,
        MessageView::HandshakeResponse => true,
        MessageView::Application { payload } => payload.len() + 1 <= MAX_FRAME_LEN,
        MessageView::Unknown { tag, payload } => !known_tag(tag) && payload.len() + 1
            <= MAX_FRAME_LEN,
    }
}

/// The four big-endian bytes of `n`.
pub open spec fn be32_bytes(n: u32) -> Seq<u8> {
    seq![(n >> 24) as u8, (n >> 16) as u8, (n >> 8) as u8, n as u8]
}

/// The value of the four big-endian bytes at the front of `b`.
pub open spec fn be32_val(b: Seq<u8>) -> u32
    recommends
        b.len() >= 4,
{
    ((b[0] as u32) << 24) | ((b[1] as u32) << 16) | ((b[2] as u32) << 8) | (b[3] as u32)
}

/// The eight big-endian bytes of `n`.
pub open spec fn be64_bytes(n: u64) -> Seq<u8> {
    seq![
        (n >> 56) as u8,
        (n >> 48) as u8,
        (n >> 40) as u8,
        (n >> 32) as u8,
        (n >> 24) as u8,
        (n >> 16) as u8,
        (n >> 8) as u8,
        n as u8,
    ]
}

/// The value of the eight big-endian bytes at the front of `b`.
pub open spec fn be64_val(b: Seq<u8>) -> u64
    recommends
        b.len() >= 8,
{
    ((b[0] as u64) << 56) | ((b[1] as u64) << 48) | ((b[2] as u64) << 40) | ((b[3] as u64) << 32)
        | ((b[4] as u64) << 24) | ((b[5] as u64) << 16) | ((b[6] as u64) << 8) | (b[7] as u64)
}

pub proof fn lemma_be32_round(n: u32)
    ensures
        be32_bytes(n).len() == 4,
        be32_val(be32_bytes(n)) == n,
{
    assert((((((n >> 24) as u8) as u32) << 24) | ((((n >> 16) as u8) as u32) << 16) | ((((n
        >> 8) as u8) as u32) << 8) | ((n as u8) as u32)) == n) by (bit_vector);
}

pub proof fn lemma_be64_round(n: u64)
    ensures
        be64_bytes(n).len() == 8,
        be64_val(be64_bytes(n)) == n,
{
    assert((((((n >> 56) as u8) as u64) << 56) | ((((n >> 48) as u8) as u64) << 48) | ((((n
        >> 40) as u8) as u64) << 40) | ((((n >> 32) as u8) as u64) << 32) | ((((n
        >> 24) as u8) as u64) << 24) | ((((n >> 16) as u8) as u64) << 16) | ((((n
        >> 8) as u8) as u64) << 8) | ((n as u8) as u64)) == n) by (bit_vector);
}

/// The tag byte a message is framed with.
pub open spec fn tag_of(v: MessageView) -> u8 {
    match v {
        MessageView::HandshakeRequest { .. } => TAG_HANDSHAKE_REQUEST,
        MessageView::HandshakeResponse => TAG_HANDSHAKE_RESPONSE,
        MessageView::Application { .. } => TAG_APPLICATION,
        MessageView::Unknown { tag, .. } => tag,
    }
}

/// The body bytes a message is framed with.
pub open spec fn body_of(v: MessageView) -> Seq<u8> {
    match v {
        MessageView::HandshakeRequest { steam_id } => be64_bytes(steam_id),
        MessageView::HandshakeResponse => Seq::empty(),
        MessageView::Application { payload } => payload,
        MessageView::Unknown { payload, .. } => payload,
    }
}

/// The complete wire frame of one message.
pub open spec fn frame_bytes(v: MessageView) -> Seq<u8> {
    be32_bytes((body_of(v).len() + 1) as u32) + seq![tag_of(v)] + body_of(v)
}

/// Whether a message's body fits in one frame.
pub open spec fn fits_frame(v: MessageView) -> bool {
    body_of(v).len() + 1 <= MAX_FRAME_LEN
}

/// The message a well-shaped frame with this tag and body decodes to.
pub open spec fn parse_frame(tag: u8, body: Seq<u8>) -> MessageView {
    if tag == TAG_HANDSHAKE_REQUEST {
        MessageView::HandshakeRequest { steam_id: be64_val(body) }
    } else if tag == TAG_HANDSHAKE_RESPONSE {
        MessageView::HandshakeResponse
    } else if tag == TAG_APPLICATION {
        MessageView::Application { payload: body }
    } else {
        MessageView::Unknown { tag, payload: body }
    }
}

/// What one decoding step does to a buffer.
#[verifier::ext_equal]
pub enum DecodeStep {
    /// The buffer holds only part of a frame; nothing is consumed.
    NeedMore,
    /// The length field at the front is malformed.
    BadHeader,
    /// A complete frame carries a known tag with a body of the wrong shape.
    BadBody,
    /// A complete frame decodes to `msg`, leaving `rest` in the buffer.
    Frame { msg: MessageView, rest: Seq<u8> },
}

/// The outcome of decoding the front of `b`: the mathematical contract of
/// `decode`.
pub open spec fn decode_step(b: Seq<u8>) -> DecodeStep {
    if b.len() < 4 {
        DecodeStep::NeedMore
    } else if be32_val(b) < 1 || be32_val(b) > MAX_FRAME_LEN {
        DecodeStep::BadHeader
    } else if b.len() < 4 + be32_val(b) {
        DecodeStep::NeedMore
    } else {
        let tag = b[4];
        let body = b.subrange(5, 4 + be32_val(b) as int);
        if (tag == TAG_HANDSHAKE_REQUEST && body.len() != 8) || (tag == TAG_HANDSHAKE_RESPONSE
            && body.len() != 0) {
            DecodeStep::BadBody
        } else {
            DecodeStep::Frame {
                msg: parse_frame(tag, body),
                rest: b.skip(4 + be32_val(b) as int),
            }
        }
    }
}

/// Decoding a buffer that begins with a complete frame yields exactly that
/// frame's message and consumes exactly that frame, whatever follows it.
pub proof fn lemma_decode_frame(v: MessageView, rest: Seq<u8>)
    requires
        wf_msg(v),
    ensures
        decode_step(frame_bytes(v) + rest) == (DecodeStep::Frame { msg: v, rest }),
{
    let body = body_of(v);
    let n: u32 = (body.len() + 1) as u32;
    let b = frame_bytes(v) + rest;
    lemma_be32_round(n);
    assert(b.len() == 5 + body.len() + rest.len());
    assert(b[0] == be32_bytes(n)[0]);
    assert(b[1] == be32_bytes(n)[1]);
    assert(b[2] == be32_bytes(n)[2]);
    assert(b[3] == be32_bytes(n)[3]);
    assert(be32_val(b) == n);
    assert(b[4] == tag_of(v));
    assert(b.subrange(5, 4 + n as int) =~= body);
    assert(b.skip(4 + n as int) =~= rest);
    match v {
        MessageView::HandshakeRequest { steam_id } => {
            lemma_be64_round(steam_id);
        },
        _ => {},
    }
    assert(decode_step(b) =~= (DecodeStep::Frame { msg: v, rest }));
}

/// Codec round trip: a well-formed message decodes from its own frame,
/// unchanged, with nothing left over.
pub proof fn lemma_round_trip(v: MessageView)
    requires
        wf_msg(v),
    ensures
        decode_step(frame_bytes(v)) == (DecodeStep::Frame { msg: v, rest: Seq::<u8>::empty() }),
{
    lemma_decode_frame(v, Seq::<u8>::empty());
    assert(frame_bytes(v) + Seq::<u8>::empty() =~= frame_bytes(v));
}

/// Partial-frame resilience: every strict prefix of a frame decodes to
/// "need more bytes" — never a message, never an error — so a frame fed one
/// byte at a time yields its message exactly once, on the final byte.
pub proof fn lemma_partial_frame(v: MessageView, i: int)
    requires
        wf_msg(v),
        0 <= i < frame_bytes(v).len(),
    ensures
        decode_step(frame_bytes(v).take(i)) is NeedMore,
{
    let n: u32 = (body_of(v).len() + 1) as u32;
    let b = frame_bytes(v).take(i);
    assert(frame_bytes(v).len() == 4 + n);
    if i >= 4 {
        lemma_be32_round(n);
        assert(b[0] == be32_bytes(n)[0]);
        assert(b[1] == be32_bytes(n)[1]);
        assert(b[2] == be32_bytes(n)[2]);
        assert(b[3] == be32_bytes(n)[3]);
        assert(be32_val(b) == n);
        assert(b.len() < 4 + n);
    }
}

/// The frames of a message sequence, written back to back in order.
pub open spec fn concat_frames(msgs: Seq<MessageView>) -> Seq<u8>
    decreases msgs.len(),
{
    if msgs.len() == 0 {
        Seq::empty()
    } else {
        frame_bytes(msgs[0]) + concat_frames(msgs.skip(1))
    }
}

/// Repeated decoding of `b` yields exactly `msgs`, in order, consuming all
/// of `b`.
pub open spec fn decodes_to(b: Seq<u8>, msgs: Seq<MessageView>) -> bool
    decreases msgs.len(),
{
    if msgs.len() == 0 {
        b.len() == 0
    } else {
        decode_step(b) matches DecodeStep::Frame { msg, rest } && msg == msgs[0] && decodes_to(
            rest,
            msgs.skip(1),
        )
    }
}

/// First-in, first-out delivery at the codec level: the byte stream made of
/// the frames of `msgs` in enqueue order — what the multiplex loop writes,
/// one frame per outbound message — decodes back to exactly `msgs` in that
/// order.
pub proof fn lemma_fifo_order(msgs: Seq<MessageView>)
    requires
        forall|i: int| 0 <= i < msgs.len() ==> wf_msg(#[trigger] msgs[i]),
    ensures
        decodes_to(concat_frames(msgs), msgs),
    decreases msgs.len(),
{
    if msgs.len() > 0 {
        lemma_decode_frame(msgs[0], concat_frames(msgs.skip(1)));
        assert forall|i: int| 0 <= i < msgs.skip(1).len() implies wf_msg(
            #[trigger] msgs.skip(1)[i],
        ) by {
            assert(msgs.skip(1)[i] == msgs[i + 1]);
        }
        lemma_fifo_order(msgs.skip(1));
    }
}

/// Serializes `m` and appends its frame to `out` for transmission.  Fails,
/// leaving `out` untouched, exactly when the body does not fit in one frame.
pub fn encode(m: &Message, out: &mut Vec<u8>) -> (r: Result<(), FrameError>)
    ensures
        fits_frame(m@) ==> r == Ok::<(), FrameError>(()) && final(out)@ == old(out)@
            + frame_bytes(m@),
        !fits_frame(m@) ==> r == Err::<(), FrameError>(FrameError::TooLong) && final(out)@ == old(
            out,
        )@,
{
    let body_len: usize = match m {
        Message::HandshakeRequest { .. } => 8,
        Message::HandshakeResponse => 0,
        Message::Application { payload } => payload.len(),
        Message::Unknown { payload, .. } => payload.len(),
    };
    if body_len > (MAX_FRAME_LEN - 1) as usize {
        return Err(FrameError::TooLong);
    }
    let n: u32 = body_len as u32 + 1;
    proof {
        assert(n == (body_of(m@).len() + 1) as u32);
    }
    out.push(#[verifier::truncate] ((n >> 24) as u8));
    out.push(#[verifier::truncate] ((n >> 16) as u8));
    out.push(#[verifier::truncate] ((n >> 8) as u8));
    out.push(#[verifier::truncate] (n as u8));
    match m {
        Message::HandshakeRequest { steam_id } => {
            let sid: u64 = *steam_id;
            out.push(TAG_HANDSHAKE_REQUEST);
            out.push(#[verifier::truncate] ((sid >> 56) as u8));
            out.push(#[verifier::truncate] ((sid >> 48) as u8));
            out.push(#[verifier::truncate] ((sid >> 40) as u8));
            out.push(#[verifier::truncate] ((sid >> 32) as u8));
            out.push(#[verifier::truncate] ((sid >> 24) as u8));
            out.push(#[verifier::truncate] ((sid >> 16) as u8));
            out.push(#[verifier::truncate] ((sid >> 8) as u8));
            out.push(#[verifier::truncate] (sid as u8));
        },
        Message::HandshakeResponse => {
            out.push(TAG_HANDSHAKE_RESPONSE);
        },
        Message::Application { payload } => {
            out.push(TAG_APPLICATION);
            push_bytes(out, payload);
        },
        Message::Unknown { tag, payload } => {
            out.push(*tag);
            push_bytes(out, payload);
        },
    }
    proof {
        assert(out@ =~= old(out)@ + frame_bytes(m@));
    }
    Ok(())
}

/// Appends every byte of `src` to `out`.
fn push_bytes(out: &mut Vec<u8>, src: &Vec<u8>)
    ensures
        final(out)@ == old(out)@ + src@,
{
    let mut i: usize = 0;
    while i < src.len()
        invariant
            i <= src.len(),
            out@ == old(out)@ + src@.take(i as int),
        decreases src.len() - i,
    {
        out.push(src[i]);
        i = i + 1;
        proof {
            assert(out@ =~= old(out)@ + src@.take(i as int));
        }
    }
    proof {
        assert(out@ =~= old(out)@ + src@);
    }
}

/// Consumes the next complete frame at the front of `buf`, if one is there.
///
/// `Ok(None)` means the buffer holds only a partial frame and nothing was
/// consumed; `Err` means the bytes at the front are malformed and the
/// connection cannot be resynchronized; `Ok(Some(m))` hands out the next
/// message and removes exactly its frame's bytes from the front.
pub fn decode(buf: &mut Vec<u8>) -> (r: Result<Option<Message>, FrameError>)
    ensures
        decode_step(old(buf)@) is NeedMore ==> r == Ok::<Option<Message>, FrameError>(None)
            && final(buf)@ == old(buf)@,
        decode_step(old(buf)@) is BadHeader ==> r == Err::<Option<Message>, FrameError>(
            FrameError::BadLength,
        ) && final(buf)@ == old(buf)@,
        decode_step(old(buf)@) is BadBody ==> r == Err::<Option<Message>, FrameError>(
            FrameError::BadBody,
        ) && final(buf)@ == old(buf)@,
        decode_step(old(buf)@) matches DecodeStep::Frame { msg, rest } ==> (r matches Ok(m2)
            && m2 matches Some(m) && m@ == msg && final(buf)@ == rest),
{
    if buf.len() < 4 {
        return Ok(None);
    }
    let n: u32 = ((buf[0] as u32) << 24) | ((buf[1] as u32) << 16) | ((buf[2] as u32) << 8) | (
    buf[3] as u32);
    proof {
        assert(n == be32_val(buf@));
    }
    if n < 1 || n > MAX_FRAME_LEN {
        return Err(FrameError::BadLength);
    }
    let total: usize = 4 + n as usize;
    if buf.len() < total {
        return Ok(None);
    }
    let tag: u8 = buf[4];
    let mut body: Vec<u8> = Vec::new();
    let mut i: usize = 5;
    while i < total
        invariant
            5 <= i <= total,
            total <= buf.len(),
            total == 4 + be32_val(buf@),
            body@ == buf@.subrange(5, i as int),
        decreases total - i,
    {
        body.push(buf[i]);
        i = i + 1;
        proof {
            assert(body@ =~= buf@.subrange(5, i as int));
        }
    }
    let msg: Message = if tag == TAG_HANDSHAKE_REQUEST {
        if body.len() != 8 {
            return Err(FrameError::BadBody);
        }
        let sid: u64 = ((body[0] as u64) << 56) | ((body[1] as u64) << 48) | ((body[2] as u64)
            << 40) | ((body[3] as u64) << 32) | ((body[4] as u64) << 24) | ((body[5] as u64) << 16)
            | ((body[6] as u64) << 8) | (body[7] as u64);
        Message::HandshakeRequest { steam_id: sid }
    } else if tag == TAG_HANDSHAKE_RESPONSE {
        if body.len() != 0 {
            return Err(FrameError::BadBody);
        }
        Message::HandshakeResponse
    } else if tag == TAG_APPLICATION {
        Message::Application { payload: body }
    } else {
        Message::Unknown { tag, payload: body }
    };
    let mut rest: Vec<u8> = Vec::new();
    let mut j: usize = total;
    while j < buf.len()
        invariant
            total <= j <= buf.len(),
            total == 4 + be32_val(buf@),
            rest@ == buf@.subrange(total as int, j as int),
        decreases buf.len() - j,
    {
        rest.push(buf[j]);
        j = j + 1;
        proof {
            assert(rest@ =~= buf@.subrange(total as int, j as int));
        }
    }
    proof {
        assert(rest@ =~= buf@.skip(4 + be32_val(buf@) as int));
    }
    *buf = rest;
    Ok(Some(msg))
}

} // verus!
