//! Message framing: every message goes to the sink as a continuation marker,
//! a little-endian length of the zero-padded header, the header padded to an
//! eight-byte boundary, and (when present) the body padded the same way. The
//! end of the stream is a single four-byte zero marker.

use vstd::prelude::*;

verus! {

/// The four little-endian bytes of the low 32 bits of `n`.
pub open spec fn le32_bytes(n: nat) -> Seq<u8> {
    seq![
        (n % 256) as u8,
        ((n / 256) % 256) as u8,
        ((n / 65536) % 256) as u8,
        ((n / 16777216) % 256) as u8,
    ]
}

/// The eight little-endian bytes of the low 64 bits of `n`.
pub open spec fn le64_bytes(n: nat) -> Seq<u8> {
    seq![
        (n % 256) as u8,
        ((n / 256) % 256) as u8,
        ((n / 65536) % 256) as u8,
        ((n / 16777216) % 256) as u8,
        ((n / 4294967296) % 256) as u8,
        ((n / 1099511627776) % 256) as u8,
        ((n / 281474976710656) % 256) as u8,
        ((n / 72057594037927936) % 256) as u8,
    ]
}

/// `n` zero bytes.
pub open spec fn zero_bytes(n: nat) -> Seq<u8> {
    Seq::new(n, |i: int| 0u8)
}

/// How many zero bytes bring a section of `n` bytes to an eight-byte boundary.
pub open spec fn pad_len(n: nat) -> nat {
    (((8 - n % 8) % 8) as nat)
}

/// `n` rounded up to a multiple of eight.
pub open spec fn padded_len(n: nat) -> nat {
    n + pad_len(n)
}

/// The marker that precedes every message on the wire.
pub open spec fn continuation_bytes() -> Seq<u8> {
    le32_bytes(0xFFFF_FFFF)
}

/// The terminal marker: four zero bytes, and nothing after them.
pub open spec fn end_marker_bytes() -> Seq<u8> {
    le32_bytes(0)
}

/// A logical message: header bytes and (possibly empty) body bytes.
pub ghost struct WireMessage {
    pub header: Seq<u8>,
    pub body: Seq<u8>,
}

/// The wire bytes of one message: continuation marker, little-endian padded
/// header length, padded header, then the padded body unless it is empty.
pub open spec fn frame_bytes(header: Seq<u8>, body: Seq<u8>) -> Seq<u8> {
    continuation_bytes() + le32_bytes(padded_len(header.len())) + header + zero_bytes(
        pad_len(header.len()),
    ) + if body.len() == 0 {
        Seq::<u8>::empty()
    } else {
        body + zero_bytes(pad_len(body.len()))
    }
}

/// Bytes of the metadata section of a framed message: the two four-byte
/// prefixes and the padded header.
pub open spec fn frame_metadata_len(header: Seq<u8>) -> nat {
    4 + 4 + padded_len(header.len())
}

/// Bytes of the body section of a framed message; an empty body is omitted
/// entirely.
pub open spec fn frame_body_len(body: Seq<u8>) -> nat {
    if body.len() == 0 {
        0
    } else {
        padded_len(body.len())
    }
}

/// Total wire length of one framed message.
pub open spec fn frame_len(header: Seq<u8>, body: Seq<u8>) -> nat {
    frame_metadata_len(header) + frame_body_len(body)
}

/// The wire bytes of a sequence of messages, framed one after the other.
pub open spec fn stream_bytes(msgs: Seq<WireMessage>) -> Seq<u8>
    decreases msgs.len(),
{
    if msgs.len() == 0 {
        Seq::<u8>::empty()
    } else {
        stream_bytes(msgs.drop_last()) + frame_bytes(msgs.last().header, msgs.last().body)
    }
}

/// The sum, over a sequence of messages, of each message's framed length.
pub open spec fn framed_total_len(msgs: Seq<WireMessage>) -> nat
    decreases msgs.len(),
{
    if msgs.len() == 0 {
        0
    } else {
        framed_total_len(msgs.drop_last()) + frame_len(msgs.last().header, msgs.last().body)
    }
}

pub proof fn lemma_frame_bytes_len(header: Seq<u8>, body: Seq<u8>)
    ensures
        frame_bytes(header, body).len() == frame_len(header, body),
{
}

pub proof fn lemma_stream_bytes_push(msgs: Seq<WireMessage>, m: WireMessage)
    ensures
        stream_bytes(msgs.push(m)) == stream_bytes(msgs) + frame_bytes(m.header, m.body),
        framed_total_len(msgs.push(m)) == framed_total_len(msgs) + frame_len(m.header, m.body),
{
    assert(msgs.push(m).drop_last() =~= msgs);
    assert(msgs.push(m).last() == m);
}

pub proof fn lemma_stream_bytes_concat(a: Seq<WireMessage>, b: Seq<WireMessage>)
    ensures
        stream_bytes(a + b) == stream_bytes(a) + stream_bytes(b),
    decreases b.len(),
{
    if b.len() == 0 {
        assert(a + b =~= a);
        assert(stream_bytes(a) + stream_bytes(b) =~= stream_bytes(a));
    } else {
        lemma_stream_bytes_concat(a, b.drop_last());
        assert((a + b).drop_last() =~= a + b.drop_last());
        assert((a + b).last() == b.last());
        assert(stream_bytes(a) + (stream_bytes(b.drop_last()) + frame_bytes(
            b.last().header,
            b.last().body,
        )) =~= (stream_bytes(a) + stream_bytes(b.drop_last())) + frame_bytes(
            b.last().header,
            b.last().body,
        ));
    }
}

pub proof fn lemma_stream_bytes_len(msgs: Seq<WireMessage>)
    ensures
        stream_bytes(msgs).len() == framed_total_len(msgs),
    decreases msgs.len(),
{
    if msgs.len() > 0 {
        lemma_stream_bytes_len(msgs.drop_last());
        lemma_frame_bytes_len(msgs.last().header, msgs.last().body);
    }
}

/// One encoded message, ready to be framed: header bytes and body bytes.
pub struct EncodedData {
    pub ipc_message: Vec<u8>,
    pub arrow_data: Vec<u8>,
}

impl View for EncodedData {
    type V = WireMessage;

    open spec fn view(&self) -> WireMessage {
        WireMessage { header: self.ipc_message@, body: self.arrow_data@ }
    }
}

/// Appends the four little-endian bytes of `x`.
pub fn push_le32(out: &mut Vec<u8>, x: u32)
    ensures
        final(out)@ == old(out)@ + le32_bytes(x as nat),
{
    out.push((x % 256) as u8);
    out.push(((x / 256) % 256) as u8);
    out.push(((x / 65536) % 256) as u8);
    out.push(((x / 16777216) % 256) as u8);
    proof {
        assert(out@ =~= old(out)@ + le32_bytes(x as nat));
    }
}

/// Appends the eight little-endian bytes of `x`.
pub fn push_le64(out: &mut Vec<u8>, x: u64)
    ensures
        final(out)@ == old(out)@ + le64_bytes(x as nat),
{
    out.push((x % 256) as u8);
    out.push(((x / 256) % 256) as u8);
    out.push(((x / 65536) % 256) as u8);
    out.push(((x / 16777216) % 256) as u8);
    out.push(((x / 4294967296) % 256) as u8);
    out.push(((x / 1099511627776) % 256) as u8);
    out.push(((x / 281474976710656) % 256) as u8);
    out.push(((x / 72057594037927936) % 256) as u8);
    proof {
        assert(out@ =~= old(out)@ + le64_bytes(x as nat));
    }
}

/// Appends `n` zero bytes.
pub fn push_zero_bytes(out: &mut Vec<u8>, n: usize)
    ensures
        final(out)@ == old(out)@ + zero_bytes(n as nat),
{
    let mut i: usize = 0;
    while i < n
        invariant
            i <= n,
            out@ == old(out)@ + zero_bytes(i as nat),
        decreases n - i,
    {
        out.push(0u8);
        i = i + 1;
        proof {
            assert(zero_bytes(i as nat) =~= zero_bytes((i - 1) as nat).push(0u8));
            assert(out@ =~= old(out)@ + zero_bytes(i as nat));
        }
    }
}

/// Appends a copy of `src`.
pub fn push_bytes(out: &mut Vec<u8>, src: &Vec<u8>)
    ensures
        final(out)@ == old(out)@ + src@,
{
    let mut i: usize = 0;
    while i < src.len()
        invariant
            i <= src.len(),
            out@ == old(out)@ + src@.take(i as int),
        decreases src.len() - i,
    {
        out.push(src[i]);
        i = i + 1;
        proof {
            assert(src@.take(i as int) =~= src@.take((i - 1) as int).push(src@[i - 1]));
            assert(out@ =~= old(out)@ + src@.take(i as int));
        }
    }
    proof {
        assert(src@.take(src@.len() as int) =~= src@);
    }
}

/// How many zero bytes bring a section of `len` bytes to an eight-byte
/// boundary.
pub fn pad_count(len: usize) -> (r: usize)
    ensures
        r as nat == pad_len(len as nat),
        r < 8,
{
    let rem: usize = len % 8;
    if rem == 0 {
        0
    } else {
        8 - rem
    }
}

/// Frames one message into the sink and returns how many metadata bytes and
/// how many body bytes were appended.
pub fn write_message(sink: &mut Vec<u8>, message: &EncodedData) -> (lens: (usize, usize))
    requires
        message.ipc_message@.len() <= 0xFFFF_FF00,
    ensures
        final(sink)@ == old(sink)@ + frame_bytes(message@.header, message@.body),
        lens.0 == frame_metadata_len(message@.header),
        lens.1 == frame_body_len(message@.body),
{
    let header_len: usize = message.ipc_message.len();
    let header_pad: usize = pad_count(header_len);
    let padded_header: usize = header_len + header_pad;
    push_le32(sink, 0xFFFF_FFFFu32);
    push_le32(sink, padded_header as u32);
    push_bytes(sink, &message.ipc_message);
    push_zero_bytes(sink, header_pad);
    let metadata_len: usize = 8 + padded_header;
    let body_len: usize;
    if message.arrow_data.len() > 0 {
        let body_start: usize = sink.len();
        push_bytes(sink, &message.arrow_data);
        let body_pad: usize = pad_count(message.arrow_data.len());
        push_zero_bytes(sink, body_pad);
        body_len = sink.len() - body_start;
    } else {
        body_len = 0;
    }
    proof {
        assert(padded_header as nat == padded_len(message@.header.len()));
        assert(sink@ =~= old(sink)@ + frame_bytes(message@.header, message@.body));
    }
    (metadata_len, body_len)
}

/// Frames a list of messages into the sink, in order, and returns how many
/// bytes were appended in all.
pub fn write_messages(sink: &mut Vec<u8>, messages: &Vec<EncodedData>) -> (n: usize)
    requires
        forall|k: int|
            0 <= k < messages@.len() ==> (#[trigger] messages@[k]).ipc_message@.len()
                <= 0xFFFF_FF00,
    ensures
        final(sink)@ == old(sink)@ + stream_bytes(messages@.map_values(|e: EncodedData| e@)),
        n as nat == stream_bytes(messages@.map_values(|e: EncodedData| e@)).len(),
{
    let ghost all = messages@.map_values(|e: EncodedData| e@);
    let mut n: usize = 0;
    let mut i: usize = 0;
    proof {
        assert(all.take(0) =~= Seq::<WireMessage>::empty());
        assert(old(sink)@ + stream_bytes(all.take(0)) =~= old(sink)@);
    }
    while i < messages.len()
        invariant
            i <= messages.len(),
            all == messages@.map_values(|e: EncodedData| e@),
            all.len() == messages@.len(),
            forall|k: int|
                0 <= k < messages@.len() ==> (#[trigger] messages@[k]).ipc_message@.len()
                    <= 0xFFFF_FF00,
            sink@ == old(sink)@ + stream_bytes(all.take(i as int)),
            n as nat == stream_bytes(all.take(i as int)).len(),
        decreases messages.len() - i,
    {
        let (metadata_len, body_len) = write_message(sink, &messages[i]);
        let total = sink.len();
        proof {
            assert(all.take(i + 1).drop_last() =~= all.take(i as int));
            assert(all.take(i + 1).last() == all[i as int]);
            assert(all[i as int] == messages@[i as int]@);
            lemma_frame_bytes_len(messages@[i as int]@.header, messages@[i as int]@.body);
            assert(sink@ =~= old(sink)@ + stream_bytes(all.take(i + 1)));
            assert(n + metadata_len + body_len <= total);
        }
        n = n + metadata_len + body_len;
        i = i + 1;
    }
    proof {
        assert(all.take(all.len() as int) =~= all);
    }
    n
}

/// Writes the terminal marker: four zero bytes.
pub fn write_end_marker(sink: &mut Vec<u8>)
    ensures
        final(sink)@ == old(sink)@ + end_marker_bytes(),
{
    push_le32(sink, 0u32);
}

} // verus!
