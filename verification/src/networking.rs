//! Message types and the wire format of a frame.

use vstd::prelude::*;

verus! {

/// The kinds of message that travel on a connection.
///
/// Each kind has a fixed index on the wire, given by its position in
/// [`messages_lookup`]. The indices are the agreement between client and
/// server: a kind keeps its index forever.
#[derive(Clone, Copy, Debug, PartialEq, Eq, Structural)]
pub enum MessageType {
    HelloRequest,
    HelloResponse,
    ServoRotateRequest,
}

/// The kind that wire index `id` stands for, if any.
pub open spec fn spec_msg_type_from_id(id: u32) -> Option<MessageType> {
    if id == 0 {
        Some(MessageType::HelloRequest)
    } else if id == 1 {
        Some(MessageType::HelloResponse)
    } else if id == 2 {
        Some(MessageType::ServoRotateRequest)
    } else {
        None
    }
}

/// The wire index of a kind.
pub open spec fn spec_msg_id_from_type(message_type: MessageType) -> u32 {
    match message_type {
        MessageType::HelloRequest => 0,
        MessageType::HelloResponse => 1,
        MessageType::ServoRotateRequest => 2,
    }
}

/// The ordered table behind both lookups: the kind at position `i` has wire
/// index `i`.
pub fn messages_lookup() -> (table: [MessageType; 3])
    ensures
        forall|i: int|
            0 <= i < 3 ==> spec_msg_type_from_id(i as u32) == Some(#[trigger] table[i]),
{
    [MessageType::HelloRequest, MessageType::HelloResponse, MessageType::ServoRotateRequest]
}

/// Looks a wire index up. `None` means that the index names no kind.
pub fn msg_type_from_id(message_type_id: u32) -> (found: Option<MessageType>)
    ensures
        found == spec_msg_type_from_id(message_type_id),
{
    let table = messages_lookup();
    if message_type_id < 3 {
        Some(table[message_type_id as usize])
    } else {
        None
    }
}

/// Finds the wire index of a kind by searching the table. Every kind has one.
pub fn msg_id_from_type(message_type: MessageType) -> (found: Option<u32>)
    ensures
        found == Some(spec_msg_id_from_type(message_type)),
{
    let table = messages_lookup();
    let mut ind: u32 = 0;
    while ind < 3
        invariant
            ind <= 3,
            forall|i: int|
                0 <= i < 3 ==> spec_msg_type_from_id(i as u32) == Some(#[trigger] table[i]),
            forall|i: int| 0 <= i < ind ==> table[i] != message_type,
        decreases 3 - ind,
    {
        if table[ind as usize] == message_type {
            return Some(ind);
        }
        ind += 1;
    }
    proof {
        let k = spec_msg_id_from_type(message_type) as int;
        assert(table[k] == message_type);
    }
    None
}

/// Index and kind determine each other.
pub proof fn lemma_msg_index_bijection(message_type: MessageType, id: u32)
    ensures
        spec_msg_type_from_id(spec_msg_id_from_type(message_type)) == Some(message_type),
        spec_msg_type_from_id(id) == Some(message_type) <==> id == spec_msg_id_from_type(
            message_type,
        ),
{
}

/// The four bytes of `value`, least significant first.
pub open spec fn spec_u32_le(value: u32) -> Seq<u8> {
    seq![
        (value % 256) as u8,
        ((value / 256) % 256) as u8,
        ((value / 65536) % 256) as u8,
        (value / 16777216) as u8,
    ]
}

/// The number whose little-endian bytes are the first four of `bytes`.
pub open spec fn spec_u32_from_le(bytes: Seq<u8>) -> u32
    recommends
        bytes.len() >= 4,
{
    (bytes[0] + 256 * bytes[1] + 65536 * bytes[2] + 16777216 * bytes[3]) as u32
}

/// A number is written as four bytes, and reading them back gives the number
/// again.
pub proof fn lemma_u32_le_read_back(value: u32)
    ensures
        spec_u32_le(value).len() == 4,
        spec_u32_from_le(spec_u32_le(value)) == value,
{
}

/// Four bytes are the bytes of the number that they are read as.
pub proof fn lemma_u32_le_written_back(bytes: Seq<u8>)
    requires
        bytes.len() == 4,
    ensures
        spec_u32_le(spec_u32_from_le(bytes)) == bytes,
{
    let value = spec_u32_from_le(bytes) as int;
    let upper = bytes[1] + 256 * bytes[2] + 65536 * bytes[3];
    let top = bytes[2] + 256 * bytes[3];
    assert(value == bytes[0] + 256 * upper);
    assert(value % 256 == bytes[0] && value / 256 == upper);
    assert(upper == bytes[1] + 256 * top);
    assert(upper % 256 == bytes[1] && upper / 256 == top);
    assert(value / 65536 == top);
    assert(top % 256 == bytes[2] && top / 256 == bytes[3]);
    assert(value / 16777216 == bytes[3]);
    assert(spec_u32_le(spec_u32_from_le(bytes)) =~= bytes);
}

/// Appends the little-endian bytes of `value` to `out`.
pub fn write_u32_le(out: &mut Vec<u8>, value: u32)
    ensures
        final(out)@ == old(out)@ + spec_u32_le(value),
{
    out.push((value % 256) as u8);
    out.push(((value / 256) % 256) as u8);
    out.push(((value / 65536) % 256) as u8);
    out.push((value / 16777216) as u8);
    assert(out@ =~= old(out)@ + spec_u32_le(value));
}

/// Reads a little-endian number from exactly four bytes.
pub fn read_u32_le(bytes: &[u8]) -> (value: u32)
    requires
        bytes@.len() == 4,
    ensures
        value == spec_u32_from_le(bytes@),
{
    let b0: u32 = bytes[0] as u32;
    let b1: u32 = bytes[1] as u32;
    let b2: u32 = bytes[2] as u32;
    let b3: u32 = bytes[3] as u32;
    b0 + 256 * b1 + 65536 * b2 + 16777216 * b3
}

/// The bytes of one frame: the kind's index, the payload's length, both as
/// four little-endian bytes, then the payload.
pub open spec fn spec_encode(message_type: MessageType, payload: Seq<u8>) -> Seq<u8>
    recommends
        payload.len() <= u32::MAX,
{
    spec_u32_le(spec_msg_id_from_type(message_type)) + spec_u32_le(payload.len() as u32) + payload
}

/// Encodes one frame. The length field has four bytes, so the payload must
/// fit in them.
pub fn encode(message_type: MessageType, payload: &[u8]) -> (frame: Vec<u8>)
    requires
        payload@.len() <= u32::MAX,
    ensures
        frame@ == spec_encode(message_type, payload@),
{
    let mut frame: Vec<u8> = Vec::new();
    write_u32_le(&mut frame, msg_id_from_type(message_type).unwrap());
    write_u32_le(&mut frame, payload.len() as u32);
    frame.extend_from_slice(payload);
    assert(frame@ =~= spec_encode(message_type, payload@));
    frame
}

/// One frame as contracts see it: its kind and its payload.
pub struct Frame {
    pub msg_type: MessageType,
    pub payload: Seq<u8>,
}

/// What a stretch of a byte stream decodes to.
pub struct Decoded {
    /// The complete frames, in the order of the stream.
    pub frames: Seq<Frame>,
    /// The bytes of the frame that is not complete yet.
    pub rest: Seq<u8>,
    /// Whether a kind index that names no kind was met. Decoding ends there.
    pub halted: bool,
}

/// Nothing decoded yet: all of `bytes` waits for more.
pub open spec fn spec_incomplete(bytes: Seq<u8>) -> Decoded {
    Decoded { frames: Seq::empty(), rest: bytes, halted: false }
}

/// `first` followed by `next`, where `next` is what came after `first` ended.
/// Nothing follows a halt.
pub open spec fn spec_then(first: Decoded, next: Decoded) -> Decoded {
    if first.halted {
        first
    } else {
        Decoded { frames: first.frames + next.frames, rest: next.rest, halted: next.halted }
    }
}

/// Decodes a byte stream from its start.
///
/// A kind index is judged as soon as its four bytes are there, before the
/// length arrives. A frame is complete as soon as its last byte is there; one
/// with an empty payload is complete with its header.
pub open spec fn decode_stream(bytes: Seq<u8>) -> Decoded
    decreases bytes.len(),
{
    if bytes.len() < 4 {
        spec_incomplete(bytes)
    } else {
        match spec_msg_type_from_id(spec_u32_from_le(bytes.subrange(0, 4))) {
            None => Decoded { frames: Seq::empty(), rest: Seq::empty(), halted: true },
            Some(msg_type) => {
                if bytes.len() < 8 {
                    spec_incomplete(bytes)
                } else {
                    let length = spec_u32_from_le(bytes.subrange(4, 8)) as int;
                    if bytes.len() < 8 + length {
                        spec_incomplete(bytes)
                    } else {
                        let frame = Frame { msg_type, payload: bytes.subrange(8, 8 + length) };
                        let tail = decode_stream(bytes.subrange(8 + length, bytes.len() as int));
                        Decoded {
                            frames: seq![frame] + tail.frames,
                            rest: tail.rest,
                            halted: tail.halted,
                        }
                    }
                }
            },
        }
    }
}

/// An encoded frame at the head of a stream decodes to that frame, and
/// decoding goes on behind it.
pub proof fn lemma_decode_encoded_then(message_type: MessageType, payload: Seq<u8>, more: Seq<u8>)
    requires
        payload.len() <= u32::MAX,
    ensures
        decode_stream(spec_encode(message_type, payload) + more) == spec_then(
            Decoded {
                frames: seq![Frame { msg_type: message_type, payload }],
                rest: Seq::empty(),
                halted: false,
            },
            decode_stream(more),
        ),
{
    let id = spec_msg_id_from_type(message_type);
    let length = payload.len() as u32;
    let bytes = spec_encode(message_type, payload) + more;
    lemma_u32_le_read_back(id);
    lemma_u32_le_read_back(length);
    assert(bytes.subrange(0, 4) =~= spec_u32_le(id));
    assert(bytes.subrange(4, 8) =~= spec_u32_le(length));
    assert(bytes.subrange(8, 8 + length) =~= payload);
    assert(bytes.subrange(8 + length, bytes.len() as int) =~= more);
    let tail = decode_stream(more);
    assert(seq![Frame { msg_type: message_type, payload }] + tail.frames =~= decode_stream(
        bytes,
    ).frames);
}

/// Decoding undoes encoding: one encoded frame decodes to its kind and its
/// payload, with nothing left over.
pub proof fn lemma_encode_decode_roundtrip(message_type: MessageType, payload: Seq<u8>)
    requires
        payload.len() <= u32::MAX,
    ensures
        decode_stream(spec_encode(message_type, payload)) == (Decoded {
            frames: seq![Frame { msg_type: message_type, payload }],
            rest: Seq::empty(),
            halted: false,
        }),
{
    lemma_decode_encoded_then(message_type, payload, Seq::empty());
    assert(spec_encode(message_type, payload) + Seq::<u8>::empty() =~= spec_encode(
        message_type,
        payload,
    ));
    assert(seq![Frame { msg_type: message_type, payload }] + Seq::<Frame>::empty() =~= seq![
        Frame { msg_type: message_type, payload },
    ]);
}

/// What is left over after decoding holds no complete frame and no bad index:
/// decoding it again yields nothing new.
pub proof fn lemma_decode_rest_is_incomplete(bytes: Seq<u8>)
    ensures
        decode_stream(decode_stream(bytes).rest) == spec_incomplete(decode_stream(bytes).rest),
    decreases bytes.len(),
{
    if bytes.len() >= 4 {
        match spec_msg_type_from_id(spec_u32_from_le(bytes.subrange(0, 4))) {
            None => {},
            Some(msg_type) => {
                if bytes.len() >= 8 {
                    let length = spec_u32_from_le(bytes.subrange(4, 8)) as int;
                    if bytes.len() >= 8 + length {
                        lemma_decode_rest_is_incomplete(
                            bytes.subrange(8 + length, bytes.len() as int),
                        );
                    }
                }
            },
        }
    }
}

/// Decoding does not depend on where a stream is cut: decoding `a` and then
/// going on with what was left over and `b` gives what decoding `a + b` in
/// one piece gives.
pub proof fn lemma_decode_append(a: Seq<u8>, b: Seq<u8>)
    ensures
        decode_stream(a + b) == spec_then(
            decode_stream(a),
            decode_stream(decode_stream(a).rest + b),
        ),
    decreases a.len(),
{
    let whole = a + b;
    if a.len() >= 4 {
        assert(whole.subrange(0, 4) =~= a.subrange(0, 4));
        match spec_msg_type_from_id(spec_u32_from_le(a.subrange(0, 4))) {
            None => {},
            Some(msg_type) => {
                if a.len() >= 8 {
                    assert(whole.subrange(4, 8) =~= a.subrange(4, 8));
                    let length = spec_u32_from_le(a.subrange(4, 8)) as int;
                    if a.len() >= 8 + length {
                        let a_tail = a.subrange(8 + length, a.len() as int);
                        assert(whole.subrange(8, 8 + length) =~= a.subrange(8, 8 + length));
                        assert(whole.subrange(8 + length, whole.len() as int) =~= a_tail + b);
                        lemma_decode_append(a_tail, b);
                        let frame = Frame { msg_type, payload: a.subrange(8, 8 + length) };
                        let da = decode_stream(a_tail);
                        let next = decode_stream(da.rest + b);
                        assert(seq![frame] + (da.frames + next.frames) =~= (seq![frame]
                            + da.frames) + next.frames);
                    }
                }
            },
        }
    }
}

} // verus!
