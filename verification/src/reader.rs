//! The per-connection reader: a state machine that turns the bytes of one
//! connection, in whatever pieces they arrive, into events.
//!
//! The caller owns the socket. It asks [`ConnectionReader::wanted`] how many
//! bytes the current field still needs, reads at most that many, and hands
//! what it got to [`ConnectionReader::on_read`]. A read of no bytes means that
//! the peer has closed.

use crate::networking::{
    decode_stream, lemma_decode_append, lemma_decode_encoded_then, lemma_decode_rest_is_incomplete,
    lemma_encode_decode_roundtrip, lemma_msg_index_bijection, lemma_u32_le_read_back,
    lemma_u32_le_written_back, msg_type_from_id, read_u32_le, spec_encode, spec_incomplete,
    spec_msg_id_from_type, spec_msg_type_from_id, spec_then, spec_u32_from_le, spec_u32_le,
    Decoded, Frame, MessageType,
};
use vstd::prelude::*;
use vstd::slice::slice_subrange;

verus! {

/// A complete frame together with the connection that it came from.
#[derive(Clone, Debug, PartialEq, Eq)]
pub struct ReceivedMessage {
    pub sender_id: u32,
    pub msg_type: MessageType,
    pub payload: Vec<u8>,
}

/// A [`ReceivedMessage`] as contracts see it.
pub struct ReceivedMessageView {
    pub sender_id: u32,
    pub msg_type: MessageType,
    pub payload: Seq<u8>,
}

impl View for ReceivedMessage {
    type V = ReceivedMessageView;

    open spec fn view(&self) -> ReceivedMessageView {
        ReceivedMessageView {
            sender_id: self.sender_id,
            msg_type: self.msg_type,
            payload: self.payload@,
        }
    }
}

/// What a reader reports to the session coordinator. Each event names the
/// connection that it is about.
#[derive(Clone, Debug, PartialEq, Eq)]
pub enum Event {
    /// The reader of this connection has started.
    Connected(u32),
    /// The peer has closed this connection, or the transport has failed.
    Disconnected(u32),
    /// A complete frame has arrived.
    MessageReceived(ReceivedMessage),
}

/// An [`Event`] as contracts see it.
pub enum EventView {
    Connected(u32),
    Disconnected(u32),
    MessageReceived(ReceivedMessageView),
}

impl View for Event {
    type V = EventView;

    open spec fn view(&self) -> EventView {
        match self {
            Event::Connected(id) => EventView::Connected(*id),
            Event::Disconnected(id) => EventView::Disconnected(*id),
            Event::MessageReceived(message) => EventView::MessageReceived(message@),
        }
    }
}

/// The views of a run of events, in order.
pub open spec fn spec_events_view(events: Seq<Event>) -> Seq<EventView> {
    Seq::new(events.len(), |i: int| events[i]@)
}

/// The events that a run of frames from connection `client_id` gives rise to.
pub open spec fn spec_frame_events(client_id: u32, frames: Seq<Frame>) -> Seq<EventView> {
    Seq::new(
        frames.len(),
        |i: int|
            EventView::MessageReceived(
                ReceivedMessageView {
                    sender_id: client_id,
                    msg_type: frames[i].msg_type,
                    payload: frames[i].payload,
                },
            ),
    )
}

/// Where a reader stands.
#[derive(Clone, Copy, Debug, PartialEq, Eq, Structural)]
pub enum ReadState {
    /// Reading the four bytes of the kind index.
    MsgType,
    /// Reading the four bytes of the payload length.
    Length,
    /// Reading the payload.
    Payload,
    /// Ended: the peer closed or the transport failed.
    Disconnected,
    /// Ended: the peer sent a kind index that names no kind.
    Rejected,
}

/// Whether a reader goes on or why it ended.
pub enum ReaderStatus {
    Reading,
    Disconnected,
    Rejected,
}

/// A reader as contracts see it: the bytes of the frame that is not complete
/// yet, and whether the reader still reads.
pub struct ReaderModel {
    pub client_id: u32,
    pub pending: Seq<u8>,
    pub status: ReaderStatus,
}

impl ReaderModel {
    /// A reader that has seen nothing yet.
    pub open spec fn initial(client_id: u32) -> ReaderModel {
        ReaderModel { client_id, pending: Seq::empty(), status: ReaderStatus::Reading }
    }

    /// Whether the reader goes on reading.
    pub open spec fn is_reading(self) -> bool {
        self.status is Reading
    }

    /// The invariant of a reader: what is pending holds no complete frame and
    /// no kind index that names no kind.
    pub open spec fn wf(self) -> bool {
        decode_stream(self.pending) == spec_incomplete(self.pending)
    }

    /// The number of bytes that the field being read still needs: what is
    /// missing of the kind index, then of the length, then of the payload.
    /// A reader that has ended wants nothing.
    pub open spec fn wanted(self) -> int {
        if !self.is_reading() {
            0
        } else if self.pending.len() < 4 {
            4 - self.pending.len()
        } else if self.pending.len() < 8 {
            8 - self.pending.len()
        } else {
            8 + spec_u32_from_le(self.pending.subrange(4, 8)) - self.pending.len()
        }
    }

    /// The peer closed, or the transport failed: a reader that still reads
    /// reports it once and ends. One that has ended stays as it is.
    pub open spec fn disconnect(self) -> (ReaderModel, Seq<EventView>) {
        if self.is_reading() {
            (
                ReaderModel {
                    client_id: self.client_id,
                    pending: Seq::empty(),
                    status: ReaderStatus::Disconnected,
                },
                seq![EventView::Disconnected(self.client_id)],
            )
        } else {
            (self, Seq::empty())
        }
    }

    /// The result of one read that brought `data`.
    ///
    /// No bytes mean that the peer has closed. Otherwise the bytes are decoded
    /// behind what was pending: every frame that they complete is reported,
    /// and a kind index that names no kind ends the reader without a report.
    pub open spec fn feed(self, data: Seq<u8>) -> (ReaderModel, Seq<EventView>) {
        if !self.is_reading() {
            (self, Seq::empty())
        } else if data.len() == 0 {
            self.disconnect()
        } else {
            let decoded = decode_stream(self.pending + data);
            (
                ReaderModel {
                    client_id: self.client_id,
                    pending: decoded.rest,
                    status: if decoded.halted {
                        ReaderStatus::Rejected
                    } else {
                        ReaderStatus::Reading
                    },
                },
                spec_frame_events(self.client_id, decoded.frames),
            )
        }
    }

    /// The result of a run of reads, one after the other.
    pub open spec fn feed_all(self, chunks: Seq<Seq<u8>>) -> (ReaderModel, Seq<EventView>)
        decreases chunks.len(),
    {
        if chunks.len() == 0 {
            (self, Seq::empty())
        } else {
            let (next, events) = self.feed(chunks[0]);
            let (last, more) = next.feed_all(chunks.subrange(1, chunks.len() as int));
            (last, events + more)
        }
    }
}

/// The bytes of a run of chunks, joined.
pub open spec fn spec_join(chunks: Seq<Seq<u8>>) -> Seq<u8>
    decreases chunks.len(),
{
    if chunks.len() == 0 {
        Seq::empty()
    } else {
        chunks[0] + spec_join(chunks.subrange(1, chunks.len() as int))
    }
}

/// The reader of one connection.
pub struct ConnectionReader {
    client_id: u32,
    current_state: ReadState,
    /// The bytes read so far of the number being read: fewer than four.
    num_buffer: Vec<u8>,
    current_message_type: MessageType,
    message_length: u32,
    /// The bytes read so far of the payload: fewer than `message_length`.
    buffer: Vec<u8>,
}

impl View for ConnectionReader {
    type V = ReaderModel;

    closed spec fn view(&self) -> ReaderModel {
        ReaderModel {
            client_id: self.client_id,
            pending: match self.current_state {
                ReadState::MsgType => self.num_buffer@,
                ReadState::Length => spec_u32_le(spec_msg_id_from_type(self.current_message_type))
                    + self.num_buffer@,
                ReadState::Payload => spec_u32_le(spec_msg_id_from_type(self.current_message_type))
                    + spec_u32_le(self.message_length) + self.buffer@,
                ReadState::Disconnected => Seq::empty(),
                ReadState::Rejected => Seq::empty(),
            },
            status: match self.current_state {
                ReadState::Disconnected => ReaderStatus::Disconnected,
                ReadState::Rejected => ReaderStatus::Rejected,
                _ => ReaderStatus::Reading,
            },
        }
    }
}

/// The frame that a step completed, if it completed one.
pub open spec fn spec_emitted(found: Option<ReceivedMessage>) -> Seq<Frame> {
    match found {
        Some(message) => seq![Frame { msg_type: message.msg_type, payload: message.payload@ }],
        None => Seq::empty(),
    }
}

/// One step of a reader over `data`, from position `pos` to position `next`:
/// it moves ahead, keeps its connection, and decoding from where it stood
/// gives the frame that it found and then what decoding from where it stands
/// gives.
spec fn spec_step(
    before: ConnectionReader,
    after: ConnectionReader,
    found: Option<ReceivedMessage>,
    data: Seq<u8>,
    pos: usize,
    next: usize,
) -> bool {
    &&& pos < next <= data.len()
    &&& after.client_id == before.client_id
    &&& !(after.current_state is Disconnected)
    &&& found matches Some(message) ==> message.sender_id == before.client_id
    &&& decode_stream(before@.pending + data.subrange(pos as int, data.len() as int)) == spec_then(
        Decoded {
            frames: spec_emitted(found),
            rest: Seq::empty(),
            halted: after.current_state is Rejected,
        },
        decode_stream(after@.pending + data.subrange(next as int, data.len() as int)),
    )
}

impl ConnectionReader {
    /// The invariant of a reader: the field being read is never complete, so
    /// there is always at least one byte to wait for while the reader reads.
    pub closed spec fn wf(&self) -> bool {
        match self.current_state {
            ReadState::MsgType => self.num_buffer@.len() < 4 && self.buffer@.len() == 0,
            ReadState::Length => self.num_buffer@.len() < 4 && self.buffer@.len() == 0,
            ReadState::Payload => self.num_buffer@.len() == 0 && self.buffer@.len()
                < self.message_length,
            ReadState::Disconnected => true,
            ReadState::Rejected => true,
        }
    }

    /// What is pending of a well-formed reader holds no complete frame, so
    /// while it reads there is something to wait for.
    pub proof fn lemma_pending_is_incomplete(&self)
        requires
            self.wf(),
        ensures
            self@.wf(),
            self@.is_reading() ==> self@.wanted() > 0,
    {
        let id = spec_msg_id_from_type(self.current_message_type);
        lemma_u32_le_read_back(id);
        lemma_u32_le_read_back(self.message_length);
        lemma_msg_index_bijection(self.current_message_type, id);
        let pending = self@.pending;
        match self.current_state {
            ReadState::Length => {
                assert(pending.subrange(0, 4) =~= spec_u32_le(id));
            },
            ReadState::Payload => {
                assert(pending.subrange(0, 4) =~= spec_u32_le(id));
                assert(pending.subrange(4, 8) =~= spec_u32_le(self.message_length));
            },
            _ => {},
        }
    }

    /// Starts the reader of connection `client_id`. Its first report is that
    /// the connection is there.
    pub fn start(client_id: u32) -> (started: (ConnectionReader, Event))
        ensures
            started.0.wf(),
            started.0@ == ReaderModel::initial(client_id),
            started.1@ == EventView::Connected(client_id),
    {
        let reader = ConnectionReader {
            client_id,
            current_state: ReadState::MsgType,
            num_buffer: Vec::new(),
            current_message_type: MessageType::HelloRequest,
            message_length: 0,
            buffer: Vec::new(),
        };
        (reader, Event::Connected(client_id))
    }

    /// The connection that this reader serves.
    pub fn client_id(&self) -> (id: u32)
        ensures
            id == self@.client_id,
    {
        self.client_id
    }

    /// Where the reader stands.
    pub fn state(&self) -> (state: ReadState)
        ensures
            self@.status == match state {
                ReadState::Disconnected => ReaderStatus::Disconnected,
                ReadState::Rejected => ReaderStatus::Rejected,
                _ => ReaderStatus::Reading,
            },
            self.wf() ==> match state {
                ReadState::MsgType => self@.pending.len() < 4,
                ReadState::Length => 4 <= self@.pending.len() < 8,
                ReadState::Payload => 8 <= self@.pending.len(),
                _ => self@.pending.len() == 0,
            },
    {
        proof {
            lemma_u32_le_read_back(spec_msg_id_from_type(self.current_message_type));
            lemma_u32_le_read_back(self.message_length);
        }
        self.current_state
    }

    /// Whether the reader still reads.
    pub fn is_reading(&self) -> (reading: bool)
        ensures
            reading == self@.is_reading(),
    {
        match self.current_state {
            ReadState::Disconnected => false,
            ReadState::Rejected => false,
            _ => true,
        }
    }

    /// How many bytes the next read should ask for: what the field being read
    /// still needs. While the reader reads this is never zero, so a frame with
    /// an empty payload is never waited for with an empty read.
    pub fn wanted(&self) -> (count: usize)
        requires
            self.wf(),
        ensures
            count == self@.wanted(),
            (count > 0) == self@.is_reading(),
    {
        proof {
            let id = spec_msg_id_from_type(self.current_message_type);
            lemma_u32_le_read_back(id);
            lemma_u32_le_read_back(self.message_length);
            if self.current_state == ReadState::Payload {
                assert(self@.pending.subrange(4, 8) =~= spec_u32_le(self.message_length));
            }
        }
        match self.current_state {
            ReadState::MsgType => 4 - self.num_buffer.len(),
            ReadState::Length => 4 - self.num_buffer.len(),
            ReadState::Payload => self.message_length as usize - self.buffer.len(),
            ReadState::Disconnected => 0,
            ReadState::Rejected => 0,
        }
    }

    /// The peer has closed or the transport has failed. A reader that still
    /// reads reports the disconnect and ends; one that has ended reports
    /// nothing.
    pub fn disconnect(&mut self) -> (event: Option<Event>)
        requires
            old(self).wf(),
        ensures
            final(self).wf(),
            final(self)@ == old(self)@.disconnect().0,
            match event {
                Some(e) => old(self)@.disconnect().1 == seq![e@],
                None => old(self)@.disconnect().1 == Seq::<EventView>::empty(),
            },
    {
        if self.is_reading() {
            self.current_state = ReadState::Disconnected;
            self.num_buffer.clear();
            self.buffer.clear();
            Some(Event::Disconnected(self.client_id))
        } else {
            None
        }
    }

    /// Takes the next bytes of the kind index from `data` at `pos`. Once the
    /// index is complete it is judged: one that names a kind leads on to the
    /// length, any other ends the reader.
    fn read_msg_type(&mut self, data: &[u8], pos: usize) -> (next: usize)
        requires
            old(self).wf(),
            old(self).current_state is MsgType,
            pos < data@.len(),
        ensures
            final(self).wf(),
            spec_step(*old(self), *final(self), None, data@, pos, next),
    {
        let ghost before = self@.pending;
        let ghost ahead = data@.subrange(pos as int, data@.len() as int);
        let avail: usize = data.len() - pos;
        let need: usize = 4 - self.num_buffer.len();
        let take: usize = if need < avail {
            need
        } else {
            avail
        };
        self.num_buffer.extend_from_slice(slice_subrange(data, pos, pos + take));
        let next: usize = pos + take;
        let ghost behind = data@.subrange(next as int, data@.len() as int);
        assert(self.num_buffer@ + behind =~= before + ahead);
        assert(Seq::<Frame>::empty() + decode_stream(before + ahead).frames =~= decode_stream(
            before + ahead,
        ).frames);
        if self.num_buffer.len() == 4 {
            let index = read_u32_le(self.num_buffer.as_slice());
            proof {
                lemma_u32_le_written_back(self.num_buffer@);
                assert((self.num_buffer@ + behind).subrange(0, 4) =~= self.num_buffer@);
            }
            match msg_type_from_id(index) {
                Some(msg_type) => {
                    proof {
                        lemma_msg_index_bijection(msg_type, index);
                    }
                    self.current_message_type = msg_type;
                    self.current_state = ReadState::Length;
                    self.num_buffer.clear();
                    assert(self@.pending + behind =~= before + ahead);
                },
                None => {
                    self.current_state = ReadState::Rejected;
                    self.num_buffer.clear();
                },
            }
        }
        next
    }

    /// Takes the next bytes of the payload length from `data` at `pos`. Once
    /// the length is complete, a frame without payload is complete too and is
    /// returned at once; any other leads on to the payload.
    fn read_length(&mut self, data: &[u8], pos: usize) -> (step: (usize, Option<ReceivedMessage>))
        requires
            old(self).wf(),
            old(self).current_state is Length,
            pos < data@.len(),
        ensures
            final(self).wf(),
            spec_step(*old(self), *final(self), step.1, data@, pos, step.0),
    {
        let ghost before = self@.pending;
        let ghost ahead = data@.subrange(pos as int, data@.len() as int);
        let ghost id = spec_msg_id_from_type(self.current_message_type);
        let avail: usize = data.len() - pos;
        let need: usize = 4 - self.num_buffer.len();
        let take: usize = if need < avail {
            need
        } else {
            avail
        };
        self.num_buffer.extend_from_slice(slice_subrange(data, pos, pos + take));
        let next: usize = pos + take;
        let ghost behind = data@.subrange(next as int, data@.len() as int);
        assert(spec_u32_le(id) + self.num_buffer@ + behind =~= before + ahead);
        assert(Seq::<Frame>::empty() + decode_stream(before + ahead).frames =~= decode_stream(
            before + ahead,
        ).frames);
        if self.num_buffer.len() < 4 {
            return (next, None);
        }
        let length = read_u32_le(self.num_buffer.as_slice());
        proof {
            lemma_u32_le_written_back(self.num_buffer@);
        }
        self.message_length = length;
        self.num_buffer.clear();
        if length == 0 {
            let message = ReceivedMessage {
                sender_id: self.client_id,
                msg_type: self.current_message_type,
                payload: Vec::new(),
            };
            self.current_state = ReadState::MsgType;
            proof {
                lemma_decode_encoded_then(self.current_message_type, message.payload@, behind);
                assert(spec_encode(self.current_message_type, message.payload@) + behind
                    =~= before + ahead);
                assert(self@.pending + behind =~= behind);
            }
            (next, Some(message))
        } else {
            self.current_state = ReadState::Payload;
            assert(self@.pending + behind =~= before + ahead);
            (next, None)
        }
    }

    /// Takes the next bytes of the payload from `data` at `pos`. Once the
    /// payload is complete the frame is returned, and the next one may begin.
    fn read_payload(&mut self, data: &[u8], pos: usize) -> (step: (usize, Option<ReceivedMessage>))
        requires
            old(self).wf(),
            old(self).current_state is Payload,
            pos < data@.len(),
        ensures
            final(self).wf(),
            spec_step(*old(self), *final(self), step.1, data@, pos, step.0),
    {
        let ghost before = self@.pending;
        let ghost ahead = data@.subrange(pos as int, data@.len() as int);
        let ghost id = spec_msg_id_from_type(self.current_message_type);
        let avail: usize = data.len() - pos;
        let need: usize = self.message_length as usize - self.buffer.len();
        let take: usize = if need < avail {
            need
        } else {
            avail
        };
        self.buffer.extend_from_slice(slice_subrange(data, pos, pos + take));
        let next: usize = pos + take;
        let ghost behind = data@.subrange(next as int, data@.len() as int);
        assert(spec_u32_le(id) + spec_u32_le(self.message_length) + self.buffer@ + behind
            =~= before + ahead);
        assert(Seq::<Frame>::empty() + decode_stream(before + ahead).frames =~= decode_stream(
            before + ahead,
        ).frames);
        if self.buffer.len() < self.message_length as usize {
            return (next, None);
        }
        let mut payload: Vec<u8> = Vec::new();
        core::mem::swap(&mut self.buffer, &mut payload);
        let message = ReceivedMessage {
            sender_id: self.client_id,
            msg_type: self.current_message_type,
            payload,
        };
        self.current_state = ReadState::MsgType;
        proof {
            lemma_decode_encoded_then(self.current_message_type, message.payload@, behind);
            assert(spec_encode(self.current_message_type, message.payload@) + behind =~= before
                + ahead);
            assert(self@.pending + behind =~= behind);
        }
        (next, Some(message))
    }

    /// Takes what one read brought and returns the events that it gives rise
    /// to, in order.
    ///
    /// `data` may be cut anywhere: a part of a field, several frames, or both.
    /// What does not complete a frame is kept for the next call.
    pub fn on_read(&mut self, data: &[u8]) -> (events: Vec<Event>)
        requires
            old(self).wf(),
        ensures
            final(self).wf(),
            final(self)@ == old(self)@.feed(data@).0,
            spec_events_view(events@) == old(self)@.feed(data@).1,
            events@.len() == old(self)@.feed(data@).1.len(),
            forall|i: int|
                0 <= i < events@.len() ==> (#[trigger] events@[i])@ == old(self)@.feed(data@).1[i],
    {
        let mut events: Vec<Event> = Vec::new();
        if !self.is_reading() {
            assert(spec_events_view(events@) =~= Seq::<EventView>::empty());
            return events;
        }
        if data.len() == 0 {
            match self.disconnect() {
                Some(event) => {
                    events.push(event);
                },
                None => {},
            }
            assert(spec_events_view(events@) =~= old(self)@.feed(data@).1);
            return events;
        }
        let ghost total = decode_stream(old(self)@.pending + data@);
        let ghost mut frames: Seq<Frame> = Seq::empty();
        let mut pos: usize = 0;
        proof {
            assert(data@.subrange(0, data@.len() as int) =~= data@);
            assert(frames + total.frames =~= total.frames);
            assert(spec_events_view(events@) =~= spec_frame_events(self.client_id, frames));
        }
        while pos < data.len() && self.is_reading()
            invariant
                pos <= data.len(),
                self.wf(),
                self.client_id == old(self).client_id,
                !(self.current_state is Disconnected),
                spec_events_view(events@) == spec_frame_events(self.client_id, frames),
                total == spec_then(
                    Decoded {
                        frames,
                        rest: Seq::empty(),
                        halted: self.current_state is Rejected,
                    },
                    decode_stream(self@.pending + data@.subrange(pos as int, data@.len() as int)),
                ),
            decreases data.len() - pos,
        {
            let ghost earlier_frames = frames;
            let (next, found) = match self.current_state {
                ReadState::MsgType => (self.read_msg_type(data, pos), None),
                ReadState::Length => self.read_length(data, pos),
                _ => self.read_payload(data, pos),
            };
            proof {
                let emitted = spec_emitted(found);
                let behind = decode_stream(
                    self@.pending + data@.subrange(next as int, data@.len() as int),
                );
                assert(frames + (emitted + behind.frames) =~= (frames + emitted) + behind.frames);
                assert(frames + emitted + Seq::<Frame>::empty() =~= frames + emitted);
                frames = frames + emitted;
            }
            match found {
                Some(message) => {
                    proof {
                        lemma_events_push(self.client_id, events@, earlier_frames, message);
                    }
                    events.push(Event::MessageReceived(message));
                },
                None => {
                    assert(earlier_frames + Seq::<Frame>::empty() =~= earlier_frames);
                },
            }
            pos = next;
        }
        proof {
            assert(spec_events_view(events@).len() == events@.len());
            assert forall|i: int| 0 <= i < events@.len() implies (#[trigger] events@[i])@
                == spec_events_view(events@)[i] by {}
            self.lemma_pending_is_incomplete();
            if self@.is_reading() {
                assert(data@.subrange(pos as int, data@.len() as int) =~= Seq::<u8>::empty());
                assert(self@.pending + Seq::<u8>::empty() =~= self@.pending);
                assert(frames + Seq::<Frame>::empty() =~= frames);
            }
        }
        events
    }
}

/// The events of two runs of frames, one after the other, are the events of
/// the joined run.
proof fn lemma_frame_events_add(client_id: u32, first: Seq<Frame>, second: Seq<Frame>)
    ensures
        spec_frame_events(client_id, first + second) == spec_frame_events(client_id, first)
            + spec_frame_events(client_id, second),
{
    let joined = spec_frame_events(client_id, first + second);
    let added = spec_frame_events(client_id, first) + spec_frame_events(client_id, second);
    assert forall|i: int| 0 <= i < joined.len() implies joined[i] == added[i] by {
        if i < first.len() {
            assert((first + second)[i] == first[i]);
        } else {
            assert((first + second)[i] == second[i - first.len()]);
        }
    }
    assert(joined =~= added);
}

/// Two reads in a row do what one read of both pieces does: the same events in
/// the same order, and the same reader afterwards.
pub proof fn lemma_feed_twice(model: ReaderModel, a: Seq<u8>, b: Seq<u8>)
    requires
        a.len() > 0,
        b.len() > 0,
    ensures
        model.feed(a + b) == (
            model.feed(a).0.feed(b).0,
            model.feed(a).1 + model.feed(a).0.feed(b).1,
        ),
{
    if model.is_reading() {
        let first = decode_stream(model.pending + a);
        let second = decode_stream(first.rest + b);
        lemma_decode_append(model.pending + a, b);
        assert(model.pending + (a + b) =~= (model.pending + a) + b);
        if first.halted {
            assert(model.feed(a).1 + Seq::<EventView>::empty() =~= model.feed(a).1);
        } else {
            lemma_frame_events_add(model.client_id, first.frames, second.frames);
        }
    } else {
        assert(Seq::<EventView>::empty() + Seq::<EventView>::empty() =~= Seq::<
            EventView,
        >::empty());
    }
}

/// However a byte stream is cut into reads, the reader reports what it
/// reports when the stream arrives in one read, and ends up the same.
pub proof fn lemma_chunking_invariance(model: ReaderModel, chunks: Seq<Seq<u8>>)
    requires
        chunks.len() > 0,
        forall|i: int| 0 <= i < chunks.len() ==> (#[trigger] chunks[i]).len() > 0,
    ensures
        model.feed_all(chunks) == model.feed(spec_join(chunks)),
    decreases chunks.len(),
{
    let tail = chunks.subrange(1, chunks.len() as int);
    let (next, events) = model.feed(chunks[0]);
    if tail.len() == 0 {
        assert(spec_join(tail) =~= Seq::<u8>::empty());
        assert(chunks[0] + Seq::<u8>::empty() =~= chunks[0]);
        assert(next.feed_all(tail) == (next, Seq::<EventView>::empty()));
        assert(events + Seq::<EventView>::empty() =~= events);
    } else {
        assert forall|i: int| 0 <= i < tail.len() implies (#[trigger] tail[i]).len() > 0 by {
            assert(tail[i] == chunks[i + 1]);
        }
        lemma_chunking_invariance(next, tail);
        assert(tail[0].len() > 0);
        lemma_feed_twice(model, chunks[0], spec_join(tail));
    }
}

/// Whatever a reader is handed, what is pending afterwards again holds no
/// complete frame.
pub proof fn lemma_feed_keeps_invariant(model: ReaderModel, data: Seq<u8>)
    requires
        model.wf(),
    ensures
        model.feed(data).0.wf(),
{
    lemma_decode_rest_is_incomplete(model.pending + data);
    let nothing = Seq::<u8>::empty();
    assert(decode_stream(nothing) == spec_incomplete(nothing));
}

/// A read of no more than what is wanted completes at most the field being
/// read: it gives rise to one event at most, and after an event nothing is
/// pending.
pub proof fn lemma_one_field_per_read(model: ReaderModel, data: Seq<u8>)
    requires
        model.is_reading(),
        model.wf(),
        0 < data.len() <= model.wanted(),
    ensures
        model.feed(data).1.len() <= 1,
        model.feed(data).1.len() == 1 ==> model.feed(data).0 == ReaderModel::initial(
            model.client_id,
        ),
{
    let pending = model.pending;
    let whole = pending + data;
    let decoded = decode_stream(whole);
    let nothing = Seq::<u8>::empty();
    assert(decode_stream(nothing) == spec_incomplete(nothing));
    if pending.len() >= 4 {
        assert(whole.subrange(0, 4) =~= pending.subrange(0, 4));
        assert(spec_msg_type_from_id(spec_u32_from_le(pending.subrange(0, 4))) is Some);
    }
    if pending.len() >= 8 {
        assert(whole.subrange(4, 8) =~= pending.subrange(4, 8));
    }
    if whole.len() >= 8 && spec_msg_type_from_id(spec_u32_from_le(whole.subrange(0, 4))) is Some {
        let length = spec_u32_from_le(whole.subrange(4, 8)) as int;
        assert(whole.len() <= 8 + length);
        if whole.len() == 8 + length {
            assert(whole.subrange(8 + length, whole.len() as int) =~= nothing);
            assert(decoded.frames.len() == 1);
            assert(decoded.rest == nothing);
        } else {
            assert(decoded == spec_incomplete(whole));
        }
    } else {
        assert(decoded.frames.len() == 0);
    }
    assert(model.feed(data).1.len() == decoded.frames.len());
}

/// A reader that stands between two frames and is handed one encoded frame
/// reports exactly that frame, from its own connection, and again stands
/// between two frames. This holds for the empty payload too: the header
/// alone completes the frame.
pub proof fn lemma_reader_roundtrip(client_id: u32, message_type: MessageType, payload: Seq<u8>)
    requires
        payload.len() <= u32::MAX,
    ensures
        ReaderModel::initial(client_id).feed(spec_encode(message_type, payload)) == (
            ReaderModel::initial(client_id),
            seq![
                EventView::MessageReceived(
                    ReceivedMessageView { sender_id: client_id, msg_type: message_type, payload },
                ),
            ],
        ),
{
    let bytes = spec_encode(message_type, payload);
    lemma_u32_le_read_back(spec_msg_id_from_type(message_type));
    lemma_encode_decode_roundtrip(message_type, payload);
    assert(Seq::<u8>::empty() + bytes =~= bytes);
    let frames = seq![Frame { msg_type: message_type, payload }];
    assert(spec_frame_events(client_id, frames) =~= seq![
        EventView::MessageReceived(
            ReceivedMessageView { sender_id: client_id, msg_type: message_type, payload },
        ),
    ]);
}

/// A kind index that names no kind ends the reader: it reports nothing for
/// it, not even a disconnect, and whatever arrives later is left unread.
pub proof fn lemma_unknown_index_ends_reader(
    client_id: u32,
    index: u32,
    more: Seq<u8>,
    later: Seq<u8>,
)
    requires
        spec_msg_type_from_id(index) is None,
    ensures
        ReaderModel::initial(client_id).feed(spec_u32_le(index) + more) == (
            ReaderModel {
                client_id,
                pending: Seq::empty(),
                status: ReaderStatus::Rejected,
            },
            Seq::<EventView>::empty(),
        ),
        ReaderModel::initial(client_id).feed(spec_u32_le(index) + more).0.feed(later).1
            == Seq::<EventView>::empty(),
{
    let bytes = spec_u32_le(index) + more;
    lemma_u32_le_read_back(index);
    assert(Seq::<u8>::empty() + bytes =~= bytes);
    assert(bytes.subrange(0, 4) =~= spec_u32_le(index));
    assert(spec_frame_events(client_id, Seq::empty()) =~= Seq::<EventView>::empty());
}

/// Reporting one more frame extends the events as it extends the frames.
proof fn lemma_events_push(
    client_id: u32,
    events: Seq<Event>,
    frames: Seq<Frame>,
    message: ReceivedMessage,
)
    requires
        spec_events_view(events) == spec_frame_events(client_id, frames),
        message.sender_id == client_id,
    ensures
        spec_events_view(events.push(Event::MessageReceived(message))) == spec_frame_events(
            client_id,
            frames + spec_emitted(Some(message)),
        ),
{
    let longer = spec_events_view(events.push(Event::MessageReceived(message)));
    let wanted = spec_frame_events(client_id, frames + spec_emitted(Some(message)));
    assert(spec_events_view(events).len() == events.len());
    assert(spec_frame_events(client_id, frames).len() == frames.len());
    assert(events.len() == frames.len());
    assert forall|i: int| 0 <= i < longer.len() implies longer[i] == wanted[i] by {
        let joined = frames + spec_emitted(Some(message));
        let pushed = events.push(Event::MessageReceived(message));
        assert(longer[i] == pushed[i]@);
        if i < events.len() {
            assert(pushed[i] == events[i]);
            assert(spec_events_view(events)[i] == events[i]@);
            assert(spec_events_view(events)[i] == spec_frame_events(client_id, frames)[i]);
            assert(joined[i] == frames[i]);
        } else {
            assert(pushed[i] == Event::MessageReceived(message));
            assert(joined[i] == spec_emitted(Some(message))[0]);
        }
    }
    assert(longer =~= wanted);
}

} // verus!
