//! Bounded in-order reassembly of TCP streams.
use crate::textmap::TextMap;
use crate::wire;
use vstd::prelude::*;

verus! {

/// How many bytes of a stream are kept.
pub const MAX_REASSEMBLED_PREFIX: usize = 0x2_0000;

/// The streams seen so far, each under the key of its direction.
#[derive(Debug)]
pub struct TcpReassembler {
    streams: TextMap<StreamState>,
}

/// One direction of one connection: the sequence number that continues it and what is kept of it.
#[derive(Debug)]
struct StreamState {
    next_sequence: u32,
    bytes: Vec<u8>,
}

/// The model of one direction of one connection.
#[verifier::ext_equal]
pub struct StreamView {
    pub next: u32,
    pub bytes: Seq<u8>,
}

/// The model of a [`TcpReassembler`].
pub type StreamsView = Map<Seq<char>, StreamView>;

impl View for StreamState {
    type V = StreamView;

    closed spec fn view(&self) -> StreamView {
        StreamView { next: self.next_sequence, bytes: self.bytes@ }
    }
}

impl View for TcpReassembler {
    type V = StreamsView;

    closed spec fn view(&self) -> StreamsView {
        self.streams@
    }
}

/// What is kept of a stream: its first bytes, as many as may be kept.
pub open spec fn kept(bytes: Seq<u8>) -> Seq<u8> {
    if bytes.len() > MAX_REASSEMBLED_PREFIX {
        bytes.take(MAX_REASSEMBLED_PREFIX as int)
    } else {
        bytes
    }
}

/// The sequence number that lies `n` behind another.
pub open spec fn advanced(sequence: u32, n: int) -> u32 {
    ((sequence + n) % 0x1_0000_0000) as u32
}

/// A stream, or where there is none one that starts with the given sequence number.
pub open spec fn stream_at(streams: StreamsView, key: Seq<char>, sequence: u32) -> StreamView {
    if streams.contains_key(key) {
        streams[key]
    } else {
        StreamView { next: sequence, bytes: Seq::empty() }
    }
}

/// The segment continues its stream.
pub open spec fn continues(streams: StreamsView, key: Seq<char>, sequence: u32) -> bool {
    stream_at(streams, key, sequence).next == sequence
}

/// What is kept of the stream when the segment continues it.
pub open spec fn joined(
    streams: StreamsView,
    key: Seq<char>,
    sequence: u32,
    payload: Seq<u8>,
) -> Seq<u8> {
    kept(stream_at(streams, key, sequence).bytes + payload)
}

/// The streams after a segment, whose flags take `consumed` sequence numbers of their own.
pub open spec fn pushed(
    streams: StreamsView,
    key: Seq<char>,
    sequence: u32,
    payload: Seq<u8>,
    consumed: u32,
) -> StreamsView {
    if continues(streams, key, sequence) {
        streams.insert(
            key,
            StreamView {
                next: advanced(sequence, payload.len() + consumed),
                bytes: joined(streams, key, sequence, payload),
            },
        )
    } else {
        streams
    }
}

/// No stream keeps more than it may.
pub open spec fn streams_bounded(streams: StreamsView) -> bool {
    forall|key: Seq<char>| #[trigger]
        streams.contains_key(key) ==> streams[key].bytes.len() <= MAX_REASSEMBLED_PREFIX
}

impl Default for TcpReassembler {
    /// No streams.
    fn default() -> (r: Self)
        ensures
            r@ == StreamsView::empty(),
    {
        TcpReassembler { streams: TextMap::new() }
    }
}

impl TcpReassembler {
    /// Returns the complete in-order prefix observed for this directional stream.
    /// A gap is held back rather than emitted as a corrupt protocol message.
    pub fn push(&mut self, key: String, sequence: u32, payload: &[u8]) -> (r: Option<Vec<u8>>)
        ensures
            final(self)@ == pushed(old(self)@, key@, sequence, payload@, 0),
            match r {
                Some(bytes) => continues(old(self)@, key@, sequence) && bytes@ == joined(
                    old(self)@,
                    key@,
                    sequence,
                    payload@,
                ),
                None => !continues(old(self)@, key@, sequence),
            },
    {
        self.push_segment(key, sequence, payload, 0)
    }

    /// As [`TcpReassembler::push`], for a segment whose flags take sequence numbers of their own.
    pub fn push_segment(
        &mut self,
        key: String,
        sequence: u32,
        payload: &[u8],
        sequence_consumed_by_flags: u32,
    ) -> (r: Option<Vec<u8>>)
        ensures
            final(self)@ == pushed(
                old(self)@,
                key@,
                sequence,
                payload@,
                sequence_consumed_by_flags,
            ),
            match r {
                Some(bytes) => continues(old(self)@, key@, sequence) && bytes@ == joined(
                    old(self)@,
                    key@,
                    sequence,
                    payload@,
                ),
                None => !continues(old(self)@, key@, sequence),
            },
    {
        let ghost streams = self@;
        let mut state = match self.streams.remove(key.as_str()) {
            Some(state) => state,
            None => StreamState { next_sequence: sequence, bytes: Vec::new() },
        };
        assert(state@ == stream_at(streams, key@, sequence));
        if state.next_sequence != sequence {
            self.streams.insert(key, state);
            assert(self@ =~= streams);
            return None;
        }
        wire::push_bytes(&mut state.bytes, payload);
        if state.bytes.len() > MAX_REASSEMBLED_PREFIX {
            state.bytes.truncate(MAX_REASSEMBLED_PREFIX);
        }
        let step: u64 = payload.len() as u64 % 0x1_0000_0000 + sequence_consumed_by_flags as u64;
        state.next_sequence = ((sequence as u64 + step) % 0x1_0000_0000) as u32;
        assert(state.next_sequence == advanced(
            sequence,
            payload@.len() + sequence_consumed_by_flags,
        ));
        let bytes = vstd::slice::slice_to_vec(&state.bytes);
        assert(bytes@ =~= joined(streams, key@, sequence, payload@));
        self.streams.insert(key, state);
        assert(self@ =~= pushed(streams, key@, sequence, payload@, sequence_consumed_by_flags));
        Some(bytes)
    }
}

// ---------------------------------------------------------------------------------------------
// Laws
// ---------------------------------------------------------------------------------------------

/// Whatever segments arrive, no stream ever keeps more than [`MAX_REASSEMBLED_PREFIX`] bytes.
pub proof fn reassembly_stays_bounded(
    streams: StreamsView,
    key: Seq<char>,
    sequence: u32,
    payload: Seq<u8>,
    consumed: u32,
)
    requires
        streams_bounded(streams),
    ensures
        streams_bounded(StreamsView::empty()),
        streams_bounded(pushed(streams, key, sequence, payload, consumed)),
        joined(streams, key, sequence, payload).len() <= MAX_REASSEMBLED_PREFIX,
{
}

/// One segment of a stream: the key of its direction, where it starts, what it holds, and how
/// many sequence numbers its flags take.
pub struct SegmentView {
    pub key: Seq<char>,
    pub sequence: u32,
    pub payload: Seq<u8>,
    pub consumed: u32,
}

/// The streams after one segment after another.
pub open spec fn all_pushed(streams: StreamsView, segments: Seq<SegmentView>) -> StreamsView
    decreases segments.len(),
{
    if segments.len() == 0 {
        streams
    } else {
        let last = segments.last();
        pushed(
            all_pushed(streams, segments.drop_last()),
            last.key,
            last.sequence,
            last.payload,
            last.consumed,
        )
    }
}

/// What a stream gives back starts with what it gave back before, whatever segments of whatever
/// streams arrive in between: a stream keeps its beginning.
pub proof fn streams_keep_their_beginning(
    streams: StreamsView,
    segments: Seq<SegmentView>,
    key: Seq<char>,
    sequence: u32,
    payload: Seq<u8>,
)
    requires
        streams_bounded(streams),
        streams.contains_key(key),
    ensures
        ({
            let after = all_pushed(streams, segments);
            &&& streams_bounded(after)
            &&& after.contains_key(key)
            &&& wire::begins_with(after[key].bytes, streams[key].bytes)
            &&& wire::begins_with(joined(after, key, sequence, payload), streams[key].bytes)
        }),
    decreases segments.len(),
{
    let given = streams[key].bytes;
    if segments.len() > 0 {
        let last = segments.last();
        streams_keep_their_beginning(
            streams,
            segments.drop_last(),
            key,
            last.sequence,
            last.payload,
        );
    } else {
        assert(given.take(given.len() as int) =~= given);
    }
    let after = all_pushed(streams, segments);
    assert(wire::begins_with(after[key].bytes, given));
    assert(joined(after, key, sequence, payload).take(given.len() as int) =~= after[key].bytes.take(
        given.len() as int,
    ));
}

/// Of two segments of which the second starts where the first ends, the second gives both in
/// order, after what the stream held.
pub proof fn contiguous_segments_join(
    streams: StreamsView,
    key: Seq<char>,
    sequence: u32,
    first: Seq<u8>,
    second: Seq<u8>,
)
    requires
        continues(streams, key, sequence),
    ensures
        ({
            let after = pushed(streams, key, sequence, first, 0);
            let next = advanced(sequence, first.len() as int);
            &&& continues(after, key, next)
            &&& joined(after, key, next, second) == kept(
                stream_at(streams, key, sequence).bytes + first + second,
            )
        }),
{
    let before = stream_at(streams, key, sequence).bytes;
    let after = pushed(streams, key, sequence, first, 0);
    let next = advanced(sequence, first.len() as int);
    assert(after[key].bytes == kept(before + first));
    assert(joined(after, key, next, second) =~= kept(before + first + second));
}

/// A segment behind a gap is held back: it changes no stream, and the segment that closes the gap
/// still continues its stream.
pub proof fn gap_is_held_back(
    streams: StreamsView,
    key: Seq<char>,
    sequence: u32,
    payload: Seq<u8>,
    consumed: u32,
)
    requires
        streams.contains_key(key),
        streams[key].next != sequence,
    ensures
        !continues(streams, key, sequence),
        pushed(streams, key, sequence, payload, consumed) == streams,
        continues(pushed(streams, key, sequence, payload, consumed), key, streams[key].next),
{
}

/// A segment leaves the streams under other keys as they are.
pub proof fn streams_are_separate(
    streams: StreamsView,
    key: Seq<char>,
    other: Seq<char>,
    sequence: u32,
    payload: Seq<u8>,
    consumed: u32,
)
    requires
        key != other,
    ensures
        ({
            let after = pushed(streams, key, sequence, payload, consumed);
            &&& after.contains_key(other) == streams.contains_key(other)
            &&& streams.contains_key(other) ==> after[other] == streams[other]
        }),
{
}

} // verus!
