//! Decoding frames out of a byte stream that arrives in pieces.
use crate::error::{Error, ErrorView};
use crate::frame::{
    from_le16, payload_too_large, unexpected_eof, Frame, FrameType, FrameView, HEADER_SIZE,
    MAX_PAYLOAD,
};
use vstd::prelude::*;

verus! {

/// What one attempt to read from a stream came to; `E` is the stream's error.
pub enum ReadEvent<E> {
    /// Some bytes arrived, at least one and no more than were asked for.
    Data(Vec<u8>),
    /// The stream has ended.
    Eof,
    /// The attempt was interrupted before any byte arrived.
    Interrupted,
    /// The stream failed.
    Failed(E),
}

/// What a [`ReadEvent`] says.
pub enum ReadView<E> {
    Data(Seq<u8>),
    Eof,
    Interrupted,
    Failed(E),
}

impl<E> View for ReadEvent<E> {
    type V = ReadView<E>;

    open spec fn view(&self) -> ReadView<E> {
        match *self {
            ReadEvent::Data(bytes) => ReadView::Data(bytes@),
            ReadEvent::Eof => ReadView::Eof,
            ReadEvent::Interrupted => ReadView::Interrupted,
            ReadEvent::Failed(error) => ReadView::Failed(error),
        }
    }
}

impl<E> ReadView<E> {
    /// Whether a read for `wanted` bytes can come to this.
    pub open spec fn answers(self, wanted: int) -> bool {
        self matches ReadView::Data(bytes) ==> 0 < bytes.len() <= wanted
    }
}

/// How far filling a buffer has come after one more read.
#[derive(Debug, PartialEq, Eq)]
pub enum Fill<E> {
    /// More bytes are to be read.
    More,
    /// The buffer is full, or the stream has ended before it was.
    Done,
    /// The stream failed.
    Failed(E),
}

/// How far the frame reader has come after one more read.
#[derive(Debug, PartialEq, Eq)]
pub enum Progress<E> {
    /// The frame is not complete yet.
    More,
    /// The frame is complete.
    Frame(Frame),
    /// The stream ended at a frame boundary.
    End,
    /// The stream does not hold a valid frame here.
    Invalid(Error),
    /// The stream failed.
    Failed(E),
}

/// What a [`Progress`] says.
pub enum ProgressView<E> {
    More,
    Frame(FrameView),
    End,
    Invalid(ErrorView),
    Failed(E),
}

impl<E> View for Progress<E> {
    type V = ProgressView<E>;

    open spec fn view(&self) -> ProgressView<E> {
        match *self {
            Progress::More => ProgressView::More,
            Progress::Frame(frame) => ProgressView::Frame(frame@),
            Progress::End => ProgressView::End,
            Progress::Invalid(error) => ProgressView::Invalid(error@),
            Progress::Failed(error) => ProgressView::Failed(error),
        }
    }
}

/// One thing that decoding a stream yields.
pub enum Item {
    Frame(FrameView),
    Invalid(ErrorView),
}

/// The item that a decoding result stands for.
pub open spec fn item_of(result: Result<Frame, Error>) -> Item {
    match result {
        Ok(frame) => Item::Frame(frame@),
        Err(error) => Item::Invalid(error@),
    }
}

/// The payload length in the header that `bytes` starts with.
pub open spec fn payload_len(bytes: Seq<u8>) -> nat
    recommends
        bytes.len() >= HEADER_SIZE,
{
    (bytes[1] + 256 * bytes[2]) as nat
}

/// Whether `pending` can be the bytes of a frame that is still incomplete.
pub open spec fn incomplete(pending: Seq<u8>) -> bool {
    ||| pending.len() < HEADER_SIZE
    ||| payload_len(pending) <= MAX_PAYLOAD && pending.len() < HEADER_SIZE + payload_len(pending)
}

/// How long `pending` has to become before the reader decides again: first a
/// whole header, then a whole frame.
pub open spec fn goal(pending: Seq<u8>) -> int {
    if pending.len() < HEADER_SIZE {
        HEADER_SIZE as int
    } else {
        HEADER_SIZE + payload_len(pending)
    }
}

/// What is known once `bytes` has reached its goal: the bytes that stay
/// pending, and how far the reader has come.
pub open spec fn decide<E>(bytes: Seq<u8>) -> (Seq<u8>, ProgressView<E>) {
    if payload_len(bytes) > MAX_PAYLOAD {
        (Seq::empty(), ProgressView::Invalid(crate::frame::too_large(payload_len(bytes))))
    } else if bytes.len() < HEADER_SIZE + payload_len(bytes) {
        (bytes, ProgressView::More)
    } else {
        (
            Seq::empty(),
            ProgressView::Frame(
                FrameView {
                    frame_type: FrameType::of_wire_byte(bytes[0]),
                    payload: bytes.skip(HEADER_SIZE as int),
                },
            ),
        )
    }
}

/// One step of the reader: the bytes pending after `event`, and how far the
/// reader has come.
pub open spec fn advance<E>(pending: Seq<u8>, event: ReadView<E>) -> (
    Seq<u8>,
    ProgressView<E>,
) {
    match event {
        ReadView::Data(bytes) => if (pending + bytes).len() < goal(pending) {
            (pending + bytes, ProgressView::More)
        } else {
            decide(pending + bytes)
        },
        ReadView::Eof => if pending.len() == 0 {
            (Seq::empty(), ProgressView::End)
        } else {
            (Seq::empty(), ProgressView::Invalid(crate::frame::eof_inside()))
        },
        ReadView::Interrupted => (pending, ProgressView::More),
        ReadView::Failed(error) => (Seq::empty(), ProgressView::Failed(error)),
    }
}

/// The first item in a whole stream, and the bytes left after it; none at a
/// clean end.
pub open spec fn decode_next(bytes: Seq<u8>) -> (Option<Item>, Seq<u8>) {
    if bytes.len() == 0 {
        (None, bytes)
    } else if bytes.len() < HEADER_SIZE {
        (Some(Item::Invalid(crate::frame::eof_inside())), Seq::empty())
    } else if payload_len(bytes) > MAX_PAYLOAD {
        (
            Some(Item::Invalid(crate::frame::too_large(payload_len(bytes)))),
            bytes.skip(HEADER_SIZE as int),
        )
    } else if bytes.len() < HEADER_SIZE + payload_len(bytes) {
        (Some(Item::Invalid(crate::frame::eof_inside())), Seq::empty())
    } else {
        let end = HEADER_SIZE + payload_len(bytes);
        (
            Some(
                Item::Frame(
                    FrameView {
                        frame_type: FrameType::of_wire_byte(bytes[0]),
                        payload: bytes.subrange(HEADER_SIZE as int, end as int),
                    },
                ),
            ),
            bytes.skip(end as int),
        )
    }
}

/// All the items in a whole stream.
pub open spec fn decode_all(bytes: Seq<u8>) -> Seq<Item>
    decreases bytes.len(),
{
    if bytes.len() == 0 {
        Seq::empty()
    } else {
        let (item, rest) = decode_next(bytes);
        if rest.len() < bytes.len() {
            seq![item->0] + decode_all(rest)
        } else {
            Seq::empty()
        }
    }
}

/// Take one more read into account while `buf` is being filled up to `len`
/// bytes: what arrives is appended, an interrupted read is tried again, a
/// failure is handed back.
pub fn read_full<E>(buf: &mut Vec<u8>, len: usize, event: ReadEvent<E>) -> (fill: Fill<E>)
    requires
        old(buf)@.len() < len,
        event@.answers(len - old(buf)@.len()),
    ensures
        event@ matches ReadView::Data(bytes) ==> {
            &&& final(buf)@ == old(buf)@ + bytes
            &&& fill == (if final(buf)@.len() < len {
                Fill::<E>::More
            } else {
                Fill::<E>::Done
            })
        },
        event@ is Eof ==> final(buf)@ == old(buf)@ && fill == Fill::<E>::Done,
        event@ is Interrupted ==> final(buf)@ == old(buf)@ && fill == Fill::<E>::More,
        event@ matches ReadView::Failed(error) ==> final(buf)@ == old(buf)@ && fill
            == Fill::<E>::Failed(error),
{
    match event {
        ReadEvent::Data(bytes) => {
            let mut bytes = bytes;
            buf.append(&mut bytes);
            if buf.len() < len {
                Fill::More
            } else {
                Fill::Done
            }
        },
        ReadEvent::Eof => Fill::Done,
        ReadEvent::Interrupted => Fill::More,
        ReadEvent::Failed(error) => Fill::Failed(error),
    }
}

/// Reads frames from an underlying byte stream.
///
/// The stream itself is read by the caller: [`FrameReader::wanted`] tells how
/// many bytes to ask for, [`FrameReader::feed`] takes what came of it. A clean
/// EOF at a frame boundary ends the stream; an EOF in the middle of a frame
/// surfaces as an error. Frames that lie in memory already are read by
/// [`FrameReader::next`].
pub struct FrameReader<R> {
    inner: R,
    pending: Vec<u8>,
}

impl<R> FrameReader<R> {
    /// The underlying stream.
    pub closed spec fn stream(self) -> R {
        self.inner
    }

    /// The bytes of the frame being read that have arrived so far.
    pub closed spec fn pending(self) -> Seq<u8> {
        self.pending@
    }

    /// Whether the pending bytes are those of an incomplete frame.
    pub open spec fn wf(self) -> bool {
        incomplete(self.pending())
    }

    /// Start reading at a frame boundary of `inner`.
    pub fn new(inner: R) -> (reader: Self)
        ensures
            reader.wf(),
            reader.stream() == inner,
            reader.pending() == Seq::<u8>::empty(),
    {
        FrameReader { inner, pending: Vec::new() }
    }

    /// Consume the reader and hand back the underlying stream.
    pub fn into_inner(self) -> (inner: R)
        ensures
            inner == self.stream(),
    {
        self.inner
    }

    /// The underlying stream, to read from.
    pub fn inner_mut(&mut self) -> (inner: &mut R)
        ensures
            *inner == old(self).stream(),
            final(self).stream() == *final(inner),
            final(self).pending() == old(self).pending(),
    {
        &mut self.inner
    }

    /// How many bytes the next read may take from the stream.
    pub fn wanted(&self) -> (count: usize)
        requires
            self.wf(),
        ensures
            count == goal(self.pending()) - self.pending().len(),
            0 < count <= MAX_PAYLOAD,
    {
        if self.pending.len() < HEADER_SIZE {
            HEADER_SIZE - self.pending.len()
        } else {
            let len: usize = from_le16(self.pending[1], self.pending[2]) as usize;
            HEADER_SIZE + len - self.pending.len()
        }
    }

    /// Take what came of a read into account.
    pub fn feed<E>(&mut self, event: ReadEvent<E>) -> (progress: Progress<E>)
        requires
            old(self).wf(),
            event@.answers(goal(old(self).pending()) - old(self).pending().len()),
        ensures
            final(self).wf(),
            final(self).stream() == old(self).stream(),
            (final(self).pending(), progress@) == advance(old(self).pending(), event@),
    {
        let len: usize = self.pending.len() + self.wanted();
        let ended = matches!(event, ReadEvent::Eof);
        let fill = read_full(&mut self.pending, len, event);
        match fill {
            Fill::More => Progress::More,
            Fill::Failed(error) => {
                self.pending.clear();
                Progress::Failed(error)
            },
            Fill::Done => {
                if ended {
                    let clean = self.pending.len() == 0;
                    self.pending.clear();
                    if clean {
                        Progress::End
                    } else {
                        Progress::Invalid(unexpected_eof())
                    }
                } else {
                    self.decide()
                }
            },
        }
    }

    /// Decide what a whole header, or a whole frame, comes to.
    fn decide<E>(&mut self) -> (progress: Progress<E>)
        requires
            old(self).pending().len() == HEADER_SIZE || payload_len(old(self).pending())
                <= MAX_PAYLOAD && old(self).pending().len() == HEADER_SIZE + payload_len(
                old(self).pending(),
            ),
        ensures
            final(self).wf(),
            final(self).stream() == old(self).stream(),
            (final(self).pending(), progress@) == decide::<E>(old(self).pending()),
    {
        let len: usize = from_le16(self.pending[1], self.pending[2]) as usize;
        if len > MAX_PAYLOAD {
            self.pending.clear();
            Progress::Invalid(payload_too_large(len))
        } else if self.pending.len() < HEADER_SIZE + len {
            Progress::More
        } else {
            let frame_type = FrameType::from(self.pending[0]);
            let payload = self.pending.split_off(HEADER_SIZE);
            self.pending.clear();
            Progress::Frame(Frame { frame_type, payload })
        }
    }
}

impl FrameReader<Vec<u8>> {
    /// The next frame of a stream that lies in memory, or why there is none;
    /// `None` at the end of the stream.
    pub fn next(&mut self) -> (item: Option<Result<Frame, Error>>)
        requires
            old(self).wf(),
        ensures
            final(self).wf(),
            final(self).pending() == Seq::<u8>::empty(),
            ({
                let (next, rest) = decode_next(old(self).pending() + old(self).stream()@);
                &&& item is None <==> next is None
                &&& item matches Some(result) ==> next == Some(item_of(result))
                &&& final(self).stream()@ == rest
            }),
    {
        let ghost whole = self.pending() + self.stream()@;
        loop
            invariant
                self.wf(),
                whole == self.pending() + self.stream()@,
                whole == old(self).pending() + old(self).stream()@,
            decreases self.stream()@.len(),
        {
            let ghost before = self.pending();
            let event = self.read_some();
            proof {
                if let ReadView::Data(chunk) = event@ {
                    lemma_advance_data::<()>(before, chunk, self.stream()@);
                    assert(before + chunk + self.stream()@ =~= whole);
                } else {
                    lemma_advance_eof::<()>(before);
                    assert(before + self.stream()@ =~= before);
                }
            }
            match self.feed(event) {
                Progress::More => {},
                Progress::Frame(frame) => {
                    return Some(Ok(frame));
                },
                Progress::Invalid(error) => {
                    return Some(Err(error));
                },
                Progress::End | Progress::Failed(_) => {
                    return None;
                },
            }
        }
    }

    /// Take from the front of the stream what one read for the wanted bytes
    /// gives.
    fn read_some(&mut self) -> (event: ReadEvent<()>)
        requires
            old(self).wf(),
        ensures
            final(self).pending() == old(self).pending(),
            event@.answers(goal(old(self).pending()) - old(self).pending().len()),
            match event@ {
                ReadView::Data(chunk) => old(self).stream()@ == chunk + final(self).stream()@,
                ReadView::Eof => old(self).stream()@.len() == 0 && final(self).stream()@.len()
                    == 0,
                _ => false,
            },
    {
        let available = self.inner.len();
        if available == 0 {
            return ReadEvent::Eof;
        }
        let wanted = self.wanted();
        let count = if wanted < available {
            wanted
        } else {
            available
        };
        let mut chunk = self.inner.split_off(count);
        std::mem::swap(&mut self.inner, &mut chunk);
        assert(old(self).stream()@ =~= chunk@ + self.inner@);
        ReadEvent::Data(chunk)
    }

    /// All the frames of a stream that lies in memory, with an error wherever
    /// the stream holds no valid frame.
    pub fn frames(self) -> (results: Vec<Result<Frame, Error>>)
        requires
            self.wf(),
        ensures
            results@.map_values(|result: Result<Frame, Error>| item_of(result)) == decode_all(
                self.pending() + self.stream()@,
            ),
    {
        let mut reader = self;
        let ghost to_item = |result: Result<Frame, Error>| item_of(result);
        let mut results: Vec<Result<Frame, Error>> = Vec::new();
        loop
            invariant
                reader.wf(),
                to_item == (|result: Result<Frame, Error>| item_of(result)),
                results@.map_values(to_item) + decode_all(reader.pending() + reader.stream()@)
                    == decode_all(self.pending() + self.stream()@),
            decreases (reader.pending() + reader.stream()@).len(),
        {
            let ghost bytes = reader.pending() + reader.stream()@;
            let ghost seen = results@;
            match reader.next() {
                Some(result) => {
                    results.push(result);
                    proof {
                        assert(reader.pending() + reader.stream()@ =~= decode_next(bytes).1);
                        assert(results@.map_values(to_item) =~= seen.map_values(to_item).push(
                            item_of(result),
                        ));
                        assert(seen.map_values(to_item) + (seq![item_of(result)] + decode_all(
                            decode_next(bytes).1,
                        )) =~= results@.map_values(to_item) + decode_all(decode_next(bytes).1));
                    }
                },
                None => {
                    assert(results@.map_values(to_item) + Seq::<Item>::empty()
                        =~= results@.map_values(to_item));
                    return results;
                },
            }
        }
    }
}

/// The end of the stream ends the reader as it ends a stream of the pending
/// bytes alone.
proof fn lemma_advance_eof<E>(pending: Seq<u8>)
    requires
        incomplete(pending),
    ensures
        match advance::<E>(pending, ReadView::Eof) {
            (after, ProgressView::End) => after.len() == 0 && decode_next(pending) == (
                None::<Item>,
                Seq::<u8>::empty(),
            ),
            (after, ProgressView::Invalid(error)) => after.len() == 0 && decode_next(pending) == (
                Some(Item::Invalid(error)),
                Seq::<u8>::empty(),
            ),
            _ => false,
        },
{
    if pending.len() == 0 {
        assert(pending =~= Seq::empty());
    }
}

/// A legal chunk either leaves the frame incomplete, or completes the item that
/// the stream starts with and takes nothing behind it.
proof fn lemma_advance_data<E>(pending: Seq<u8>, chunk: Seq<u8>, rest: Seq<u8>)
    requires
        incomplete(pending),
        0 < chunk.len() <= goal(pending) - pending.len(),
    ensures
        match advance::<E>(pending, ReadView::Data(chunk)) {
            (after, ProgressView::More) => after == pending + chunk && incomplete(after),
            (after, ProgressView::Frame(frame)) => after.len() == 0 && decode_next(
                pending + chunk + rest,
            ) == (Some(Item::Frame(frame)), rest),
            (after, ProgressView::Invalid(error)) => after.len() == 0 && decode_next(
                pending + chunk + rest,
            ) == (Some(Item::Invalid(error)), rest),
            _ => false,
        },
{
    let bytes = pending + chunk;
    let whole = bytes + rest;
    if bytes.len() >= goal(pending) {
        assert(payload_len(whole) == payload_len(bytes));
        if pending.len() >= HEADER_SIZE {
            assert(payload_len(bytes) == payload_len(pending));
        }
        assert(whole.skip(bytes.len() as int) =~= rest);
        assert(whole.subrange(HEADER_SIZE as int, bytes.len() as int) =~= bytes.skip(
            HEADER_SIZE as int,
        ));
    }
}

/// The wire form of frames sent one after the other.
pub open spec fn encode_all(frames: Seq<FrameView>) -> Seq<u8>
    decreases frames.len(),
{
    if frames.len() == 0 {
        Seq::empty()
    } else {
        frames[0].encoded() + encode_all(frames.drop_first())
    }
}

/// The bytes that a run of reads brought in.
pub open spec fn arrived<E>(events: Seq<ReadView<E>>) -> Seq<u8>
    decreases events.len(),
{
    if events.len() == 0 {
        Seq::empty()
    } else {
        (match events[0] {
            ReadView::Data(bytes) => bytes,
            _ => Seq::empty(),
        }) + arrived(events.drop_first())
    }
}

/// Whether a reader with `pending` bytes can meet this run of reads: each
/// brings in no more than was wanted, or was interrupted.
pub open spec fn possible<E>(pending: Seq<u8>, events: Seq<ReadView<E>>) -> bool
    decreases events.len(),
{
    events.len() == 0 || {
        &&& events[0] is Data || events[0] is Interrupted
        &&& events[0].answers(goal(pending) - pending.len())
        &&& possible(advance(pending, events[0]).0, events.drop_first())
    }
}

/// The item that a step of the reader yields, if it does.
pub open spec fn yielded<E>(progress: ProgressView<E>) -> Seq<Item> {
    match progress {
        ProgressView::Frame(frame) => seq![Item::Frame(frame)],
        ProgressView::Invalid(error) => seq![Item::Invalid(error)],
        _ => Seq::empty(),
    }
}

/// All that a reader with `pending` bytes yields over a run of reads and the
/// end of the stream after it.
pub open spec fn yielded_over<E>(pending: Seq<u8>, events: Seq<ReadView<E>>) -> Seq<Item>
    decreases events.len(),
{
    if events.len() == 0 {
        yielded(advance::<E>(pending, ReadView::Eof).1)
    } else {
        let (after, progress) = advance(pending, events[0]);
        yielded(progress) + yielded_over(after, events.drop_first())
    }
}

/// Whatever type byte a frame starts with, known or not, the frame is read in
/// full and the stream stays in sync.
pub proof fn law_any_type_byte_decodes(byte: u8, payload: Seq<u8>, rest: Seq<u8>)
    requires
        payload.len() <= MAX_PAYLOAD,
    ensures
        decode_next(
            seq![byte] + crate::frame::le16(payload.len() as u16) + payload + rest,
        ) == (
            Some(
                Item::Frame(
                    FrameView { frame_type: FrameType::of_wire_byte(byte), payload },
                ),
            ),
            rest,
        ),
{
    let len = payload.len() as u16;
    crate::frame::law_le16_round_trip(len);
    let head = seq![byte] + crate::frame::le16(len);
    let bytes = head + payload + rest;
    assert(bytes[1] == crate::frame::le16(len)[0]);
    assert(bytes[2] == crate::frame::le16(len)[1]);
    assert(payload_len(bytes) == payload.len());
    assert(bytes.subrange(3, 3int + payload.len()) =~= payload);
    assert(bytes.skip(3int + payload.len()) =~= rest);
}

/// A frame that was written is the next one read, and nothing behind it is
/// touched.
pub proof fn law_frame_round_trip(frame: FrameView, rest: Seq<u8>)
    requires
        frame.fits(),
    ensures
        decode_next(frame.encoded() + rest) == (Some(Item::Frame(frame)), rest),
{
    law_any_type_byte_decodes(frame.frame_type.wire_byte(), frame.payload, rest);
    crate::frame::law_type_round_trip(frame.frame_type);
}

/// Frames written one after the other are read back, all of them and in order,
/// and then the stream ends cleanly.
pub proof fn law_stream_round_trip(frames: Seq<FrameView>)
    requires
        forall|i: int| 0 <= i < frames.len() ==> (#[trigger] frames[i]).fits(),
    ensures
        decode_all(encode_all(frames)) == frames.map_values(|frame: FrameView| Item::Frame(frame)),
    decreases frames.len(),
{
    let to_item = |frame: FrameView| Item::Frame(frame);
    if frames.len() == 0 {
        assert(frames.map_values(to_item) =~= Seq::empty());
    } else {
        let rest = frames.drop_first();
        law_frame_round_trip(frames[0], encode_all(rest));
        law_stream_round_trip(rest);
        assert(frames.map_values(to_item) =~= seq![Item::Frame(frames[0])] + rest.map_values(
            to_item,
        ));
    }
}

/// A frame that was read fits, and it was sent by the very bytes it would be
/// written with; only an unknown type byte is not kept.
pub proof fn law_decoded_frame_is_what_was_sent(bytes: Seq<u8>)
    ensures
        decode_next(bytes) matches (Some(Item::Frame(frame)), rest) ==> {
            &&& frame.fits()
            &&& frame.frame_type == FrameType::of_wire_byte(bytes[0])
            &&& bytes == seq![bytes[0]] + frame.encoded().skip(1) + rest
            &&& !(frame.frame_type is Unknown) ==> bytes == frame.encoded() + rest
        },
{
    if let (Some(Item::Frame(frame)), rest) = decode_next(bytes) {
        let len = payload_len(bytes);
        crate::frame::law_le16_is_onto(bytes[1], bytes[2]);
        assert(crate::frame::le16(len as u16) == seq![bytes[1], bytes[2]]);
        assert(frame.payload.len() == len);
        assert(frame.encoded() =~= seq![frame.frame_type.wire_byte(), bytes[1], bytes[2]]
            + bytes.subrange(3, 3int + len));
        assert(bytes =~= seq![bytes[0]] + frame.encoded().skip(1) + rest);
        if !(frame.frame_type is Unknown) {
            assert(bytes =~= frame.encoded() + rest);
        }
    }
}

/// Reading always gets on: a stream that is not at its end yields an item and
/// has fewer bytes left.
pub proof fn law_reading_gets_on(bytes: Seq<u8>)
    ensures
        decode_next(bytes).0 is None <==> bytes.len() == 0,
        bytes.len() > 0 ==> decode_next(bytes).1.len() < bytes.len(),
        bytes.len() > 0 ==> decode_all(bytes) == seq![decode_next(bytes).0->0] + decode_all(
            decode_next(bytes).1,
        ),
{
}

/// A frame cut short, in its header or in its payload, is an unexpected end of
/// the stream and nothing else.
pub proof fn law_truncated_frame_is_an_error(frame: FrameView, kept: int)
    requires
        frame.fits(),
        0 < kept < frame.encoded().len(),
    ensures
        decode_all(frame.encoded().take(kept)) == seq![Item::Invalid(crate::frame::eof_inside())],
{
    let bytes = frame.encoded().take(kept);
    let len = frame.payload.len() as u16;
    crate::frame::law_le16_round_trip(len);
    if kept >= 3 {
        assert(bytes[1] == crate::frame::le16(len)[0]);
        assert(bytes[2] == crate::frame::le16(len)[1]);
        assert(payload_len(bytes) == frame.payload.len());
    }
    assert(decode_all(Seq::<u8>::empty()) =~= Seq::empty());
    assert(seq![Item::Invalid(crate::frame::eof_inside())] + Seq::<Item>::empty() =~= seq![
        Item::Invalid(crate::frame::eof_inside()),
    ]);
}

/// How a stream is cut into reads does not matter: whatever arrives when, and
/// however often a read is interrupted, the reader yields what decoding the
/// whole stream at once yields.
pub proof fn law_cuts_do_not_matter<E>(pending: Seq<u8>, events: Seq<ReadView<E>>)
    requires
        incomplete(pending),
        possible(pending, events),
    ensures
        yielded_over(pending, events) == decode_all(pending + arrived(events)),
    decreases events.len(),
{
    if events.len() == 0 {
        lemma_advance_eof::<E>(pending);
        assert(pending + arrived(events) =~= pending);
        assert(decode_all(Seq::<u8>::empty()) =~= Seq::empty());
        if pending.len() > 0 {
            let item = decode_next(pending).0->0;
            assert(seq![item] + Seq::<Item>::empty() =~= seq![item]);
        }
    } else {
        let rest = events.drop_first();
        let (after, progress) = advance(pending, events[0]);
        match events[0] {
            ReadView::Data(chunk) => {
                lemma_advance_data::<E>(pending, chunk, arrived(rest));
                law_cuts_do_not_matter(after, rest);
                assert(pending + (chunk + arrived(rest)) =~= pending + chunk + arrived(rest));
                if progress is More {
                    assert(yielded(progress) + yielded_over(after, rest) =~= yielded_over(
                        after,
                        rest,
                    ));
                } else {
                    assert(after + arrived(rest) =~= arrived(rest));
                }
            },
            _ => {
                law_cuts_do_not_matter(after, rest);
                assert(Seq::<u8>::empty() + arrived(rest) =~= arrived(rest));
                assert(yielded(progress) + yielded_over(after, rest) =~= yielded_over(
                    after,
                    rest,
                ));
            },
        }
    }
}

/// A channel delivers what was sent: frames written one after the other are
/// what the reader at the other end yields, all of them and in order, however
/// the channel cuts them into reads.
pub proof fn law_channel_delivers_what_was_sent<E>(
    frames: Seq<FrameView>,
    events: Seq<ReadView<E>>,
)
    requires
        forall|i: int| 0 <= i < frames.len() ==> (#[trigger] frames[i]).fits(),
        possible(Seq::empty(), events),
        arrived(events) == encode_all(frames),
    ensures
        yielded_over(Seq::empty(), events) == frames.map_values(
            |frame: FrameView| Item::Frame(frame),
        ),
{
    law_cuts_do_not_matter(Seq::empty(), events);
    law_stream_round_trip(frames);
    assert(Seq::<u8>::empty() + arrived(events) =~= arrived(events));
}

/// A header with too large a length is refused before any payload is read: the
/// error tells the length, and reading goes on behind the header.
pub proof fn law_oversized_header_is_refused(byte: u8, len: u16, rest: Seq<u8>)
    requires
        len > MAX_PAYLOAD,
    ensures
        ({
            let header = seq![byte] + crate::frame::le16(len);
            &&& decode_next(header + rest) matches (Some(Item::Invalid(error)), left)
            &&& left == rest
            &&& error.kind is InvalidInput
            &&& crate::text::tells(
                error.message,
                "payload too large: "@,
                len as nat,
                " bytes (max 16381)"@,
            )
        }),
{
    let header = seq![byte] + crate::frame::le16(len);
    let bytes = header + rest;
    crate::frame::law_le16_is_little_endian(len, 0, 0);
    assert(bytes[1] == crate::frame::le16(len)[0]);
    assert(bytes[2] == crate::frame::le16(len)[1]);
    assert(payload_len(bytes) == len);
    assert(bytes.skip(3) =~= rest);
    crate::frame::law_refusal_tells_the_size(len as nat);
}

/// A failure of the stream is handed on as it is, and an interruption changes
/// nothing: neither makes up a frame.
pub proof fn law_failures_are_handed_on<E>(pending: Seq<u8>, error: E)
    ensures
        advance(pending, ReadView::Failed(error)) == (
            Seq::<u8>::empty(),
            ProgressView::Failed(error),
        ),
        advance(pending, ReadView::<E>::Interrupted) == (pending, ProgressView::<E>::More),
        pending.len() == 0 ==> advance(pending, ReadView::<E>::Eof).1 == ProgressView::<E>::End,
        pending.len() > 0 ==> (advance(pending, ReadView::<E>::Eof).1 matches ProgressView::Invalid(
            error,
        ) && error.kind is UnexpectedEof),
{
}

/// A frame that arrives in one piece behind its header is complete with its last
/// byte and no earlier.
pub proof fn law_frame_is_complete_with_its_last_byte<E>(frame: FrameView, kept: int)
    requires
        frame.fits(),
        3 <= kept < frame.encoded().len(),
    ensures
        advance(
            frame.encoded().take(kept),
            ReadView::<E>::Data(frame.encoded().skip(kept)),
        ) == (Seq::<u8>::empty(), ProgressView::<E>::Frame(frame)),
        goal(frame.encoded().take(kept)) == frame.encoded().len(),
{
    let bytes = frame.encoded();
    let front = bytes.take(kept);
    crate::frame::law_le16_is_little_endian(frame.payload.len() as u16, 0, 0);
    crate::frame::law_type_round_trip(frame.frame_type);
    assert(front + bytes.skip(kept) =~= bytes);
    assert(front[1] == bytes[1] && front[2] == bytes[2]);
    assert(payload_len(bytes) == frame.payload.len());
    assert(bytes.skip(3) =~= frame.payload);
}

} // verus!
