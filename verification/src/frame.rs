//! Frames of the serial multiplexer and their wire form.
//!
//! A single byte stream carries multiple logical channels. Every frame names
//! its type in one byte and carries a payload; the type determines what the
//! payload means. All integers are little-endian:
//!
//! ```text
//! +------------+----------------+----------+
//! | type:1     | payload_len:2  | payload  |
//! +------------+----------------+----------+
//! ```
//!
//! `payload_len` does not include the 3-byte header. The channel is assumed
//! reliable: no CRC, no magic byte, no resync.
use crate::error::{Error, ErrorKind, ErrorView};
use crate::text::{lemma_tells, tells, to_decimal};
use vstd::prelude::*;

verus! {

/// Maximum size of a whole frame on the wire (header + payload).
pub const MAX_FRAME_SIZE: usize = 16384;

/// Size of the header in front of every payload.
pub const HEADER_SIZE: usize = 3;

/// Maximum payload length: a frame minus its 3-byte header.
pub const MAX_PAYLOAD: usize = MAX_FRAME_SIZE - HEADER_SIZE;

/// Logical frame types carried over the single byte stream.
#[derive(Debug, Clone, Copy, PartialEq, Eq, Structural)]
pub enum FrameType {
    /// any type value that is none of the below
    Unknown,
    /// opens a session (listener: client)
    Start,
    /// stdin bytes for the shell (listener: server)
    Stdin,
    /// stdout bytes from the shell (listener: client)
    Stdout,
    /// stderr bytes from the shell (listener: client)
    Stderr,
    /// terminal resize `cols:u16, rows:u16` (listener: server)
    Resize,
    /// exit code of the shell process `code:i32` (listener: client)
    Exit,
}

impl FrameType {
    /// The byte that stands for the type on the wire.
    pub open spec fn wire_byte(self) -> u8 {
        match self {
            FrameType::Unknown => 0,
            FrameType::Start => 1,
            FrameType::Stdin => 2,
            FrameType::Stdout => 3,
            FrameType::Stderr => 4,
            FrameType::Resize => 5,
            FrameType::Exit => 6,
        }
    }

    /// The type that a byte on the wire stands for.
    pub open spec fn of_wire_byte(byte: u8) -> FrameType {
        if byte == 1 {
            FrameType::Start
        } else if byte == 2 {
            FrameType::Stdin
        } else if byte == 3 {
            FrameType::Stdout
        } else if byte == 4 {
            FrameType::Stderr
        } else if byte == 5 {
            FrameType::Resize
        } else if byte == 6 {
            FrameType::Exit
        } else {
            FrameType::Unknown
        }
    }

    /// The name of the type.
    pub open spec fn name_text(self) -> Seq<char> {
        match self {
            FrameType::Unknown => "Unknown"@,
            FrameType::Start => "Start"@,
            FrameType::Stdin => "Stdin"@,
            FrameType::Stdout => "Stdout"@,
            FrameType::Stderr => "Stderr"@,
            FrameType::Resize => "Resize"@,
            FrameType::Exit => "Exit"@,
        }
    }

    /// The byte that stands for the type on the wire.
    pub fn code(self) -> (byte: u8)
        ensures
            byte == self.wire_byte(),
    {
        match self {
            FrameType::Unknown => 0,
            FrameType::Start => 1,
            FrameType::Stdin => 2,
            FrameType::Stdout => 3,
            FrameType::Stderr => 4,
            FrameType::Resize => 5,
            FrameType::Exit => 6,
        }
    }

    /// The name of the type, as messages show it.
    pub fn name(self) -> (name: &'static str)
        ensures
            name@ == self.name_text(),
    {
        match self {
            FrameType::Unknown => "Unknown",
            FrameType::Start => "Start",
            FrameType::Stdin => "Stdin",
            FrameType::Stdout => "Stdout",
            FrameType::Stderr => "Stderr",
            FrameType::Resize => "Resize",
            FrameType::Exit => "Exit",
        }
    }
}

impl From<u8> for FrameType {
    fn from(value: u8) -> (frame_type: Self) {
        match value {
            1 => FrameType::Start,
            2 => FrameType::Stdin,
            3 => FrameType::Stdout,
            4 => FrameType::Stderr,
            5 => FrameType::Resize,
            6 => FrameType::Exit,
            _ => FrameType::Unknown,
        }
    }
}

impl vstd::std_specs::convert::FromSpecImpl<u8> for FrameType {
    open spec fn obeys_from_spec() -> bool {
        true
    }

    open spec fn from_spec(value: u8) -> FrameType {
        FrameType::of_wire_byte(value)
    }
}

/// The two bytes of `value`, the low one first.
pub open spec fn le16(value: u16) -> Seq<u8> {
    seq![(value % 256) as u8, (value / 256) as u8]
}

/// The value of two bytes, the low one first.
pub open spec fn of_le16(low: u8, high: u8) -> u16 {
    (low + 256 * high) as u16
}

/// The four bytes of `value` in two's complement, the low one first.
pub open spec fn le32(value: i32) -> Seq<u8> {
    let bits = if value < 0 {
        value + 0x1_0000_0000
    } else {
        value as int
    };
    seq![
        (bits % 256) as u8,
        (bits / 256 % 256) as u8,
        (bits / 65536 % 256) as u8,
        (bits / 16777216) as u8,
    ]
}

/// The value of four bytes in two's complement, the low one first.
pub open spec fn of_le32(bytes: Seq<u8>) -> i32
    recommends
        bytes.len() == 4,
{
    let bits = bytes[0] + 256 * bytes[1] + 65536 * bytes[2] + 16777216 * bytes[3];
    (if bits >= 0x8000_0000 {
        bits - 0x1_0000_0000
    } else {
        bits
    }) as i32
}

/// The error for a payload of `len` bytes where that is too many.
pub open spec fn too_large(len: nat) -> ErrorView {
    ErrorView {
        kind: ErrorKind::InvalidInput,
        message: "payload too large: "@ + crate::text::decimal(len) + " bytes (max "@
            + crate::text::decimal(MAX_PAYLOAD as nat) + ")"@,
    }
}

/// The error for a stream that ends in the middle of a frame.
pub open spec fn eof_inside() -> ErrorView {
    ErrorView {
        kind: ErrorKind::UnexpectedEof,
        message: "unexpected eof in the middle of a frame"@,
    }
}

/// Error for a payload that exceeds [`MAX_PAYLOAD`], reported as
/// [`ErrorKind::InvalidInput`].
pub fn payload_too_large(len: usize) -> (error: Error)
    ensures
        error@ == too_large(len as nat),
{
    let mut message = "payload too large: ".to_string();
    message.append(to_decimal(len as u64).as_str());
    message.append(" bytes (max ");
    message.append(to_decimal(MAX_PAYLOAD as u64).as_str());
    message.append(")");
    Error::new(ErrorKind::InvalidInput, message)
}

/// Error for an EOF reached in the middle of a frame.
pub fn unexpected_eof() -> (error: Error)
    ensures
        error@ == eof_inside(),
{
    Error::new(
        ErrorKind::UnexpectedEof,
        "unexpected eof in the middle of a frame".to_string(),
    )
}

/// A decoded message: a frame type plus its raw payload.
#[derive(Debug, Clone, PartialEq, Eq)]
pub struct Frame {
    pub frame_type: FrameType,
    pub payload: Vec<u8>,
}

/// What a [`Frame`] says.
pub struct FrameView {
    pub frame_type: FrameType,
    pub payload: Seq<u8>,
}

impl View for Frame {
    type V = FrameView;

    open spec fn view(&self) -> FrameView {
        FrameView { frame_type: self.frame_type, payload: self.payload@ }
    }
}

impl FrameView {
    /// Whether the payload is short enough for the wire.
    pub open spec fn fits(self) -> bool {
        self.payload.len() <= MAX_PAYLOAD
    }

    /// The wire form of a frame that fits.
    pub open spec fn encoded(self) -> Seq<u8> {
        seq![self.frame_type.wire_byte()] + le16(self.payload.len() as u16) + self.payload
    }

    /// The exit code in a well-formed exit frame.
    pub open spec fn exit_code(self) -> Option<i32> {
        if self.frame_type is Exit && self.payload.len() == 4 {
            Some(of_le32(self.payload))
        } else {
            None
        }
    }

    /// The columns and rows in a well-formed resize frame.
    pub open spec fn size(self) -> Option<(u16, u16)> {
        if self.frame_type is Resize && self.payload.len() == 4 {
            Some(
                (
                    of_le16(self.payload[0], self.payload[1]),
                    of_le16(self.payload[2], self.payload[3]),
                ),
            )
        } else {
            None
        }
    }

    /// A terminal resize event.
    pub open spec fn of_size(cols: u16, rows: u16) -> FrameView {
        FrameView { frame_type: FrameType::Resize, payload: le16(cols) + le16(rows) }
    }

    /// The exit code of the shell process.
    pub open spec fn of_exit_code(code: i32) -> FrameView {
        FrameView { frame_type: FrameType::Exit, payload: le32(code) }
    }
}

/// What a list of frames says.
pub open spec fn frames_view(frames: Seq<Frame>) -> Seq<FrameView> {
    frames.map_values(|frame: Frame| frame@)
}

/// The frames of one type that carry `bytes`: as few as can be, the last of them
/// alone not full.
pub open spec fn chunked(frame_type: FrameType, bytes: Seq<u8>) -> Seq<FrameView>
    decreases bytes.len(),
{
    if bytes.len() == 0 {
        Seq::empty()
    } else if bytes.len() <= MAX_PAYLOAD {
        seq![FrameView { frame_type, payload: bytes }]
    } else {
        seq![FrameView { frame_type, payload: bytes.take(MAX_PAYLOAD as int) }] + chunked(
            frame_type,
            bytes.skip(MAX_PAYLOAD as int),
        )
    }
}

/// The payloads of the frames of one type, one behind the other.
pub open spec fn payloads(frames: Seq<FrameView>, frame_type: FrameType) -> Seq<u8>
    decreases frames.len(),
{
    if frames.len() == 0 {
        Seq::empty()
    } else {
        (if frames[0].frame_type == frame_type {
            frames[0].payload
        } else {
            Seq::empty()
        }) + payloads(frames.drop_first(), frame_type)
    }
}

/// The two bytes of `value`, the low one first.
fn to_le16(value: u16) -> (bytes: (u8, u8))
    ensures
        seq![bytes.0, bytes.1] == le16(value),
{
    ((value % 256) as u8, (value / 256) as u8)
}

/// The value of two bytes, the low one first.
pub(crate) fn from_le16(low: u8, high: u8) -> (value: u16)
    ensures
        value == of_le16(low, high),
        value == low + 256 * high,
{
    low as u16 + 256 * (high as u16)
}

impl Frame {
    /// Build a frame for an arbitrary type and payload.
    pub fn new(frame_type: FrameType, payload: Vec<u8>) -> (frame: Self)
        ensures
            frame@ == (FrameView { frame_type, payload: payload@ }),
    {
        Frame { frame_type, payload }
    }

    /// stdin bytes for the shell.
    pub fn stdin(bytes: Vec<u8>) -> (frame: Self)
        ensures
            frame@ == (FrameView { frame_type: FrameType::Stdin, payload: bytes@ }),
    {
        Self::new(FrameType::Stdin, bytes)
    }

    /// The end of the shell's stdin: a stdin frame without a payload.
    pub fn stdin_eof() -> (frame: Self)
        ensures
            frame@ == (FrameView { frame_type: FrameType::Stdin, payload: Seq::empty() }),
    {
        Self::stdin(Vec::new())
    }

    /// stdout bytes from the shell.
    pub fn stdout(bytes: Vec<u8>) -> (frame: Self)
        ensures
            frame@ == (FrameView { frame_type: FrameType::Stdout, payload: bytes@ }),
    {
        Self::new(FrameType::Stdout, bytes)
    }

    /// stderr bytes from the shell.
    pub fn stderr(bytes: Vec<u8>) -> (frame: Self)
        ensures
            frame@ == (FrameView { frame_type: FrameType::Stderr, payload: bytes@ }),
    {
        Self::new(FrameType::Stderr, bytes)
    }

    /// A terminal resize event.
    pub fn resize(cols: u16, rows: u16) -> (frame: Self)
        ensures
            frame@ == FrameView::of_size(cols, rows),
    {
        let mut payload: Vec<u8> = Vec::with_capacity(4);
        let (cols_low, cols_high) = to_le16(cols);
        let (rows_low, rows_high) = to_le16(rows);
        payload.push(cols_low);
        payload.push(cols_high);
        payload.push(rows_low);
        payload.push(rows_high);
        assert(payload@ =~= seq![cols_low, cols_high] + seq![rows_low, rows_high]);
        Self::new(FrameType::Resize, payload)
    }

    /// The exit code of the shell process.
    pub fn exit(code: i32) -> (frame: Self)
        ensures
            frame@ == FrameView::of_exit_code(code),
    {
        let bits: u64 = if code < 0 {
            (code as i64 + 0x1_0000_0000) as u64
        } else {
            code as u64
        };
        let mut payload: Vec<u8> = Vec::with_capacity(4);
        payload.push((bits % 256) as u8);
        payload.push((bits / 256 % 256) as u8);
        payload.push((bits / 65536 % 256) as u8);
        payload.push((bits / 16777216) as u8);
        assert(payload@ =~= le32(code));
        Self::new(FrameType::Exit, payload)
    }

    /// Cut `bytes` into frames of the given type.
    pub fn chunks(frame_type: FrameType, bytes: Vec<u8>) -> (frames: Vec<Self>)
        ensures
            frames_view(frames@) == chunked(frame_type, bytes@),
    {
        let ghost whole = bytes@;
        let mut rest = bytes;
        let mut frames: Vec<Frame> = Vec::new();
        assert(frames_view(frames@) + chunked(frame_type, rest@) =~= chunked(frame_type, whole));
        while rest.len() > MAX_PAYLOAD
            invariant
                frames_view(frames@) + chunked(frame_type, rest@) == chunked(frame_type, whole),
            decreases rest@.len(),
        {
            let ghost before = rest@;
            let ghost done = frames_view(frames@);
            let behind = rest.split_off(MAX_PAYLOAD);
            assert(rest@ =~= before.take(MAX_PAYLOAD as int));
            assert(behind@ =~= before.skip(MAX_PAYLOAD as int));
            let frame = Self::new(frame_type, rest);
            let ghost first = frame@;
            frames.push(frame);
            rest = behind;
            assert(frames_view(frames@) =~= done.push(first));
            assert(done + (seq![first] + chunked(frame_type, rest@)) =~= frames_view(frames@)
                + chunked(frame_type, rest@));
        }
        let ghost done = frames_view(frames@);
        if rest.len() > 0 {
            let frame = Self::new(frame_type, rest);
            let ghost last = frame@;
            frames.push(frame);
            assert(frames_view(frames@) =~= done + seq![last]);
        } else {
            assert(frames_view(frames@) =~= done + Seq::<FrameView>::empty());
        }
        frames
    }

    /// Decode an exit payload, if this frame is a well-formed exit.
    pub fn as_exit(&self) -> (code: Option<i32>)
        ensures
            code == self@.exit_code(),
    {
        if self.frame_type == FrameType::Exit && self.payload.len() == 4 {
            let bits: i64 = self.payload[0] as i64 + 256 * (self.payload[1] as i64) + 65536 * (
            self.payload[2] as i64) + 16777216 * (self.payload[3] as i64);
            if bits >= 0x8000_0000 {
                Some((bits - 0x1_0000_0000) as i32)
            } else {
                Some(bits as i32)
            }
        } else {
            None
        }
    }

    /// Decode a resize payload, if this frame is a well-formed resize.
    pub fn as_resize(&self) -> (size: Option<(u16, u16)>)
        ensures
            size == self@.size(),
    {
        if self.frame_type == FrameType::Resize && self.payload.len() == 4 {
            let cols = from_le16(self.payload[0], self.payload[1]);
            let rows = from_le16(self.payload[2], self.payload[3]);
            Some((cols, rows))
        } else {
            None
        }
    }

    /// Serialize the frame to the end of `w`. An oversized payload is rejected
    /// and leaves `w` as it was.
    pub fn write_to(&self, w: &mut Vec<u8>) -> (written: Result<(), Error>)
        ensures
            written is Ok <==> self@.fits(),
            written is Ok ==> final(w)@ == old(w)@ + self@.encoded(),
            written matches Err(error) ==> error@ == too_large(self@.payload.len()) && final(w)@
                == old(w)@,
    {
        if self.payload.len() > MAX_PAYLOAD {
            return Err(payload_too_large(self.payload.len()));
        }
        let len: u16 = self.payload.len() as u16;
        let (len_low, len_high) = to_le16(len);
        w.push(self.frame_type.code());
        w.push(len_low);
        w.push(len_high);
        w.extend_from_slice(self.payload.as_slice());
        assert(w@ =~= old(w)@ + self@.encoded());
        Ok(())
    }
}

/// The bytes of a length, read back, give the length.
pub proof fn law_le16_round_trip(value: u16)
    ensures
        le16(value).len() == 2,
        of_le16(le16(value)[0], le16(value)[1]) == value,
{
}

/// Any two bytes are the bytes of the value they stand for.
pub proof fn law_le16_is_onto(low: u8, high: u8)
    ensures
        le16(of_le16(low, high)) == seq![low, high],
{
    let value = of_le16(low, high);
    assert(value == low + 256 * high);
    assert(value % 256 == low && value / 256 == high);
}

/// A resize event decodes to the size it was made from.
pub proof fn law_resize_round_trip(cols: u16, rows: u16)
    ensures
        FrameView::of_size(cols, rows).size() == Some((cols, rows)),
        FrameView::of_size(cols, rows).fits(),
{
    law_le16_round_trip(cols);
    law_le16_round_trip(rows);
    let payload = le16(cols) + le16(rows);
    assert(payload[0] == le16(cols)[0]);
    assert(payload[1] == le16(cols)[1]);
    assert(payload[2] == le16(rows)[0]);
    assert(payload[3] == le16(rows)[1]);
}

/// An exit frame decodes to the code it was made from, negative codes
/// included.
pub proof fn law_exit_round_trip(code: i32)
    ensures
        FrameView::of_exit_code(code).exit_code() == Some(code),
        FrameView::of_exit_code(code).fits(),
{
    let bits = if code < 0 {
        code + 0x1_0000_0000
    } else {
        code as int
    };
    let bytes = le32(code);
    assert(bytes[0] == bits % 256);
    assert(bytes[1] == bits / 256 % 256);
    assert(bytes[2] == bits / 65536 % 256);
    assert(bytes[3] == bits / 16777216);
    assert(bits == bytes[0] + 256 * bytes[1] + 65536 * bytes[2] + 16777216 * bytes[3]);
}

/// No frame but an exit frame carries an exit code, none but a resize frame a
/// size: a payload is read by the type in front of it alone.
pub proof fn law_payload_is_read_by_its_type(frame: FrameView)
    ensures
        frame.exit_code() is Some ==> frame.frame_type is Exit && frame.size() is None,
        frame.size() is Some ==> frame.frame_type is Resize && frame.exit_code() is None,
        frame.frame_type is Unknown ==> frame.exit_code() is None && frame.size() is None,
{
}

/// The byte of a type stands for that type.
pub proof fn law_type_round_trip(frame_type: FrameType)
    ensures
        FrameType::of_wire_byte(frame_type.wire_byte()) == frame_type,
{
}

/// A frame that fits takes up its header and its payload, and never more than
/// the largest frame size.
pub proof fn law_encoded_size(frame: FrameView)
    requires
        frame.fits(),
    ensures
        frame.encoded().len() == HEADER_SIZE + frame.payload.len(),
        frame.encoded().len() <= MAX_FRAME_SIZE,
{
}

/// Cutting bytes into frames loses nothing and makes nothing up: each frame has
/// the type, fits and is not empty, and their payloads make up the bytes. Bytes
/// that fit in one frame are not cut.
pub proof fn law_chunks_carry_all(frame_type: FrameType, bytes: Seq<u8>)
    ensures
        forall|i: int|
            0 <= i < chunked(frame_type, bytes).len() ==> {
                let frame = #[trigger] chunked(frame_type, bytes)[i];
                frame.frame_type == frame_type && frame.fits() && frame.payload.len() > 0
            },
        payloads(chunked(frame_type, bytes), frame_type) == bytes,
        0 < bytes.len() <= MAX_PAYLOAD ==> chunked(frame_type, bytes).len() == 1,
    decreases bytes.len(),
{
    let frames = chunked(frame_type, bytes);
    if bytes.len() == 0 {
        assert(bytes =~= Seq::empty());
    } else if bytes.len() <= MAX_PAYLOAD {
        assert(frames.drop_first() =~= Seq::empty());
        assert(payloads(frames.drop_first(), frame_type) =~= Seq::empty());
        assert(payloads(frames, frame_type) =~= bytes);
    } else {
        let front = bytes.take(MAX_PAYLOAD as int);
        let rest = bytes.skip(MAX_PAYLOAD as int);
        law_chunks_carry_all(frame_type, rest);
        assert(frames.drop_first() =~= chunked(frame_type, rest));
        assert(front + rest =~= bytes);
        assert forall|i: int| 0 <= i < frames.len() implies {
            let frame = #[trigger] frames[i];
            frame.frame_type == frame_type && frame.fits() && frame.payload.len() > 0
        } by {
            if i > 0 {
                assert(frames[i] == chunked(frame_type, rest)[i - 1]);
            }
        }
    }
}

/// The payloads of frames sent in two goes are those of both, one behind the
/// other.
pub(crate) proof fn lemma_payloads_joined(
    front: Seq<FrameView>,
    back: Seq<FrameView>,
    frame_type: FrameType,
)
    ensures
        payloads(front + back, frame_type) == payloads(front, frame_type) + payloads(
            back,
            frame_type,
        ),
    decreases front.len(),
{
    if front.len() == 0 {
        assert(front + back =~= back);
        assert(Seq::<u8>::empty() + payloads(back, frame_type) =~= payloads(back, frame_type));
    } else {
        assert((front + back).drop_first() =~= front.drop_first() + back);
        lemma_payloads_joined(front.drop_first(), back, frame_type);
        assert(payloads(front + back, frame_type) =~= payloads(front, frame_type) + payloads(
            back,
            frame_type,
        ));
    }
}

/// The low byte comes first: two bytes stand for the first plus 256 times the
/// second.
pub proof fn law_le16_is_little_endian(value: u16, low: u8, high: u8)
    ensures
        le16(value).len() == 2,
        le16(value)[0] + 256 * le16(value)[1] == value,
        of_le16(low, high) == low + 256 * high,
{
}

/// The low byte comes first, and a code counts modulo 2^32: its four bytes give
/// the code itself, or the code plus 2^32 if it is negative.
pub proof fn law_le32_is_little_endian(value: i32, bytes: Seq<u8>)
    requires
        bytes.len() == 4,
    ensures
        le32(value).len() == 4,
        le32(value)[0] + 256 * le32(value)[1] + 65536 * le32(value)[2] + 16777216 * le32(value)[3]
            == (if value < 0 {
            value + 0x1_0000_0000
        } else {
            value as int
        }),
        (bytes[0] + 256 * bytes[1] + 65536 * bytes[2] + 16777216 * bytes[3]) == (if of_le32(bytes)
            < 0 {
            of_le32(bytes) + 0x1_0000_0000
        } else {
            of_le32(bytes) as int
        }),
{
    law_exit_round_trip(value);
    let all = le32(value);
    let bits = if value < 0 {
        value + 0x1_0000_0000
    } else {
        value as int
    };
    assert(all[0] == bits % 256);
    assert(all[1] == bits / 256 % 256);
    assert(all[2] == bits / 65536 % 256);
    assert(all[3] == bits / 16777216);
}

/// Any four bytes are the bytes of the value they stand for.
pub proof fn law_le32_is_onto(bytes: Seq<u8>)
    requires
        bytes.len() == 4,
    ensures
        le32(of_le32(bytes)) == bytes,
{
    let sum = bytes[0] + 256 * bytes[1] + 65536 * bytes[2] + 16777216 * bytes[3];
    let value = of_le32(bytes);
    assert(sum == (if value < 0 {
        value + 0x1_0000_0000
    } else {
        value as int
    }));
    assert(sum % 256 == bytes[0]);
    assert(sum / 256 % 256 == bytes[1]);
    assert(sum / 65536 % 256 == bytes[2]);
    assert(sum / 16777216 == bytes[3]);
    assert(le32(value) =~= bytes);
}

/// A resize payload is the columns and then the rows, an exit payload the code;
/// neither takes more than four bytes, and any four bytes are one.
pub proof fn law_payloads_of_four_bytes(frame: FrameView, cols: u16, rows: u16, code: i32)
    ensures
        FrameView::of_size(cols, rows).frame_type is Resize,
        FrameView::of_size(cols, rows).payload == le16(cols) + le16(rows),
        FrameView::of_exit_code(code).frame_type is Exit,
        FrameView::of_exit_code(code).payload == le32(code),
        frame.size() is Some <==> frame.frame_type is Resize && frame.payload.len() == 4,
        frame.exit_code() is Some <==> frame.frame_type is Exit && frame.payload.len() == 4,
        frame.size() matches Some((c, r)) ==> frame.payload == le16(c) + le16(r),
        frame.exit_code() matches Some(c) ==> frame.payload == le32(c),
{
    if let Some((c, r)) = frame.size() {
        law_le16_is_onto(frame.payload[0], frame.payload[1]);
        law_le16_is_onto(frame.payload[2], frame.payload[3]);
        assert(frame.payload =~= le16(c) + le16(r));
    }
    if let Some(c) = frame.exit_code() {
        law_le32_is_onto(frame.payload);
    }
}

/// A payload that is too large is refused as invalid input, and the error tells
/// how large it is and how large it may be.
pub proof fn law_refusal_tells_the_size(len: nat)
    ensures
        too_large(len).kind is InvalidInput,
        tells(
            too_large(len).message,
            "payload too large: "@,
            len,
            " bytes (max 16381)"@,
        ),
{
    lemma_tells("payload too large: "@, len, " bytes (max 16381)"@);
    reveal_strlit(" bytes (max ");
    reveal_strlit(")");
    reveal_strlit(" bytes (max 16381)");
    reveal_with_fuel(crate::text::decimal, 6);
    let max = crate::text::decimal(16381);
    assert(max =~= seq!['1', '6', '3', '8', '1']);
    assert(" bytes (max "@ + max + ")"@ =~= " bytes (max 16381)"@);
    assert(too_large(len).message =~= "payload too large: "@ + crate::text::decimal(len)
        + " bytes (max 16381)"@);
}

/// Bytes are cut into as few frames as can be: every frame but the last is full.
pub proof fn law_chunks_are_full(frame_type: FrameType, bytes: Seq<u8>, i: int)
    requires
        0 <= i < chunked(frame_type, bytes).len() - 1,
    ensures
        chunked(frame_type, bytes)[i].payload.len() == MAX_PAYLOAD,
    decreases bytes.len(),
{
    if i > 0 {
        let rest = bytes.skip(MAX_PAYLOAD as int);
        law_chunks_are_full(frame_type, rest, i - 1);
        assert(chunked(frame_type, bytes)[i] == chunked(frame_type, rest)[i - 1]);
    }
}

/// Each type goes by its own name and by its own byte: the byte is its place in
/// the list, any byte behind the list stands for no known type.
pub proof fn law_types_are_told_apart(a: FrameType, b: FrameType, byte: u8)
    ensures
        a.name_text() == b.name_text() ==> a == b,
        a.wire_byte() == b.wire_byte() ==> a == b,
        a.wire_byte() <= 6,
        FrameType::of_wire_byte(byte) is Unknown <==> byte == 0 || byte > 6,
        byte <= 6 ==> FrameType::of_wire_byte(byte).wire_byte() == byte,
        FrameType::Start.name_text() == "Start"@,
        FrameType::Stdin.name_text() == "Stdin"@,
        FrameType::Stdout.name_text() == "Stdout"@,
        FrameType::Stderr.name_text() == "Stderr"@,
        FrameType::Resize.name_text() == "Resize"@,
        FrameType::Exit.name_text() == "Exit"@,
        FrameType::Unknown.name_text() == "Unknown"@,
{
    reveal_strlit("Unknown");
    reveal_strlit("Start");
    reveal_strlit("Stdin");
    reveal_strlit("Stdout");
    reveal_strlit("Stderr");
    reveal_strlit("Resize");
    reveal_strlit("Exit");
    assert("Start"@ != "Stdin"@) by {
        assert("Start"@[2] != "Stdin"@[2]);
    }
    assert("Stdout"@ != "Stderr"@) by {
        assert("Stdout"@[3] != "Stderr"@[3]);
    }
    assert("Stdout"@ != "Resize"@ && "Stderr"@ != "Resize"@) by {
        assert("Stdout"@[0] != "Resize"@[0]);
        assert("Stderr"@[0] != "Resize"@[0]);
    }
    assert("Unknown"@.len() == 7 && "Start"@.len() == 5 && "Stdin"@.len() == 5 && "Stdout"@.len()
        == 6 && "Stderr"@.len() == 6 && "Resize"@.len() == 6 && "Exit"@.len() == 4);
}

} // verus!
