use vstd::prelude::*;

use crate::protocol::command::Command;
use crate::protocol::extended_command::{
    build_packet, chars_of, GET_USER_DEFINE_TIME, SET_LANGUAGE, SET_USER_DEFINE_TIME,
};
use crate::protocol::scrolling_text::ScrollingText;
use crate::protocol::packet::{
    byte_sum, le16, le16_value, lemma_byte_sum_bound, Packet, Response, FRAME_START,
};

verus! {

/// How many times a connection to the device is tried.
pub const MAX_CONNECT_ATTEMPTS: u32 = 3;

/// Pause between two packets sent to the device, in milliseconds.
pub const INTER_PACKET_DELAY_MS: u64 = 40;

/// How long to wait for the response to a command, in seconds.
pub const RESPONSE_TIMEOUT_SECS: u64 = 5;

/// The attempt to make after attempt `attempt` (counted from 1) failed to
/// connect: the next one, or `None` once `MAX_CONNECT_ATTEMPTS` were made.
pub fn next_connect_attempt(attempt: u32) -> (next: Option<u32>)
    ensures
        next == (if attempt < MAX_CONNECT_ATTEMPTS {
            Some((attempt + 1) as u32)
        } else {
            None::<u32>
        }),
{
    if attempt < MAX_CONNECT_ATTEMPTS {
        Some(attempt + 1)
    } else {
        None
    }
}

/// A request to the device that fits in one packet.
pub enum Request {
    /// Screen brightness, 0 to 100.
    SetBrightness(u8),
    /// Speaker volume.
    SetVolume(u8),
    /// Play or pause the music from the SD card.
    SetPlayStatus(bool),
    /// Ask for the speaker volume.
    GetVolume,
    /// Select a display mode; the payload is the mode's description.
    SetBoxMode(Vec<u8>),
    /// Select a clock face.
    SetClockFace(u16),
    /// Ask for the selected clock face.
    GetClockFace,
    /// Select the language of the device by its index.
    SetLanguage(u8),
}

/// The command and payload with which the device receives a request.
pub open spec fn request_packet(r: Request) -> (Command, Seq<u8>) {
    match r {
        Request::SetBrightness(b) => (Command::SetBrightness, seq![b]),
        Request::SetVolume(v) => (Command::SetVolume, seq![v]),
        Request::SetPlayStatus(playing) => (Command::SetPlayStatus, seq![if playing { 1u8 } else { 0u8 }]),
        Request::GetVolume => (Command::GetVolume, seq![]),
        Request::SetBoxMode(payload) => (Command::SetBoxMode, payload@),
        Request::SetClockFace(id) => (Command::ExtendedCommand, seq![SET_USER_DEFINE_TIME] + le16(id as int)),
        Request::GetClockFace => (Command::ExtendedCommand, seq![GET_USER_DEFINE_TIME]),
        Request::SetLanguage(index) => (Command::ExtendedCommand, seq![SET_LANGUAGE, index]),
    }
}

impl Request {
    /// The packet that carries the request.
    pub fn packet(&self) -> (p: Packet)
        ensures
            (p.command, p.payload@) == request_packet(*self),
    {
        match self {
            Request::SetBrightness(b) => Packet { command: Command::SetBrightness, payload: vec![*b] },
            Request::SetVolume(v) => Packet { command: Command::SetVolume, payload: vec![*v] },
            Request::SetPlayStatus(playing) => Packet {
                command: Command::SetPlayStatus,
                payload: vec![if *playing { 1u8 } else { 0u8 }],
            },
            Request::GetVolume => Packet { command: Command::GetVolume, payload: Vec::new() },
            Request::SetBoxMode(payload) => {
                let mut bytes: Vec<u8> = Vec::new();
                let n = payload.len();
                let mut i: usize = 0;
                while i < n
                    invariant
                        n == payload@.len(),
                        i <= n,
                        bytes@ == payload@.subrange(0, i as int),
                    decreases n - i,
                {
                    bytes.push(payload[i]);
                    i = i + 1;
                    assert(payload@.subrange(0, i as int) =~= payload@.subrange(0, i - 1).push(
                        payload@[i - 1],
                    ));
                }
                assert(payload@.subrange(0, n as int) =~= payload@);
                Packet { command: Command::SetBoxMode, payload: bytes }
            },
            Request::SetClockFace(id) => {
                let params = [(*id % 256) as u8, (*id / 256) as u8];
                let p = build_packet(SET_USER_DEFINE_TIME, params.as_slice());
                assert(p.payload@ =~= seq![SET_USER_DEFINE_TIME] + le16(*id as int));
                p
            },
            Request::GetClockFace => {
                let params: [u8; 0] = [];
                let p = build_packet(GET_USER_DEFINE_TIME, params.as_slice());
                assert(p.payload@ =~= seq![GET_USER_DEFINE_TIME]);
                p
            },
            Request::SetLanguage(index) => {
                let params = [*index];
                let p = build_packet(SET_LANGUAGE, params.as_slice());
                assert(p.payload@ =~= seq![SET_LANGUAGE, *index]);
                p
            },
        }
    }

    /// Whether the device answers the request with data that the caller
    /// waits for.
    pub fn expects_response(&self) -> (b: bool)
        ensures
            b == (*self is GetVolume || *self is GetClockFace),
    {
        match self {
            Request::GetVolume => true,
            Request::GetClockFace => true,
            _ => false,
        }
    }
}

/// Every request can be framed, a display mode whose payload has at most 250
/// bytes included: its length field and its checksum fit in 16 bits.
pub proof fn lemma_request_packet_serializable(r: Request, p: Packet)
    requires
        (p.command, p.payload@) == request_packet(r),
        r is SetBoxMode ==> p.payload@.len() <= 250,
    ensures
        p.serializable(),
{
    lemma_byte_sum_bound(p.body());
    assert(p.payload@.len() <= 250) by {
        if r is SetClockFace {
            assert(p.payload@.len() == 3);
        }
    }
}

/// What to do with a response while waiting for the answer to a command.
#[derive(Clone, Copy, Debug, PartialEq, Eq, Structural)]
pub enum ResponseAction {
    /// It answers another command: keep waiting.
    Skip,
    /// The device refused the command.
    Refused,
    /// The device accepted the command; this is its answer.
    Accept,
}

/// Decides what a response means for the command `expected_command` that
/// was sent.
pub fn classify_response(expected_command: u8, response: &Response) -> (a: ResponseAction)
    ensures
        a == (if response.original_command != expected_command {
            ResponseAction::Skip
        } else if !response.ack {
            ResponseAction::Refused
        } else {
            ResponseAction::Accept
        }),
{
    if response.original_command != expected_command {
        ResponseAction::Skip
    } else if !response.ack {
        ResponseAction::Refused
    } else {
        ResponseAction::Accept
    }
}

/// Why an answer of the device could not be read.
#[derive(Clone, Copy, Debug, PartialEq, Eq, Structural)]
pub enum AnswerError {
    /// The volume answer holds no data.
    EmptyVolume,
    /// The clock face answer holds fewer than three bytes.
    ShortClockFace,
}

/// The volume that the device reports: the first data byte of its answer.
pub fn volume_from_response(response: &Response) -> (r: Result<u8, AnswerError>)
    ensures
        match r {
            Ok(v) => response.data@.len() > 0 && v == response.data@[0],
            Err(e) => response.data@.len() == 0 && e == AnswerError::EmptyVolume,
        },
{
    if response.data.len() == 0 {
        Err(AnswerError::EmptyVolume)
    } else {
        Ok(response.data[0])
    }
}

/// The clock face that the device reports: data bytes 1 and 2 of its
/// answer, least significant first.
pub fn clock_face_from_response(response: &Response) -> (r: Result<u16, AnswerError>)
    ensures
        match r {
            Ok(id) => response.data@.len() >= 3 && id == le16_value(response.data@[1], response.data@[2]),
            Err(e) => response.data@.len() < 3 && e == AnswerError::ShortClockFace,
        },
{
    if response.data.len() < 3 {
        Err(AnswerError::ShortClockFace)
    } else {
        Ok(response.data[1] as u16 + (response.data[2] as u16) * 256)
    }
}

/// The number of bytes that follow the length field of a response frame
/// whose length field is `len_bytes`: the bytes it counts and the end byte.
pub fn response_tail_len(len_bytes: [u8; 2]) -> (n: usize)
    ensures
        n == le16_value(len_bytes[0], len_bytes[1]) + 1,
{
    len_bytes[0] as usize + (len_bytes[1] as usize) * 256 + 1
}

/// The response frame made of the start byte, the length field and the
/// bytes that followed it.
pub fn assemble_response_frame(len_bytes: [u8; 2], tail: &[u8]) -> (frame: Vec<u8>)
    ensures
        frame@ == seq![FRAME_START] + len_bytes@ + tail@,
{
    let mut frame: Vec<u8> = Vec::new();
    frame.push(FRAME_START);
    frame.push(len_bytes[0]);
    frame.push(len_bytes[1]);
    let n = tail.len();
    let mut i: usize = 0;
    while i < n
        invariant
            n == tail@.len(),
            i <= n,
            frame@ == seq![FRAME_START] + len_bytes@ + tail@.subrange(0, i as int),
        decreases n - i,
    {
        frame.push(tail[i]);
        i = i + 1;
        assert(tail@.subrange(0, i as int) =~= tail@.subrange(0, i - 1).push(tail@[i - 1]));
    }
    assert(tail@.subrange(0, n as int) =~= tail@);
    assert(len_bytes@ =~= seq![len_bytes[0], len_bytes[1]]);
    frame
}

/// Why no device was chosen among the paired ones.
#[derive(Clone, Copy, Debug, PartialEq, Eq, Structural)]
pub enum DeviceSelectionError {
    /// No paired device.
    NoneFound,
    /// More than one paired device: the user must name one.
    Several,
}

/// The device to talk to when the user names none: the only paired one.
pub fn select_device<T: Copy>(devices: &[T]) -> (r: Result<T, DeviceSelectionError>)
    ensures
        devices@.len() == 0 ==> r == Err::<T, DeviceSelectionError>(DeviceSelectionError::NoneFound),
        devices@.len() == 1 ==> r == Ok::<T, DeviceSelectionError>(devices@[0]),
        devices@.len() > 1 ==> r == Err::<T, DeviceSelectionError>(DeviceSelectionError::Several),
{
    if devices.len() == 0 {
        Err(DeviceSelectionError::NoneFound)
    } else if devices.len() == 1 {
        Ok(devices[0])
    } else {
        Err(DeviceSelectionError::Several)
    }
}

/// A display mode of the device.
pub enum BoxMode {
    /// Lighting: sub-mode (0 clock, 1 temperature, 2 colour, 3 special,
    /// 4 sound, 5 user sound, 6 music), colour, brightness, on/off.
    Light { sub_mode: u8, color: [u8; 3], brightness: u8, on: bool },
    /// Trending animations.
    Hot,
    /// Special effects of the given kind.
    Special { sub_type: u8 },
    /// Music visualizer of the given kind.
    Music { sub_type: u8 },
    /// A payload given byte by byte.
    Raw { payload: Vec<u8> },
}

/// The payload that selects a display mode.
pub open spec fn box_mode_payload(m: BoxMode) -> Seq<u8> {
    match m {
        BoxMode::Light { sub_mode, color, brightness, on } => seq![
            0x01u8,
            sub_mode,
            color[0],
            color[1],
            color[2],
            brightness,
            if on { 1u8 } else { 0u8 },
            0u8,
            0u8,
            0u8,
        ],
        BoxMode::Hot => seq![0x02u8],
        BoxMode::Special { sub_type } => seq![0x03u8, sub_type],
        BoxMode::Music { sub_type } => seq![0x04u8, sub_type, 0u8, 0u8, 0u8, 0u8, 0u8, 0u8, 0u8, 0u8],
        BoxMode::Raw { payload } => payload@,
    }
}

impl BoxMode {
    /// The payload of the request that selects this mode.
    pub fn payload(&self) -> (p: Vec<u8>)
        ensures
            p@ == box_mode_payload(*self),
    {
        match self {
            BoxMode::Light { sub_mode, color, brightness, on } => {
                let p = vec![
                    0x01u8,
                    *sub_mode,
                    color[0],
                    color[1],
                    color[2],
                    *brightness,
                    if *on { 1u8 } else { 0u8 },
                    0u8,
                    0u8,
                    0u8,
                ];
                assert(p@ =~= box_mode_payload(*self));
                p
            },
            BoxMode::Hot => {
                let p = vec![0x02u8];
                assert(p@ =~= box_mode_payload(*self));
                p
            },
            BoxMode::Special { sub_type } => {
                let p = vec![0x03u8, *sub_type];
                assert(p@ =~= box_mode_payload(*self));
                p
            },
            BoxMode::Music { sub_type } => {
                let p = vec![0x04u8, *sub_type, 0u8, 0u8, 0u8, 0u8, 0u8, 0u8, 0u8, 0u8];
                assert(p@ =~= box_mode_payload(*self));
                p
            },
            BoxMode::Raw { payload } => {
                let mut p: Vec<u8> = Vec::new();
                let n = payload.len();
                let mut i: usize = 0;
                while i < n
                    invariant
                        n == payload@.len(),
                        i <= n,
                        p@ == payload@.subrange(0, i as int),
                    decreases n - i,
                {
                    p.push(payload[i]);
                    i = i + 1;
                    assert(payload@.subrange(0, i as int) =~= payload@.subrange(0, i - 1).push(
                        payload@[i - 1],
                    ));
                }
                assert(payload@.subrange(0, n as int) =~= payload@);
                p
            },
        }
    }
}

/// Whether `needle` occurs in `hay` at position `i`.
pub open spec fn occurs_at(hay: Seq<char>, needle: Seq<char>, i: int) -> bool {
    0 <= i && i + needle.len() <= hay.len() && hay.subrange(i, i + needle.len()) == needle
}

/// The characters of "DitooPro".
pub open spec fn ditoo_pro_marker() -> Seq<char> {
    seq!['D', 'i', 't', 'o', 'o', 'P', 'r', 'o']
}

/// Whether `needle` occurs somewhere in `hay`.
pub(crate) fn contains_chars(hay: &Vec<char>, needle: &Vec<char>) -> (b: bool)
    ensures
        b == exists|i: int| occurs_at(hay@, needle@, i),
{
    let n = hay.len();
    let m = needle.len();
    if n < m {
        assert forall|j: int| !occurs_at(hay@, needle@, j) by {}
        return false;
    }
    let mut i: usize = 0;
    while i <= n - m
        invariant
            n == hay@.len(),
            m == needle@.len(),
            m <= n,
            i <= n - m + 1,
            forall|j: int| 0 <= j < i ==> !occurs_at(hay@, needle@, j),
        decreases n - m + 1 - i,
    {
        let mut k: usize = 0;
        let mut same = true;
        while k < m
            invariant
                n == hay@.len(),
                m == needle@.len(),
                i + m <= n,
                k <= m,
                same == (forall|t: int| 0 <= t < k ==> hay@[i + t] == needle@[t]),
            decreases m - k,
        {
            if hay[i + k] != needle[k] {
                same = false;
            }
            k = k + 1;
        }
        if same {
            assert(hay@.subrange(i as int, i + m) =~= needle@);
            assert(occurs_at(hay@, needle@, i as int));
            return true;
        }
        assert(!occurs_at(hay@, needle@, i as int)) by {
            if occurs_at(hay@, needle@, i as int) {
                assert forall|t: int| 0 <= t < m implies hay@[i + t] == needle@[t] by {
                    assert(hay@.subrange(i as int, i + m)[t] == hay@[i + t]);
                }
            }
        }
        i = i + 1;
    }
    assert forall|j: int| !occurs_at(hay@, needle@, j) by {}
    false
}

/// A device is taken for a Ditoo Pro when it is paired and its name
/// contains "DitooPro".
pub fn is_ditoo_pro_device(is_paired: bool, name: &str) -> (b: bool)
    ensures
        b == (is_paired && exists|i: int| occurs_at(name@, ditoo_pro_marker(), i)),
{
    if !is_paired {
        return false;
    }
    let marker: Vec<char> = vec!['D', 'i', 't', 'o', 'o', 'P', 'r', 'o'];
    assert(marker@ =~= ditoo_pro_marker());
    let chars = chars_of(name);
    contains_chars(&chars, &marker)
}

/// Frames per second at which encoded frames are played.
pub const MOVIE_FRAME_SPEED: u16 = 60;

/// The packet that stops (0) or starts (1) the playback of frames.
pub open spec fn movie_control(b: u8) -> (Command, Seq<u8>) {
    (Command::DrawingCtrlMoviePlay, seq![b])
}

/// The payload of the packet that carries one encoded frame: the speed and
/// the frame's length (modulo 2^16), both least significant byte first, then
/// the frame.
pub open spec fn movie_frame_payload(frame: Seq<u8>) -> Seq<u8> {
    le16(MOVIE_FRAME_SPEED as int) + le16((frame.len() % 65536) as int) + frame
}

/// The packets that play a scrolling text whose frames are already encoded:
/// stop, start, one packet per frame, stop.
pub fn scrolling_text_packets(text: &ScrollingText) -> (packets: Vec<Packet>)
    requires
        text.encoded_frames@.len() + 3 <= usize::MAX,
    ensures
        packets@.len() == text.encoded_frames@.len() + 3,
        (packets@[0].command, packets@[0].payload@) == movie_control(0),
        (packets@[1].command, packets@[1].payload@) == movie_control(1),
        forall|k: int|
            0 <= k < text.encoded_frames@.len() ==> (#[trigger] packets@[k + 2]).command
                == Command::DrawingEncodeMoviePlay && packets@[k + 2].payload@ == movie_frame_payload(
                text.encoded_frames@[k]@,
            ),
        (packets@[packets@.len() - 1].command, packets@[packets@.len() - 1].payload@) == movie_control(0),
{
    let mut packets: Vec<Packet> = Vec::new();
    packets.push(Packet { command: Command::DrawingCtrlMoviePlay, payload: vec![0x00] });
    packets.push(Packet { command: Command::DrawingCtrlMoviePlay, payload: vec![0x01] });
    let encoded_frames = &text.encoded_frames;
    let n = encoded_frames.len();
    let mut k: usize = 0;
    while k < n
        invariant
            n == encoded_frames@.len(),
            k <= n,
            packets@.len() == k + 2,
            (packets@[0].command, packets@[0].payload@) == movie_control(0),
            (packets@[1].command, packets@[1].payload@) == movie_control(1),
            forall|j: int|
                0 <= j < k ==> (#[trigger] packets@[j + 2]).command == Command::DrawingEncodeMoviePlay
                    && packets@[j + 2].payload@ == movie_frame_payload(encoded_frames@[j]@),
        decreases n - k,
    {
        let frame = &encoded_frames[k];
        let data_len: u16 = (frame.len() % 65536) as u16;
        let mut payload: Vec<u8> = Vec::new();
        payload.push((MOVIE_FRAME_SPEED % 256) as u8);
        payload.push((MOVIE_FRAME_SPEED / 256) as u8);
        payload.push((data_len % 256) as u8);
        payload.push((data_len / 256) as u8);
        let m = frame.len();
        let mut i: usize = 0;
        while i < m
            invariant
                m == frame@.len(),
                i <= m,
                payload@ == le16(MOVIE_FRAME_SPEED as int) + le16(data_len as int) + frame@.subrange(0, i as int),
            decreases m - i,
        {
            payload.push(frame[i]);
            i = i + 1;
            assert(frame@.subrange(0, i as int) =~= frame@.subrange(0, i - 1).push(frame@[i - 1]));
        }
        assert(frame@.subrange(0, m as int) =~= frame@);
        assert(payload@ =~= movie_frame_payload(encoded_frames@[k as int]@));
        packets.push(Packet { command: Command::DrawingEncodeMoviePlay, payload });
        k = k + 1;
    }
    packets.push(Packet { command: Command::DrawingCtrlMoviePlay, payload: vec![0x00] });
    packets
}

} // verus!
