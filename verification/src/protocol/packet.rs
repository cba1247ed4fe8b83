use vstd::prelude::*;

use byteorder::{ByteOrder, LittleEndian};

use super::command::Command;

verus! {

/// First byte of every frame, in both directions.
pub const FRAME_START: u8 = 0x01;

/// Last byte of every frame, in both directions.
pub const FRAME_END: u8 = 0x02;

/// Command byte that marks a frame sent by the device as a response.
pub const RESPONSE_COMMAND_BYTE: u8 = 0x04;

/// Status byte by which the device acknowledges a command.
pub const ACK_BYTE: u8 = 0x55;

/// Sum of the bytes of `s`, as a natural number.
pub open spec fn byte_sum(s: Seq<u8>) -> nat
    decreases s.len(),
{
    if s.len() == 0 {
        0
    } else {
        byte_sum(s.drop_last()) + s.last() as nat
    }
}

/// The sum of a concatenation is the sum of its parts.
pub proof fn lemma_byte_sum_concat(a: Seq<u8>, b: Seq<u8>)
    ensures
        byte_sum(a + b) == byte_sum(a) + byte_sum(b),
    decreases b.len(),
{
    if b.len() == 0 {
        assert(a + b =~= a);
    } else {
        lemma_byte_sum_concat(a, b.drop_last());
        assert((a + b).drop_last() =~= a + b.drop_last());
    }
}

/// No byte exceeds 255, so neither does the sum exceed 255 per byte.
pub proof fn lemma_byte_sum_bound(s: Seq<u8>)
    ensures
        byte_sum(s) <= 255 * s.len(),
    decreases s.len(),
{
    if s.len() > 0 {
        lemma_byte_sum_bound(s.drop_last());
    }
}

/// Two bytes that encode `n` (0 <= n < 65536) least significant byte first.
pub open spec fn le16(n: int) -> Seq<u8> {
    seq![(n % 256) as u8, (n / 256) as u8]
}

/// The 16-bit value encoded by `lo` and `hi`, least significant byte first.
pub open spec fn le16_value(lo: u8, hi: u8) -> int {
    lo as int + 256 * hi as int
}

/// `LittleEndian::write_u16` (byteorder) on a two-byte buffer: the buffer
/// then holds `n` least significant byte first.
#[verifier::external_body]
fn le_bytes_of(n: u16) -> (b: [u8; 2])
    ensures
        b@ == le16(n as int),
{
    let mut b = [0u8; 2];
    LittleEndian::write_u16(&mut b, n);
    b
}

/// `LittleEndian::read_u16` (byteorder) on the two bytes at `pos`: the
/// 16-bit value they encode, least significant byte first.
#[verifier::external_body]
fn le_read_u16(buf: &[u8], pos: usize) -> (n: u16)
    requires
        pos + 2 <= buf@.len(),
    ensures
        n as int == le16_value(buf@[pos as int], buf@[pos + 1]),
{
    LittleEndian::read_u16(&buf[pos..])
}

/// Appends the bytes of `src` to `dst`.
fn append_bytes(dst: &mut Vec<u8>, src: &[u8])
    ensures
        final(dst)@ == old(dst)@ + src@,
{
    let n = src.len();
    let mut i: usize = 0;
    while i < n
        invariant
            n == src@.len(),
            i <= n,
            dst@ == old(dst)@ + src@.subrange(0, i as int),
        decreases n - i,
    {
        dst.push(src[i]);
        i = i + 1;
        assert(src@.subrange(0, i as int) =~= src@.subrange(0, i - 1).push(src@[i - 1]));
    }
    assert(src@.subrange(0, n as int) =~= src@);
}

/// Sums the bytes of `buffer` in 16 bits.
fn checksum_from_buffer(buffer: &[u8]) -> (sum: u16)
    requires
        byte_sum(buffer@) <= u16::MAX,
    ensures
        sum == byte_sum(buffer@),
{
    let n = buffer.len();
    let mut acc: u16 = 0;
    let mut i: usize = 0;
    while i < n
        invariant
            n == buffer@.len(),
            i <= n,
            byte_sum(buffer@) <= u16::MAX,
            acc == byte_sum(buffer@.subrange(0, i as int)),
        decreases n - i,
    {
        proof {
            let pre = buffer@.subrange(0, i + 1);
            assert(pre.drop_last() =~= buffer@.subrange(0, i as int));
            lemma_byte_sum_concat(pre, buffer@.subrange(i + 1, n as int));
            assert(pre + buffer@.subrange(i + 1, n as int) =~= buffer@);
        }
        acc = acc + buffer[i] as u16;
        i = i + 1;
    }
    assert(buffer@.subrange(0, n as int) =~= buffer@);
    acc
}

/// A command packet sent from the host to the device.
#[derive(Debug)]
pub struct Packet {
    pub command: Command,
    pub payload: Vec<u8>,
}

impl Packet {
    /// The length field: the payload length (taken modulo 2^16) plus the
    /// command byte and the two checksum bytes.
    pub open spec fn length_field(&self) -> int {
        (self.payload@.len() % 65536) as int + 3
    }

    /// The bytes covered by the checksum: length field, command byte, payload.
    pub open spec fn body(&self) -> Seq<u8> {
        le16(self.length_field()) + seq![self.command.spec_value()] + self.payload@
    }

    /// The frame of this packet: start byte, body, checksum of the body,
    /// end byte.
    pub open spec fn frame(&self) -> Seq<u8> {
        seq![FRAME_START] + self.body() + le16(byte_sum(self.body()) as int) + seq![FRAME_END]
    }

    /// The length field and the checksum both fit in 16 bits.
    pub open spec fn serializable(&self) -> bool {
        &&& self.payload@.len() % 65536 <= u16::MAX - 3
        &&& byte_sum(self.body()) <= u16::MAX
    }

    /// Encodes the packet as a frame.
    pub fn serialize(&self) -> (bytes: Vec<u8>)
        requires
            self.serializable(),
        ensures
            bytes@ == self.frame(),
    {
        let length: u16 = (self.payload.len() % 65536) as u16 + 3;
        let mut buffer: Vec<u8> = Vec::new();
        buffer.push(FRAME_START);
        let length_bytes = le_bytes_of(length);
        buffer.push(length_bytes[0]);
        buffer.push(length_bytes[1]);
        buffer.push(self.command.value());
        append_bytes(&mut buffer, self.payload.as_slice());
        let checksum_bytes = le_bytes_of(self.checksum());
        buffer.push(checksum_bytes[0]);
        buffer.push(checksum_bytes[1]);
        buffer.push(FRAME_END);
        assert(buffer@ =~= self.frame());
        buffer
    }

    /// Whether `serialize` is defined on the packet.
    pub fn can_serialize(&self) -> (b: bool)
        ensures
            b == self.serializable(),
    {
        if self.payload.len() % 65536 > 65532 {
            return false;
        }
        let length: u16 = (self.payload.len() % 65536) as u16 + 3;
        let length_bytes = le_bytes_of(length);
        let mut sum: u64 = length_bytes[0] as u64 + length_bytes[1] as u64 + self.command.value() as u64;
        assert(sum <= 0xffff);
        let ghost head = le16(self.length_field()) + seq![self.command.spec_value()];
        proof {
            reveal_with_fuel(byte_sum, 4);
            assert(head.drop_last().drop_last().drop_last() =~= Seq::<u8>::empty());
            assert(head.drop_last().drop_last() =~= seq![head[0]]);
            assert(head.drop_last() =~= seq![head[0], head[1]]);
        }
        let n = self.payload.len();
        let mut i: usize = 0;
        while i < n
            invariant
                n == self.payload@.len(),
                i <= n,
                head == le16(self.length_field()) + seq![self.command.spec_value()],
                self.payload@.len() % 65536 <= 65532,
                sum == byte_sum(head) + byte_sum(self.payload@.subrange(0, i as int)),
                sum <= 0xffff,
            decreases n - i,
        {
            proof {
                assert(self.payload@.subrange(0, i + 1).drop_last() =~= self.payload@.subrange(0, i as int));
            }
            sum = sum + self.payload[i] as u64;
            if sum > 0xffff {
                proof {
                    lemma_byte_sum_concat(self.payload@.subrange(0, i + 1), self.payload@.subrange(i + 1, n as int));
                    assert(self.payload@.subrange(0, i + 1) + self.payload@.subrange(i + 1, n as int) =~= self.payload@);
                    lemma_byte_sum_concat(head, self.payload@);
                    assert(self.body() =~= head + self.payload@);
                }
                return false;
            }
            i = i + 1;
        }
        proof {
            assert(self.payload@.subrange(0, n as int) =~= self.payload@);
            lemma_byte_sum_concat(head, self.payload@);
            assert(self.body() =~= head + self.payload@);
        }
        true
    }

    /// The checksum of the packet: the sum of the bytes of its body.
    fn checksum(&self) -> (sum: u16)
        requires
            self.serializable(),
        ensures
            sum == byte_sum(self.body()),
    {
        let length: u16 = (self.payload.len() % 65536) as u16 + 3;
        let mut buffer: Vec<u8> = Vec::new();
        let length_bytes = le_bytes_of(length);
        buffer.push(length_bytes[0]);
        buffer.push(length_bytes[1]);
        buffer.push(self.command.value());
        append_bytes(&mut buffer, self.payload.as_slice());
        assert(buffer@ =~= self.body());
        checksum_from_buffer(buffer.as_slice())
    }
}

/// Why a frame received from the device was refused.
#[derive(Debug, Clone, Copy, PartialEq, Eq, Structural)]
pub enum ResponseError {
    /// Fewer than seven bytes.
    TooShort,
    /// The first byte is not the start byte; it is given.
    InvalidStartByte(u8),
    /// The last byte is not the end byte; it is given.
    InvalidEndByte(u8),
    /// The length field does not match the frame's size.
    LengthMismatch { field: u16, actual: usize },
    /// The command byte is not the response marker; it is given.
    NotAResponse(u8),
    /// The checksum field differs from the sum of the checked bytes.
    ChecksumMismatch { expected: u16, received: u16 },
}

/// A response frame sent by the device.
#[derive(Debug)]
pub struct Response {
    pub original_command: u8,
    pub ack: bool,
    pub data: Vec<u8>,
}

/// The content of a response, as plain values.
pub struct ResponseView {
    pub original_command: u8,
    pub ack: bool,
    pub data: Seq<u8>,
}

impl View for Response {
    type V = ResponseView;

    open spec fn view(&self) -> ResponseView {
        ResponseView { original_command: self.original_command, ack: self.ack, data: self.data@ }
    }
}

/// The length field of a frame.
pub open spec fn frame_length_field(b: Seq<u8>) -> int {
    le16_value(b[1], b[2])
}

/// Every check on the frame but the checksum passes: size, start and end
/// bytes, length field and the response marker.
pub open spec fn response_header_ok(b: Seq<u8>) -> bool {
    &&& b.len() >= 7
    &&& b[0] == FRAME_START
    &&& b.last() == FRAME_END
    &&& b.len() == frame_length_field(b) + 4
    &&& b[3] == RESPONSE_COMMAND_BYTE
}

/// The bytes that the checksum of a frame covers: all but the start byte,
/// the checksum and the end byte.
pub open spec fn checked_bytes(b: Seq<u8>) -> Seq<u8> {
    b.subrange(1, b.len() - 3)
}

/// The checksum field of a frame.
pub open spec fn checksum_field(b: Seq<u8>) -> int {
    le16_value(b[b.len() - 3], b[b.len() - 2])
}

/// `deserialize` is defined on `b`: where the header checks pass, the
/// checked bytes sum to at most 16 bits, and a frame whose checksum matches
/// holds the command and status bytes before its checksum.
pub open spec fn deserialize_defined(b: Seq<u8>) -> bool {
    response_header_ok(b) ==> {
        &&& byte_sum(checked_bytes(b)) <= u16::MAX
        &&& checksum_field(b) == byte_sum(checked_bytes(b)) ==> b.len() >= 9
    }
}

/// What `Response::deserialize` gives for the frame `b`.
pub open spec fn spec_deserialize(b: Seq<u8>) -> Result<ResponseView, ResponseError> {
    if b.len() < 7 {
        Err(ResponseError::TooShort)
    } else if b[0] != FRAME_START {
        Err(ResponseError::InvalidStartByte(b[0]))
    } else if b.last() != FRAME_END {
        Err(ResponseError::InvalidEndByte(b.last()))
    } else if b.len() != frame_length_field(b) + 4 {
        Err(
            ResponseError::LengthMismatch {
                field: frame_length_field(b) as u16,
                actual: (b.len() - 4) as usize,
            },
        )
    } else if b[3] != RESPONSE_COMMAND_BYTE {
        Err(ResponseError::NotAResponse(b[3]))
    } else if checksum_field(b) != byte_sum(checked_bytes(b)) {
        Err(
            ResponseError::ChecksumMismatch {
                expected: byte_sum(checked_bytes(b)) as u16,
                received: checksum_field(b) as u16,
            },
        )
    } else {
        Ok(
            ResponseView {
                original_command: b[4],
                ack: b[5] == ACK_BYTE,
                data: b.subrange(6, b.len() - 3),
            },
        )
    }
}

/// The frame in which the device answers `command` with status byte
/// `status` and the bytes `data`.
pub open spec fn response_body(command: u8, status: u8, data: Seq<u8>) -> Seq<u8> {
    le16(data.len() + 5int) + seq![RESPONSE_COMMAND_BYTE, command, status] + data
}

/// The full response frame: start byte, body, checksum, end byte.
pub open spec fn response_frame(command: u8, status: u8, data: Seq<u8>) -> Seq<u8> {
    let body = response_body(command, status, data);
    seq![FRAME_START] + body + le16(byte_sum(body) as int) + seq![FRAME_END]
}

impl Response {
    /// Decodes a response frame.
    pub fn deserialize(bytes: &[u8]) -> (r: Result<Response, ResponseError>)
        requires
            deserialize_defined(bytes@),
        ensures
            match r {
                Ok(resp) => spec_deserialize(bytes@) == Ok::<ResponseView, ResponseError>(resp@),
                Err(e) => spec_deserialize(bytes@) == Err::<ResponseView, ResponseError>(e),
            },
    {
        let n = bytes.len();
        if n < 7 {
            return Err(ResponseError::TooShort);
        }
        if bytes[0] != FRAME_START {
            return Err(ResponseError::InvalidStartByte(bytes[0]));
        }
        if bytes[n - 1] != FRAME_END {
            return Err(ResponseError::InvalidEndByte(bytes[n - 1]));
        }
        let length = le_read_u16(bytes, 1);
        if n != length as usize + 4 {
            return Err(ResponseError::LengthMismatch { field: length, actual: n - 4 });
        }
        if bytes[3] != RESPONSE_COMMAND_BYTE {
            return Err(ResponseError::NotAResponse(bytes[3]));
        }
        let expected_checksum = checksum_from_buffer(&bytes[1..n - 3]);
        let actual_checksum = le_read_u16(bytes, n - 3);
        if actual_checksum != expected_checksum {
            return Err(
                ResponseError::ChecksumMismatch {
                    expected: expected_checksum,
                    received: actual_checksum,
                },
            );
        }
        let original_command = bytes[4];
        let ack = bytes[5] == ACK_BYTE;
        let mut data: Vec<u8> = Vec::new();
        append_bytes(&mut data, &bytes[6..n - 3]);
        let resp = Response { original_command, ack, data };
        assert(resp@.data =~= bytes@.subrange(6, n - 3));
        Ok(resp)
    }

    /// Whether `deserialize` is defined on `bytes`.
    pub fn deserializable(bytes: &[u8]) -> (r: bool)
        ensures
            r == deserialize_defined(bytes@),
    {
        let n = bytes.len();
        if n < 7 || bytes[0] != FRAME_START || bytes[n - 1] != FRAME_END {
            return true;
        }
        let length = le_read_u16(bytes, 1);
        if n != length as usize + 4 || bytes[3] != RESPONSE_COMMAND_BYTE {
            return true;
        }
        let mut sum: u64 = 0;
        let mut i: usize = 1;
        while i < n - 3
            invariant
                n == bytes@.len(),
                7 <= n <= 65539,
                1 <= i <= n - 3,
                sum == byte_sum(bytes@.subrange(1, i as int)),
                sum <= 255 * i,
            decreases n - 3 - i,
        {
            proof {
                assert(bytes@.subrange(1, i + 1).drop_last() =~= bytes@.subrange(1, i as int));
            }
            sum = sum + bytes[i] as u64;
            i = i + 1;
        }
        if sum > 0xffff {
            return false;
        }
        let checksum = le_read_u16(bytes, n - 3);
        !(checksum as u64 == sum && n < 9)
    }
}

/// A response frame built by the device is decoded back into its command,
/// its acknowledgement and its data.
pub proof fn lemma_response_frame_roundtrip(command: u8, status: u8, data: Seq<u8>)
    requires
        data.len() + 5 <= u16::MAX,
        byte_sum(response_body(command, status, data)) <= u16::MAX,
    ensures
        deserialize_defined(response_frame(command, status, data)),
        spec_deserialize(response_frame(command, status, data)) == Ok::<ResponseView, ResponseError>(
            ResponseView { original_command: command, ack: status == ACK_BYTE, data },
        ),
{
    let body = response_body(command, status, data);
    let b = response_frame(command, status, data);
    assert(checked_bytes(b) =~= body);
    assert(b.subrange(6, b.len() - 3) =~= data);
}

/// A frame that decodes successfully is exactly the response frame of its
/// command, its status byte and its data: the encoding is unique.
pub proof fn lemma_response_frame_unique(b: Seq<u8>)
    requires
        deserialize_defined(b),
        spec_deserialize(b) is Ok,
    ensures
        b == response_frame(
            spec_deserialize(b)->Ok_0.original_command,
            b[5],
            spec_deserialize(b)->Ok_0.data,
        ),
{
    let v = spec_deserialize(b)->Ok_0;
    let body = response_body(v.original_command, b[5], v.data);
    assert(checked_bytes(b) =~= body);
    assert(b =~= response_frame(v.original_command, b[5], v.data));
}

/// A serialized command packet is never taken for a response: decoding it
/// stops at the response marker and names the packet's command byte.
pub proof fn lemma_packet_frame_is_not_a_response(p: Packet)
    requires
        p.serializable(),
        p.payload@.len() < 65536,
    ensures
        deserialize_defined(p.frame()),
        spec_deserialize(p.frame()) == Err::<ResponseView, ResponseError>(
            ResponseError::NotAResponse(p.command.spec_value()),
        ),
{
    let b = p.frame();
    let n = p.payload@.len() as int;
    lemma_le16_roundtrip(n + 3);
    assert(b.len() == n + 7);
    assert(b[1] == le16(n + 3)[0] && b[2] == le16(n + 3)[1]);
    assert(frame_length_field(b) == n + 3);
    assert(b[3] == p.command.spec_value());
    assert(b.last() == FRAME_END);
}

/// A serialized packet passes the integrity checks that frames undergo: its
/// length field is its size minus four, and its checksum field is the sum of
/// the bytes between the start byte and the checksum.
pub proof fn lemma_packet_frame_integrity(p: Packet)
    requires
        p.serializable(),
        p.payload@.len() < 65536,
    ensures
        p.frame().len() == frame_length_field(p.frame()) + 4,
        checked_bytes(p.frame()) == p.body(),
        checksum_field(p.frame()) == byte_sum(checked_bytes(p.frame())),
{
    let b = p.frame();
    let n = p.payload@.len() as int;
    lemma_le16_roundtrip(n + 3);
    lemma_le16_roundtrip(byte_sum(p.body()) as int);
    assert(checked_bytes(b) =~= p.body());
    assert(b[b.len() - 3] == le16(byte_sum(p.body()) as int)[0]);
    assert(b[b.len() - 2] == le16(byte_sum(p.body()) as int)[1]);
}

/// Decoding two little-endian bytes gives back the value they encode.
pub proof fn lemma_le16_roundtrip(n: int)
    requires
        0 <= n <= u16::MAX,
    ensures
        le16_value(le16(n)[0], le16(n)[1]) == n,
{
}

} // verus!
