//! Reports on the wire: the two packet shapes, their byte layout, and the
//! splitting of a message into an initialization packet and its
//! continuations.

use crate::protocol::{ErrorCode, KeepaliveStatus, CMD_ERROR, CMD_KEEPALIVE};
use vstd::arithmetic::div_mod::{lemma_fundamental_div_mod, lemma_fundamental_div_mod_converse};
use vstd::prelude::*;
use vstd::slice::{slice_subrange, slice_to_vec};

verus! {

/// Smallest report that still carries the one payload byte of an error packet.
pub const MIN_REPORT_SIZE: usize = 8;

/// Largest report whose longest message still fits the 16-bit length field.
pub const MAX_REPORT_SIZE: usize = 513;

/// Report size of a full-speed HID endpoint.
pub const DEFAULT_REPORT_SIZE: usize = 64;

/// Bytes in front of the payload of an initialization packet.
pub const INIT_HEADER_LEN: usize = 7;

/// Bytes in front of the payload of a continuation packet.
pub const CONT_HEADER_LEN: usize = 5;

/// Continuation packets that one message may use at most.
pub const MAX_CONTINUATIONS: usize = 128;

/// The report sizes that a codec can be made for.
pub open spec fn valid_report_size(r: int) -> bool {
    MIN_REPORT_SIZE <= r <= MAX_REPORT_SIZE
}

/// Payload bytes that an initialization packet carries.
pub open spec fn init_capacity(r: int) -> int {
    r - INIT_HEADER_LEN
}

/// Payload bytes that a continuation packet carries.
pub open spec fn cont_capacity(r: int) -> int {
    r - CONT_HEADER_LEN
}

/// Length of the longest message: one initialization packet and 128
/// continuation packets, all full.
pub open spec fn max_message_len(r: int) -> int {
    init_capacity(r) + MAX_CONTINUATIONS * cont_capacity(r)
}

/// Packets that a message of `len` bytes is split into.
pub open spec fn packets_needed(r: int, len: int) -> int {
    if len <= init_capacity(r) {
        1
    } else {
        1 + (len - init_capacity(r) + cont_capacity(r) - 1) / cont_capacity(r)
    }
}

/// A 32-bit value as four bytes, most significant first.
pub open spec fn be32(v: u32) -> Seq<u8> {
    seq![
        (v / 0x100_0000) as u8,
        ((v / 0x1_0000) % 0x100) as u8,
        ((v / 0x100) % 0x100) as u8,
        (v % 0x100) as u8,
    ]
}

/// The 32-bit value that four bytes spell, most significant first.
pub open spec fn be32_value(b0: u8, b1: u8, b2: u8, b3: u8) -> u32 {
    (b0 * 0x100_0000 + b1 * 0x1_0000 + b2 * 0x100 + b3) as u32
}

/// A 16-bit value as two bytes, most significant first.
pub open spec fn be16(v: u16) -> Seq<u8> {
    seq![(v / 0x100) as u8, (v % 0x100) as u8]
}

/// The 16-bit value that two bytes spell, most significant first.
pub open spec fn be16_value(b0: u8, b1: u8) -> u16 {
    (b0 * 0x100 + b1) as u16
}

/// The first `cap` bytes of `data`, followed by zeros where `data` is shorter.
pub open spec fn padded(data: Seq<u8>, cap: int) -> Seq<u8> {
    Seq::new(
        cap as nat,
        |i: int|
            if i < data.len() {
                data[i]
            } else {
                0u8
            },
    )
}

/// A command byte with the bit that marks an initialization packet set.
pub open spec fn init_command(command: u8) -> u8 {
    if command >= 0x80 {
        command
    } else {
        (command + 0x80) as u8
    }
}

/// A sequence number with the bit that marks an initialization packet cleared.
pub open spec fn cont_sequence(sequence: u8) -> u8 {
    if sequence >= 0x80 {
        (sequence - 0x80) as u8
    } else {
        sequence
    }
}

/// Why the codec turned an input down.
#[derive(Clone, Copy, Debug, PartialEq, Eq, Structural)]
pub enum CodecError {
    /// The block of bytes has not the length of a report.
    MalformedPacket,
    /// The payload is longer than the longest message.
    MessageTooLong,
}

/// One report, taken apart.
#[derive(Clone, Debug, PartialEq, Eq)]
pub enum Packet {
    /// The first fragment of a message.
    Init { channel: u32, command: u8, total_length: u16, payload: Vec<u8> },
    /// A later fragment of a message.
    Cont { channel: u32, sequence: u8, payload: Vec<u8> },
}

/// The mathematical value of a [`Packet`].
pub ghost enum PacketView {
    Init { channel: u32, command: u8, total_length: u16, payload: Seq<u8> },
    Cont { channel: u32, sequence: u8, payload: Seq<u8> },
}

impl View for Packet {
    type V = PacketView;

    open spec fn view(&self) -> PacketView {
        match *self {
            Packet::Init { channel, command, total_length, payload } => PacketView::Init {
                channel,
                command,
                total_length,
                payload: payload@,
            },
            Packet::Cont { channel, sequence, payload } => PacketView::Cont {
                channel,
                sequence,
                payload: payload@,
            },
        }
    }
}

impl PacketView {
    /// The channel that the packet is addressed to.
    pub open spec fn channel(self) -> u32 {
        match self {
            PacketView::Init { channel, .. } => channel,
            PacketView::Cont { channel, .. } => channel,
        }
    }

    /// The payload bytes of the packet, padding included.
    pub open spec fn payload(self) -> Seq<u8> {
        match self {
            PacketView::Init { payload, .. } => payload,
            PacketView::Cont { payload, .. } => payload,
        }
    }

    /// Whether the packet fills a report of `r` bytes and its type bit agrees
    /// with its shape.
    pub open spec fn fits(self, r: int) -> bool {
        match self {
            PacketView::Init { command, payload, .. } => command >= 0x80 && payload.len()
                == init_capacity(r),
            PacketView::Cont { sequence, payload, .. } => sequence < 0x80 && payload.len()
                == cont_capacity(r),
        }
    }

    /// The bytes of the report that carries the packet.
    pub open spec fn wire(self) -> Seq<u8> {
        match self {
            PacketView::Init { channel, command, total_length, payload } => be32(channel)
                + seq![command] + be16(total_length) + payload,
            PacketView::Cont { channel, sequence, payload } => be32(channel) + seq![sequence]
                + payload,
        }
    }
}

/// The packet that a block of bytes holds: none unless the block has the
/// length of a report; an initialization packet where the high bit of the
/// byte behind the channel id is set, a continuation packet where it is clear.
pub open spec fn parse(r: int, raw: Seq<u8>) -> Option<PacketView> {
    if raw.len() != r || r < INIT_HEADER_LEN {
        None
    } else if raw[4] >= 0x80 {
        Some(
            PacketView::Init {
                channel: be32_value(raw[0], raw[1], raw[2], raw[3]),
                command: raw[4],
                total_length: be16_value(raw[5], raw[6]),
                payload: raw.skip(INIT_HEADER_LEN as int),
            },
        )
    } else {
        Some(
            PacketView::Cont {
                channel: be32_value(raw[0], raw[1], raw[2], raw[3]),
                sequence: raw[4],
                payload: raw.skip(CONT_HEADER_LEN as int),
            },
        )
    }
}

/// The initialization packet for a fragment: the type bit forced on, the
/// fragment cut to the capacity and padded with zeros.
pub open spec fn init_packet(
    r: int,
    channel: u32,
    command: u8,
    total_length: u16,
    fragment: Seq<u8>,
) -> PacketView {
    PacketView::Init {
        channel,
        command: init_command(command),
        total_length,
        payload: padded(fragment, init_capacity(r)),
    }
}

/// The continuation packet for a fragment: the type bit forced off, the
/// fragment cut to the capacity and padded with zeros.
pub open spec fn cont_packet(r: int, channel: u32, sequence: u8, fragment: Seq<u8>) -> PacketView {
    PacketView::Cont {
        channel,
        sequence: cont_sequence(sequence),
        payload: padded(fragment, cont_capacity(r)),
    }
}

/// The single packet that reports a violation on a channel.
pub open spec fn error_packet(r: int, channel: u32, code: ErrorCode) -> PacketView {
    init_packet(r, channel, CMD_ERROR, 1, seq![code.wire_code()])
}

/// The single packet that tells the host a command is still running.
pub open spec fn keepalive_packet(r: int, channel: u32, status: KeepaliveStatus) -> PacketView {
    init_packet(r, channel, CMD_KEEPALIVE, 1, seq![status.wire_code()])
}

/// Offset in the message of the first byte that packet `i` carries.
pub open spec fn fragment_start(r: int, i: int) -> int {
    if i == 0 {
        0
    } else {
        init_capacity(r) + (i - 1) * cont_capacity(r)
    }
}

/// Offset in the message behind the last byte that packet `i` can carry.
pub open spec fn fragment_end(r: int, i: int) -> int {
    init_capacity(r) + i * cont_capacity(r)
}

/// The bytes of `payload` that packet `i` carries.
pub open spec fn fragment_bytes(r: int, payload: Seq<u8>, i: int) -> Seq<u8> {
    let start = fragment_start(r, i);
    let end = fragment_end(r, i);
    if start >= payload.len() {
        Seq::empty()
    } else if end >= payload.len() {
        payload.skip(start)
    } else {
        payload.subrange(start, end)
    }
}

/// Packet `i` of the message: the initialization packet first, then the
/// continuations, numbered from 0.
pub open spec fn fragment_at(
    r: int,
    channel: u32,
    command: u8,
    payload: Seq<u8>,
    i: int,
) -> PacketView {
    if i == 0 {
        init_packet(r, channel, command, payload.len() as u16, fragment_bytes(r, payload, 0))
    } else {
        cont_packet(r, channel, (i - 1) as u8, fragment_bytes(r, payload, i))
    }
}

/// The packets that a message is split into, in the order in which they are
/// sent.
pub open spec fn fragments(r: int, channel: u32, command: u8, payload: Seq<u8>) -> Seq<
    PacketView,
> {
    Seq::new(
        packets_needed(r, payload.len() as int) as nat,
        |i: int| fragment_at(r, channel, command, payload, i),
    )
}

/// The values of a list of packets.
pub open spec fn packets_view(packets: Seq<Packet>) -> Seq<PacketView> {
    packets.map_values(|p: Packet| p@)
}

/// The first `cap` bytes of `data`, followed by zeros where `data` is shorter.
fn padded_copy(data: &[u8], cap: usize) -> (out: Vec<u8>)
    ensures
        out@ == padded(data@, cap as int),
{
    let mut out: Vec<u8> = Vec::new();
    let mut i: usize = 0;
    while i < cap
        invariant
            i <= cap,
            out@.len() == i,
            forall|j: int| 0 <= j < i ==> out@[j] == padded(data@, cap as int)[j],
        decreases cap - i,
    {
        if i < data.len() {
            out.push(data[i]);
        } else {
            out.push(0u8);
        }
        i = i + 1;
    }
    out
}

/// Appends the four bytes of `v`, most significant first.
pub(crate) fn push_be32(out: &mut Vec<u8>, v: u32)
    ensures
        final(out)@ == old(out)@ + be32(v),
{
    out.push((v / 0x100_0000) as u8);
    out.push(((v / 0x1_0000) % 0x100) as u8);
    out.push(((v / 0x100) % 0x100) as u8);
    out.push((v % 0x100) as u8);
}

/// Appends every byte of `data`.
fn push_all(out: &mut Vec<u8>, data: &Vec<u8>)
    ensures
        final(out)@ == old(out)@ + data@,
{
    let mut i: usize = 0;
    while i < data.len()
        invariant
            i <= data.len(),
            out@ == old(out)@ + data@.take(i as int),
        decreases data.len() - i,
    {
        out.push(data[i]);
        i = i + 1;
    }
    assert(data@.take(data.len() as int) == data@);
}

impl Packet {
    /// The channel that the packet is addressed to.
    pub fn channel(&self) -> (id: u32)
        ensures
            id == self@.channel(),
    {
        match self {
            Packet::Init { channel, .. } => *channel,
            Packet::Cont { channel, .. } => *channel,
        }
    }

    /// The bytes of the report that carries the packet.
    pub fn to_bytes(&self) -> (bytes: Vec<u8>)
        ensures
            bytes@ == self@.wire(),
    {
        let mut bytes: Vec<u8> = Vec::new();
        match self {
            Packet::Init { channel, command, total_length, payload } => {
                push_be32(&mut bytes, *channel);
                bytes.push(*command);
                bytes.push((*total_length / 0x100) as u8);
                bytes.push((*total_length % 0x100) as u8);
                push_all(&mut bytes, payload);
            },
            Packet::Cont { channel, sequence, payload } => {
                push_be32(&mut bytes, *channel);
                bytes.push(*sequence);
                push_all(&mut bytes, payload);
            },
        }
        bytes
    }
}

/// Encoder and decoder for reports of one fixed size.
#[derive(Clone, Copy, Debug, PartialEq, Eq)]
pub struct PacketCodec {
    report_size: usize,
}

impl PacketCodec {
    /// The size of the reports, in bytes.
    pub closed spec fn size(&self) -> int {
        self.report_size as int
    }

    /// Holds of every codec that `new` made.
    pub closed spec fn wf(&self) -> bool {
        valid_report_size(self.report_size as int)
    }

    /// A codec for reports of `report_size` bytes, where that size can be
    /// served.
    pub fn new(report_size: usize) -> (made: Option<PacketCodec>)
        ensures
            made is Some <==> valid_report_size(report_size as int),
            made matches Some(codec) ==> codec.wf() && codec.size() == report_size,
    {
        if report_size >= MIN_REPORT_SIZE && report_size <= MAX_REPORT_SIZE {
            Some(PacketCodec { report_size })
        } else {
            None
        }
    }

    /// A codec for reports of 64 bytes.
    pub fn standard() -> (codec: PacketCodec)
        ensures
            codec.wf(),
            codec.size() == DEFAULT_REPORT_SIZE,
    {
        PacketCodec { report_size: DEFAULT_REPORT_SIZE }
    }

    /// What `wf` says of the size.
    pub proof fn lemma_size_valid(&self)
        requires
            self.wf(),
        ensures
            valid_report_size(self.size()),
    {
    }

    /// The size of the reports, in bytes.
    pub fn report_size(&self) -> (r: usize)
        ensures
            r == self.size(),
    {
        self.report_size
    }

    /// Payload bytes that an initialization packet carries.
    pub fn init_capacity(&self) -> (cap: usize)
        requires
            self.wf(),
        ensures
            cap == init_capacity(self.size()),
    {
        self.report_size - INIT_HEADER_LEN
    }

    /// Payload bytes that a continuation packet carries.
    pub fn cont_capacity(&self) -> (cap: usize)
        requires
            self.wf(),
        ensures
            cap == cont_capacity(self.size()),
    {
        self.report_size - CONT_HEADER_LEN
    }

    /// Length of the longest message.
    pub fn max_message_len(&self) -> (len: usize)
        requires
            self.wf(),
        ensures
            len == max_message_len(self.size()),
            len <= u16::MAX,
    {
        (self.report_size - INIT_HEADER_LEN) + MAX_CONTINUATIONS * (self.report_size
            - CONT_HEADER_LEN)
    }

    /// Takes a block of bytes apart.
    pub fn decode(&self, raw: &[u8]) -> (decoded: Result<Packet, CodecError>)
        requires
            self.wf(),
        ensures
            match decoded {
                Ok(packet) => parse(self.size(), raw@) == Some(packet@) && packet@.fits(
                    self.size(),
                ),
                Err(e) => e == CodecError::MalformedPacket && parse(self.size(), raw@) is None,
            },
    {
        if raw.len() != self.report_size {
            return Err(CodecError::MalformedPacket);
        }
        let channel: u32 = read_be32(raw[0], raw[1], raw[2], raw[3]);
        let tag: u8 = raw[4];
        if tag >= 0x80 {
            let total_length: u16 = raw[5] as u16 * 0x100 + raw[6] as u16;
            let payload: Vec<u8> = slice_to_vec(slice_subrange(raw, INIT_HEADER_LEN, raw.len()));
            Ok(Packet::Init { channel, command: tag, total_length, payload })
        } else {
            let payload: Vec<u8> = slice_to_vec(slice_subrange(raw, CONT_HEADER_LEN, raw.len()));
            Ok(Packet::Cont { channel, sequence: tag, payload })
        }
    }

    /// Builds the initialization packet for a fragment.
    pub fn encode_init(&self, channel: u32, command: u8, total_length: u16, fragment: &[u8]) -> (packet:
        Packet)
        requires
            self.wf(),
        ensures
            packet@ == init_packet(self.size(), channel, command, total_length, fragment@),
            packet@.fits(self.size()),
    {
        let command: u8 = if command >= 0x80 {
            command
        } else {
            command + 0x80
        };
        let payload: Vec<u8> = padded_copy(fragment, self.report_size - INIT_HEADER_LEN);
        Packet::Init { channel, command, total_length, payload }
    }

    /// Builds the continuation packet for a fragment.
    pub fn encode_cont(&self, channel: u32, sequence: u8, fragment: &[u8]) -> (packet: Packet)
        requires
            self.wf(),
        ensures
            packet@ == cont_packet(self.size(), channel, sequence, fragment@),
            packet@.fits(self.size()),
    {
        let sequence: u8 = if sequence >= 0x80 {
            sequence - 0x80
        } else {
            sequence
        };
        let payload: Vec<u8> = padded_copy(fragment, self.report_size - CONT_HEADER_LEN);
        Packet::Cont { channel, sequence, payload }
    }

    /// Builds the packet that reports a violation on a channel.
    pub fn encode_error(&self, channel: u32, code: ErrorCode) -> (packet: Packet)
        requires
            self.wf(),
        ensures
            packet@ == error_packet(self.size(), channel, code),
            packet@.fits(self.size()),
    {
        let mut body: Vec<u8> = Vec::new();
        body.push(code.code());
        assert(body@ == seq![code.wire_code()]);
        self.encode_init(channel, CMD_ERROR, 1, body.as_slice())
    }

    /// Builds the packet that tells the host a command is still running.
    pub fn encode_keepalive(&self, channel: u32, status: KeepaliveStatus) -> (packet: Packet)
        requires
            self.wf(),
        ensures
            packet@ == keepalive_packet(self.size(), channel, status),
            packet@.fits(self.size()),
    {
        let mut body: Vec<u8> = Vec::new();
        body.push(status.code());
        assert(body@ == seq![status.wire_code()]);
        self.encode_init(channel, CMD_KEEPALIVE, 1, body.as_slice())
    }

    /// Splits a message into one initialization packet and as many
    /// continuation packets as it needs, numbered from 0.
    pub fn fragment(&self, channel: u32, command: u8, payload: &[u8]) -> (split: Result<
        Vec<Packet>,
        CodecError,
    >)
        requires
            self.wf(),
        ensures
            match split {
                Ok(packets) => payload@.len() <= max_message_len(self.size()) && packets_view(
                    packets@,
                ) == fragments(self.size(), channel, command, payload@),
                Err(e) => e == CodecError::MessageTooLong && payload@.len() > max_message_len(
                    self.size(),
                ),
            },
    {
        let len: usize = payload.len();
        if len > self.max_message_len() {
            return Err(CodecError::MessageTooLong);
        }
        let ghost r: int = self.size();
        let cap0: usize = self.init_capacity();
        let cap1: usize = self.cont_capacity();
        let first_end: usize = if len < cap0 {
            len
        } else {
            cap0
        };
        let mut packets: Vec<Packet> = Vec::new();
        let first: Packet = self.encode_init(
            channel,
            command,
            len as u16,
            slice_subrange(payload, 0, first_end),
        );
        assert(payload@.subrange(0, first_end as int) == fragment_bytes(r, payload@, 0));
        packets.push(first);
        let mut offset: usize = first_end;
        let mut sequence: u8 = 0;
        while offset < len
            invariant
                self.wf(),
                r == self.size(),
                cap0 == init_capacity(r),
                cap1 == cont_capacity(r),
                len == payload@.len(),
                len <= max_message_len(r),
                sequence <= MAX_CONTINUATIONS,
                packets@.len() == sequence + 1,
                offset <= len,
                offset < len ==> offset == fragment_end(r, sequence as int),
                offset == len ==> len <= fragment_end(r, sequence as int),
                fragment_start(r, sequence as int) < len || sequence == 0,
                forall|j: int|
                    0 <= j < packets@.len() ==> (#[trigger] packets@[j])@ == fragment_at(
                        r,
                        channel,
                        command,
                        payload@,
                        j,
                    ),
            decreases len - offset,
        {
            proof {
                lemma_sequence_bound(r, sequence as int, len as int);
            }
            let room: usize = len - offset;
            let end: usize = if room < cap1 {
                len
            } else {
                offset + cap1
            };
            let next: Packet = self.encode_cont(
                channel,
                sequence,
                slice_subrange(payload, offset, end),
            );
            proof {
                let i: int = sequence as int + 1;
                assert(fragment_start(r, i) == offset);
                assert(fragment_end(r, i) == offset + cap1) by {
                    assert((sequence as int + 1) * (cap1 as int) == sequence as int * (cap1 as int)
                        + cap1 as int) by (nonlinear_arith);
                }
                assert(payload@.subrange(offset as int, end as int) == fragment_bytes(
                    r,
                    payload@,
                    i,
                ));
            }
            packets.push(next);
            offset = end;
            sequence = sequence + 1;
        }
        proof {
            lemma_packets_counted(r, len as int, sequence as int);
            assert(packets_view(packets@) =~= fragments(r, channel, command, payload@));
        }
        Ok(packets)
    }
}

/// The 32-bit value that four bytes spell, most significant first.
pub(crate) fn read_be32(b0: u8, b1: u8, b2: u8, b3: u8) -> (v: u32)
    ensures
        v == be32_value(b0, b1, b2, b3),
{
    b0 as u32 * 0x100_0000 + b1 as u32 * 0x1_0000 + b2 as u32 * 0x100 + b3 as u32
}

/// A message that still has bytes behind `n` continuation packets has used
/// fewer than 128 of them.
pub proof fn lemma_sequence_bound(r: int, n: int, len: int)
    requires
        valid_report_size(r),
        0 <= n,
        fragment_end(r, n) < len <= max_message_len(r),
    ensures
        n < MAX_CONTINUATIONS,
{
    let c = cont_capacity(r);
    assert(n * c < 128 * c);
    assert(n < 128) by (nonlinear_arith)
        requires
            n * c < 128 * c,
            c > 0,
    ;
}

/// A message whose last byte lies in continuation packet `n` (in the
/// initialization packet for `n == 0`) takes `n + 1` packets.
pub proof fn lemma_packets_counted(r: int, len: int, n: int)
    requires
        valid_report_size(r),
        0 <= n,
        0 <= len <= fragment_end(r, n),
        n == 0 || fragment_start(r, n) < len,
    ensures
        packets_needed(r, len) == n + 1,
{
    let c = cont_capacity(r);
    if n == 0 {
        assert(n * c == 0) by (nonlinear_arith)
            requires
                n == 0,
        ;
        assert(len <= init_capacity(r));
    } else {
        let x = len - init_capacity(r) + c - 1;
        let rem = x - n * c;
        assert((n - 1) * c == n * c - c) by (nonlinear_arith);
        assert((n - 1) * c >= 0) by (nonlinear_arith)
            requires
                n >= 1,
                c > 0,
        ;
        assert(len > init_capacity(r));
        assert(0 <= rem < c);
        assert(x == n * c + rem);
        lemma_fundamental_div_mod_converse(x, c, n, rem);
        assert(x / c == n);
    }
}

/// The comparisons that tell the packet shapes apart, and the arithmetic
/// that forces the type bit, are the operations on the high bit of the byte.
pub proof fn law_type_bit(b: u8)
    ensures
        b >= 0x80 <==> b & 0x80 != 0,
        init_command(b) == b | 0x80,
        cont_sequence(b) == b & 0x7f,
{
    assert(b >= 0x80 <==> b & 0x80 != 0) by (bit_vector);
    assert(b >= 0x80 ==> b | 0x80 == b) by (bit_vector);
    assert(b < 0x80 ==> b | 0x80 == b + 0x80) by (bit_vector);
    assert(b >= 0x80 ==> b & 0x7f == b - 0x80) by (bit_vector);
    assert(b < 0x80 ==> b & 0x7f == b) by (bit_vector);
}

/// The value that the big-endian bytes of a value spell is that value.
pub proof fn lemma_value_of_be32(v: u32)
    ensures
        be32_value(be32(v)[0], be32(v)[1], be32(v)[2], be32(v)[3]) == v,
{
    let v = v as int;
    lemma_fundamental_div_mod(v, 0x100);
    lemma_fundamental_div_mod(v / 0x100, 0x100);
    lemma_fundamental_div_mod(v / 0x1_0000, 0x100);
    assert(v / 0x100 / 0x100 == v / 0x1_0000);
    assert(v / 0x1_0000 / 0x100 == v / 0x100_0000);
    assert((v / 0x100_0000) < 0x100);
}

/// The value that the big-endian bytes of a value spell is that value.
pub proof fn lemma_value_of_be16(v: u16)
    ensures
        be16_value(be16(v)[0], be16(v)[1]) == v,
{
    let v = v as int;
    lemma_fundamental_div_mod(v, 0x100);
    assert((v / 0x100) < 0x100);
}

/// Decoding the bytes of a packet that fills a report gives the packet back.
pub proof fn lemma_parse_wire(r: int, packet: PacketView)
    requires
        valid_report_size(r),
        packet.fits(r),
    ensures
        parse(r, packet.wire()) == Some(packet),
{
    let raw = packet.wire();
    lemma_value_of_be32(packet.channel());
    match packet {
        PacketView::Init { channel, command, total_length, payload } => {
            lemma_value_of_be16(total_length);
            assert(raw.len() == r);
            assert(raw[0] == be32(channel)[0] && raw[1] == be32(channel)[1] && raw[2] == be32(
                channel,
            )[2] && raw[3] == be32(channel)[3]);
            assert(raw[4] == command);
            assert(raw[5] == be16(total_length)[0] && raw[6] == be16(total_length)[1]);
            assert(raw.skip(INIT_HEADER_LEN as int) =~= payload);
        },
        PacketView::Cont { channel, sequence, payload } => {
            assert(raw.len() == r);
            assert(raw[0] == be32(channel)[0] && raw[1] == be32(channel)[1] && raw[2] == be32(
                channel,
            )[2] && raw[3] == be32(channel)[3]);
            assert(raw[4] == sequence);
            assert(raw.skip(CONT_HEADER_LEN as int) =~= payload);
        },
    }
}

/// Four bytes are the big-endian bytes of the value that they spell.
pub proof fn lemma_be32_of_value(b0: u8, b1: u8, b2: u8, b3: u8)
    ensures
        be32(be32_value(b0, b1, b2, b3)) == seq![b0, b1, b2, b3],
{
    let v: int = b0 * 0x100_0000 + b1 * 0x1_0000 + b2 * 0x100 + b3;
    assert(0 <= v <= u32::MAX);
    lemma_fundamental_div_mod_converse(
        v,
        0x100_0000,
        b0 as int,
        b1 * 0x1_0000 + b2 * 0x100 + b3,
    );
    lemma_fundamental_div_mod_converse(v, 0x1_0000, b0 * 0x100 + b1, b2 * 0x100 + b3);
    lemma_fundamental_div_mod_converse(b0 * 0x100 + b1, 0x100, b0 as int, b1 as int);
    lemma_fundamental_div_mod_converse(v, 0x100, b0 * 0x1_0000 + b1 * 0x100 + b2, b3 as int);
    lemma_fundamental_div_mod_converse(
        b0 * 0x1_0000 + b1 * 0x100 + b2,
        0x100,
        b0 * 0x100 + b1,
        b2 as int,
    );
    assert(be32(be32_value(b0, b1, b2, b3)) =~= seq![b0, b1, b2, b3]);
}

/// Two bytes are the big-endian bytes of the value that they spell.
pub proof fn lemma_be16_of_value(b0: u8, b1: u8)
    ensures
        be16(be16_value(b0, b1)) == seq![b0, b1],
{
    let v: int = b0 * 0x100 + b1;
    assert(0 <= v <= u16::MAX);
    lemma_fundamental_div_mod_converse(v, 0x100, b0 as int, b1 as int);
    assert(be16(be16_value(b0, b1)) =~= seq![b0, b1]);
}

/// The bytes of a decoded report are the report.
pub proof fn law_wire_parse(r: int, raw: Seq<u8>)
    requires
        valid_report_size(r),
        raw.len() == r,
    ensures
        parse(r, raw) matches Some(packet) && packet.wire() == raw && packet.fits(r),
{
    let packet = parse(r, raw).unwrap();
    lemma_be32_of_value(raw[0], raw[1], raw[2], raw[3]);
    lemma_be16_of_value(raw[5], raw[6]);
    assert(packet.wire() =~= raw);
}

} // verus!
