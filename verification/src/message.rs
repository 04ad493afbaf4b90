//! A message under reassembly: what its initialization packet declared and
//! the bytes that have arrived so far.

use crate::codec::{
    cont_capacity, fragment_end, init_capacity, lemma_sequence_bound, max_message_len, padded,
    valid_report_size, PacketCodec, MAX_CONTINUATIONS,
};
use vstd::prelude::*;

verus! {

/// Bytes that a message of `total` bytes holds once its initialization packet
/// and `n` continuation packets have arrived.
pub open spec fn received_len(r: int, total: int, n: int) -> int {
    if total <= fragment_end(r, n) {
        total
    } else {
        fragment_end(r, n)
    }
}

/// The smaller of two numbers.
pub open spec fn least(a: int, b: int) -> int {
    if a <= b {
        a
    } else {
        b
    }
}

/// The mathematical value of a [`Message`].
pub ghost struct MessageView {
    /// The channel that the message arrived on.
    pub channel: u32,
    /// The command byte of its initialization packet.
    pub command: u8,
    /// The length that its initialization packet declared.
    pub total_length: u16,
    /// The payload bytes received so far.
    pub data: Seq<u8>,
    /// The instant at which its initialization packet arrived.
    pub created_at: u64,
    /// The sequence number that the next continuation packet must carry.
    pub next_sequence: int,
}

impl MessageView {
    /// Whether every declared byte has arrived.
    pub open spec fn complete(self) -> bool {
        self.data.len() == self.total_length
    }

    /// Declared bytes that have not arrived yet.
    pub open spec fn remaining(self) -> int {
        self.total_length - self.data.len()
    }

    /// Holds of a message that was started and extended for reports of `r`
    /// bytes: its length is one that packets can carry, and it holds exactly
    /// what the packets counted so far have brought.
    pub open spec fn wf(self, r: int) -> bool {
        &&& self.total_length <= max_message_len(r)
        &&& 0 <= self.next_sequence <= MAX_CONTINUATIONS
        &&& self.data.len() == received_len(r, self.total_length as int, self.next_sequence)
    }

    /// The message that an initialization packet starts: of the packet's
    /// payload it keeps the declared length, or all of it where more is
    /// declared.
    pub open spec fn start(
        r: int,
        channel: u32,
        command: u8,
        total_length: u16,
        fragment: Seq<u8>,
        now: u64,
    ) -> MessageView {
        MessageView {
            channel,
            command,
            total_length,
            data: padded(fragment, least(total_length as int, init_capacity(r))),
            created_at: now,
            next_sequence: 0,
        }
    }

    /// The message after the next continuation packet: of the packet's payload
    /// it takes what is still missing, or all of it where more is missing.
    pub open spec fn append(self, r: int, fragment: Seq<u8>) -> MessageView {
        MessageView {
            data: self.data + padded(fragment, least(self.remaining(), cont_capacity(r))),
            next_sequence: self.next_sequence + 1,
            ..self
        }
    }
}

/// A started message is well formed where its declared length can be carried.
pub proof fn lemma_start_wf(
    r: int,
    channel: u32,
    command: u8,
    total_length: u16,
    fragment: Seq<u8>,
    now: u64,
)
    requires
        valid_report_size(r),
        total_length <= max_message_len(r),
    ensures
        MessageView::start(r, channel, command, total_length, fragment, now).wf(r),
{
}

/// An incomplete message has seen fewer than 128 continuation packets, and
/// stays well formed when the next one is appended.
pub proof fn lemma_append_wf(r: int, m: MessageView, fragment: Seq<u8>)
    requires
        valid_report_size(r),
        m.wf(r),
        !m.complete(),
    ensures
        m.next_sequence < MAX_CONTINUATIONS,
        m.data.len() == fragment_end(r, m.next_sequence),
        m.append(r, fragment).wf(r),
        m.append(r, fragment).data.len() > m.data.len(),
{
    lemma_sequence_bound(r, m.next_sequence, m.total_length as int);
    let c = cont_capacity(r);
    assert((m.next_sequence + 1) * c == m.next_sequence * c + c) by (nonlinear_arith);
}

/// Appends the first `count` bytes of `data`, with zeros where `data` is
/// shorter.
fn push_padded(out: &mut Vec<u8>, data: &[u8], count: usize)
    ensures
        final(out)@ == old(out)@ + padded(data@, count as int),
{
    let mut i: usize = 0;
    while i < count
        invariant
            i <= count,
            out@ == old(out)@ + padded(data@, i as int),
        decreases count - i,
    {
        let byte: u8 = if i < data.len() {
            data[i]
        } else {
            0u8
        };
        out.push(byte);
        assert(padded(data@, i as int).push(byte) == padded(data@, i + 1));
        i = i + 1;
    }
}

/// A message under reassembly.
#[derive(Clone, Debug, PartialEq, Eq)]
pub struct Message {
    channel: u32,
    command: u8,
    total_length: u16,
    payload: Vec<u8>,
    created_at: u64,
    next_sequence: u8,
}

impl View for Message {
    type V = MessageView;

    closed spec fn view(&self) -> MessageView {
        MessageView {
            channel: self.channel,
            command: self.command,
            total_length: self.total_length,
            data: self.payload@,
            created_at: self.created_at,
            next_sequence: self.next_sequence as int,
        }
    }
}

impl Message {
    /// Starts a message from the fields of its initialization packet.
    pub fn start(
        codec: &PacketCodec,
        channel: u32,
        command: u8,
        total_length: u16,
        fragment: &[u8],
        now: u64,
    ) -> (message: Message)
        requires
            codec.wf(),
        ensures
            message@ == MessageView::start(
                codec.size(),
                channel,
                command,
                total_length,
                fragment@,
                now,
            ),
            total_length <= max_message_len(codec.size()) ==> message@.wf(codec.size()),
    {
        let capacity: usize = codec.init_capacity();
        let count: usize = if (total_length as usize) < capacity {
            total_length as usize
        } else {
            capacity
        };
        let mut payload: Vec<u8> = Vec::new();
        push_padded(&mut payload, fragment, count);
        Message { channel, command, total_length, payload, created_at: now, next_sequence: 0 }
    }

    /// Takes in the payload of the next continuation packet.
    pub fn append(&mut self, codec: &PacketCodec, fragment: &[u8])
        requires
            codec.wf(),
            old(self)@.wf(codec.size()),
            !old(self)@.complete(),
        ensures
            final(self)@ == old(self)@.append(codec.size(), fragment@),
            final(self)@.wf(codec.size()),
    {
        proof {
            codec.lemma_size_valid();
            lemma_append_wf(codec.size(), self@, fragment@);
        }
        let capacity: usize = codec.cont_capacity();
        let missing: usize = self.total_length as usize - self.payload.len();
        let count: usize = if missing < capacity {
            missing
        } else {
            capacity
        };
        push_padded(&mut self.payload, fragment, count);
        self.next_sequence = self.next_sequence + 1;
    }

    /// Whether every declared byte has arrived.
    pub fn is_complete(&self) -> (complete: bool)
        ensures
            complete == self@.complete(),
    {
        self.payload.len() == self.total_length as usize
    }

    /// The channel that the message arrived on.
    pub fn channel(&self) -> (channel: u32)
        ensures
            channel == self@.channel,
    {
        self.channel
    }

    /// The command byte of its initialization packet.
    pub fn command(&self) -> (command: u8)
        ensures
            command == self@.command,
    {
        self.command
    }

    /// The length that its initialization packet declared.
    pub fn total_length(&self) -> (total_length: u16)
        ensures
            total_length == self@.total_length,
    {
        self.total_length
    }

    /// The payload bytes received so far.
    pub fn payload(&self) -> (payload: &Vec<u8>)
        ensures
            payload@ == self@.data,
    {
        &self.payload
    }

    /// Number of payload bytes received so far.
    pub fn bytes_received(&self) -> (count: usize)
        ensures
            count == self@.data.len(),
    {
        self.payload.len()
    }

    /// The instant at which its initialization packet arrived.
    pub fn created_at(&self) -> (at: u64)
        ensures
            at == self@.created_at,
    {
        self.created_at
    }

    /// The sequence number that the next continuation packet must carry.
    pub fn next_sequence(&self) -> (sequence: u8)
        ensures
            sequence == self@.next_sequence,
    {
        self.next_sequence
    }

    /// Gives up the message for its payload.
    pub fn into_payload(self) -> (payload: Vec<u8>)
        ensures
            payload@ == self@.data,
    {
        self.payload
    }
}

} // verus!
