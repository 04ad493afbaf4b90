//! The channels that share the endpoint: their reassembly state, the instant
//! each was last heard of, and which of them holds the lock.

use crate::codec::{be32, push_be32, valid_report_size, PacketCodec};
use crate::message::{Message, MessageView};
use crate::protocol::{DeviceInfo, KeepaliveStatus, BROADCAST_CHANNEL, PROTOCOL_VERSION};
use vstd::prelude::*;
use vstd::slice::slice_to_vec;

verus! {

/// Where a channel stands in its transaction.
#[derive(Clone, Copy, Debug, PartialEq, Eq, Structural)]
pub enum ChannelState {
    /// No transaction.
    Idle,
    /// A message has begun and is not complete.
    Receiving,
    /// A complete message is with the command processor.
    Dispatching,
    /// A violation was found; the channel is on its way back to `Idle`.
    Error,
}

/// Why the table turned a request down.
#[derive(Clone, Copy, Debug, PartialEq, Eq, Structural)]
pub enum TableError {
    /// No channel has this id.
    UnknownChannel,
    /// Another channel holds the lock.
    LockRequired,
    /// Every channel that the table can hold is allocated.
    TableFull,
}

/// The mathematical value of a [`Channel`].
pub ghost struct ChannelView {
    /// The channel id.
    pub id: u32,
    /// Where the channel stands.
    pub state: ChannelState,
    /// The message under reassembly, while the channel is receiving.
    pub message: Option<MessageView>,
    /// Whether the channel holds the lock.
    pub lock_holder: bool,
    /// The instant of the last packet while receiving, of the last keepalive
    /// while dispatching.
    pub since: u64,
    /// The command byte of the message that is with the processor.
    pub command: u8,
    /// The ticket of the request that is with the processor.
    pub ticket: u64,
    /// What the processor last said of the running command.
    pub status: KeepaliveStatus,
}

impl ChannelView {
    /// A channel without a transaction.
    pub open spec fn idle(id: u32, lock_holder: bool) -> ChannelView {
        ChannelView {
            id,
            state: ChannelState::Idle,
            message: None,
            lock_holder,
            since: 0,
            command: 0,
            ticket: 0,
            status: KeepaliveStatus::Processing,
        }
    }

    /// This channel without its transaction.
    pub open spec fn to_idle(self) -> ChannelView {
        ChannelView::idle(self.id, self.lock_holder)
    }

    /// This channel with its transaction struck down.
    pub open spec fn to_error(self) -> ChannelView {
        ChannelView { state: ChannelState::Error, ..self.to_idle() }
    }

    /// This channel with a message under reassembly, last heard of at `now`.
    pub open spec fn to_receiving(self, message: MessageView, now: u64) -> ChannelView {
        ChannelView {
            state: ChannelState::Receiving,
            message: Some(message),
            since: now,
            ..self.to_idle()
        }
    }

    /// This channel waiting for the processor's answer to request `ticket`.
    pub open spec fn to_dispatching(self, command: u8, ticket: u64, now: u64) -> ChannelView {
        ChannelView {
            state: ChannelState::Dispatching,
            since: now,
            command,
            ticket,
            ..self.to_idle()
        }
    }

    /// Whether the channel is in the middle of a transaction.
    pub open spec fn busy(self) -> bool {
        self.state == ChannelState::Receiving || self.state == ChannelState::Dispatching
    }

    /// Holds of a channel whose message agrees with its state: a receiving
    /// channel has an incomplete message of its own, no other channel has a
    /// message, and an idle channel keeps nothing of its last transaction.
    pub open spec fn wf(self, r: int) -> bool {
        match self.state {
            ChannelState::Receiving => self.message matches Some(m) && m.wf(r) && !m.complete()
                && m.channel == self.id,
            ChannelState::Idle => self == self.to_idle(),
            _ => self.message is None,
        }
    }
}

/// One logical channel.
#[derive(Clone, Debug, PartialEq, Eq)]
pub struct Channel {
    id: u32,
    state: ChannelState,
    message: Option<Message>,
    lock_holder: bool,
    since: u64,
    command: u8,
    ticket: u64,
    status: KeepaliveStatus,
}

impl View for Channel {
    type V = ChannelView;

    closed spec fn view(&self) -> ChannelView {
        ChannelView {
            id: self.id,
            state: self.state,
            message: match self.message {
                Some(m) => Some(m@),
                None => None,
            },
            lock_holder: self.lock_holder,
            since: self.since,
            command: self.command,
            ticket: self.ticket,
            status: self.status,
        }
    }
}

impl Channel {
    fn new(id: u32) -> (channel: Channel)
        ensures
            channel@ == ChannelView::idle(id, false),
    {
        Channel {
            id,
            state: ChannelState::Idle,
            message: None,
            lock_holder: false,
            since: 0,
            command: 0,
            ticket: 0,
            status: KeepaliveStatus::Processing,
        }
    }

    fn clear(&mut self) -> (message: Option<Message>)
        ensures
            final(self)@ == old(self)@.to_idle(),
            match message {
                Some(m) => old(self)@.message == Some(m@),
                None => old(self)@.message is None,
            },
    {
        self.state = ChannelState::Idle;
        self.since = 0;
        self.command = 0;
        self.ticket = 0;
        self.status = KeepaliveStatus::Processing;
        self.message.take()
    }

    /// The channel id.
    pub fn id(&self) -> (id: u32)
        ensures
            id == self@.id,
    {
        self.id
    }

    /// Where the channel stands.
    pub fn state(&self) -> (state: ChannelState)
        ensures
            state == self@.state,
    {
        self.state
    }

    /// The message under reassembly, while the channel is receiving.
    pub fn message(&self) -> (message: Option<&Message>)
        ensures
            match message {
                Some(m) => self@.message == Some(m@),
                None => self@.message is None,
            },
    {
        match &self.message {
            Some(m) => Some(m),
            None => None,
        }
    }

    /// Whether the channel holds the lock.
    pub fn is_lock_holder(&self) -> (holder: bool)
        ensures
            holder == self@.lock_holder,
    {
        self.lock_holder
    }

    /// The instant of the last packet while receiving, of the last keepalive
    /// while dispatching.
    pub fn since(&self) -> (since: u64)
        ensures
            since == self@.since,
    {
        self.since
    }

    /// The command byte of the message that is with the processor.
    pub fn command(&self) -> (command: u8)
        ensures
            command == self@.command,
    {
        self.command
    }

    /// The ticket of the request that is with the processor.
    pub fn ticket(&self) -> (ticket: u64)
        ensures
            ticket == self@.ticket,
    {
        self.ticket
    }

    /// What the processor last said of the running command.
    pub fn status(&self) -> (status: KeepaliveStatus)
        ensures
            status == self@.status,
    {
        self.status
    }
}

/// The answer to a handshake.
#[derive(Clone, Debug, PartialEq, Eq)]
pub struct InitResponse {
    /// The nonce of the request, echoed.
    pub nonce: Vec<u8>,
    /// The channel that the requester is to use.
    pub channel: u32,
    /// The version of the transport protocol.
    pub protocol_version: u8,
    /// What the device says of itself.
    pub info: DeviceInfo,
}

/// The mathematical value of an [`InitResponse`].
pub ghost struct InitResponseView {
    pub nonce: Seq<u8>,
    pub channel: u32,
    pub protocol_version: u8,
    pub info: DeviceInfo,
}

impl View for InitResponse {
    type V = InitResponseView;

    open spec fn view(&self) -> InitResponseView {
        InitResponseView {
            nonce: self.nonce@,
            channel: self.channel,
            protocol_version: self.protocol_version,
            info: self.info,
        }
    }
}

impl InitResponseView {
    /// The answer to a handshake with `nonce`, naming `channel`.
    pub open spec fn answer(nonce: Seq<u8>, channel: u32, info: DeviceInfo) -> InitResponseView {
        InitResponseView { nonce, channel, protocol_version: PROTOCOL_VERSION, info }
    }

    /// The bytes of the answer.
    pub open spec fn payload(self) -> Seq<u8> {
        self.nonce + be32(self.channel) + seq![
            self.protocol_version,
            self.info.version_major,
            self.info.version_minor,
            self.info.version_build,
            self.info.capabilities,
        ]
    }
}

impl InitResponse {
    /// The answer to a handshake with `nonce`, naming `channel`.
    pub fn answer(nonce: &[u8], channel: u32, info: DeviceInfo) -> (response: InitResponse)
        ensures
            response@ == InitResponseView::answer(nonce@, channel, info),
    {
        InitResponse {
            nonce: slice_to_vec(nonce),
            channel,
            protocol_version: PROTOCOL_VERSION,
            info,
        }
    }

    /// The bytes of the answer.
    pub fn payload(&self) -> (bytes: Vec<u8>)
        ensures
            bytes@ == self@.payload(),
    {
        let mut bytes: Vec<u8> = slice_to_vec(self.nonce.as_slice());
        push_be32(&mut bytes, self.channel);
        bytes.push(self.protocol_version);
        bytes.push(self.info.version_major);
        bytes.push(self.info.version_minor);
        bytes.push(self.info.version_build);
        bytes.push(self.info.capabilities);
        assert(bytes@ =~= self@.payload());
        bytes
    }
}

/// The mathematical value of a [`ChannelTable`].
pub ghost struct TableView {
    /// The size of the reports that the channels reassemble.
    pub report_size: int,
    /// The broadcast channel, then the allocated channels by ascending id.
    pub channels: Seq<ChannelView>,
    /// The channel that holds the lock, if one does.
    pub lock: Option<u32>,
    /// Channels that can be allocated at most.
    pub capacity: int,
    /// What the device says of itself.
    pub info: DeviceInfo,
}

impl TableView {
    /// A table that holds the broadcast channel and nothing else.
    pub open spec fn empty(report_size: int, capacity: int, info: DeviceInfo) -> TableView {
        TableView {
            report_size,
            channels: seq![ChannelView::idle(BROADCAST_CHANNEL, false)],
            lock: None,
            capacity,
            info,
        }
    }

    /// The place of channel `id` in `channels`, if the table knows the id.
    pub open spec fn slot(self, id: u32) -> Option<int> {
        if id == BROADCAST_CHANNEL {
            Some(0)
        } else if 1 <= id < self.channels.len() {
            Some(id as int)
        } else {
            None
        }
    }

    /// Whether the table knows the id.
    pub open spec fn knows(self, id: u32) -> bool {
        self.slot(id) is Some
    }

    /// Holds of every table that `new` made and its methods changed.
    pub open spec fn wf(self) -> bool {
        &&& valid_report_size(self.report_size)
        &&& 0 <= self.capacity <= u16::MAX
        &&& 1 <= self.channels.len() <= self.capacity + 1
        &&& self.channels[0].id == BROADCAST_CHANNEL
        &&& forall|i: int| 1 <= i < self.channels.len() ==> (#[trigger] self.channels[i]).id == i
        &&& forall|i: int|
            0 <= i < self.channels.len() ==> (#[trigger] self.channels[i]).wf(self.report_size)
        &&& forall|i: int|
            0 <= i < self.channels.len() ==> ((#[trigger] self.channels[i]).lock_holder
                <==> self.lock == Some(self.channels[i].id))
        &&& self.lock matches Some(holder) ==> self.knows(holder)
    }

    /// Whether every channel that the table can hold is allocated.
    pub open spec fn full(self) -> bool {
        self.channels.len() > self.capacity
    }

    /// The id that the next allocation hands out.
    pub open spec fn next_id(self) -> u32 {
        self.channels.len() as u32
    }

    /// The table with one more channel, idle, under the next id.
    pub open spec fn allocated(self) -> TableView {
        TableView { channels: self.channels.push(ChannelView::idle(self.next_id(), false)), ..self }
    }

    /// The table with the channel in place `i` replaced.
    pub open spec fn with_channel(self, i: int, channel: ChannelView) -> TableView {
        TableView { channels: self.channels.update(i, channel), ..self }
    }

    /// The table with the lock in the hands of the channel in place `i`.
    pub open spec fn acquired(self, i: int) -> TableView {
        TableView {
            channels: self.channels.update(
                i,
                ChannelView { lock_holder: true, ..self.channels[i] },
            ),
            lock: Some(self.channels[i].id),
            ..self
        }
    }

    /// The table with the lock taken from the channel in place `i`.
    pub open spec fn released(self, i: int) -> TableView {
        TableView {
            channels: self.channels.update(
                i,
                ChannelView { lock_holder: false, ..self.channels[i] },
            ),
            lock: None,
            ..self
        }
    }

    /// Whether a channel other than `id` holds the lock.
    pub open spec fn locked_against(self, id: u32) -> bool {
        self.lock is Some && self.lock != Some(id)
    }

    /// What `acquire_lock` makes of the table, and what it returns.
    pub open spec fn acquire_lock(self, id: u32) -> (TableView, Result<(), TableError>) {
        match self.slot(id) {
            None => (self, Err(TableError::UnknownChannel)),
            Some(i) => if self.locked_against(id) {
                (self, Err(TableError::LockRequired))
            } else {
                (self.acquired(i), Ok(()))
            },
        }
    }

    /// What `release_lock` makes of the table, and what it returns.
    pub open spec fn release_lock(self, id: u32) -> (TableView, Result<(), TableError>) {
        match self.slot(id) {
            None => (self, Err(TableError::UnknownChannel)),
            Some(i) => if self.locked_against(id) {
                (self, Err(TableError::LockRequired))
            } else if self.lock is None {
                (self, Ok(()))
            } else {
                (self.released(i), Ok(()))
            },
        }
    }

    /// The table with every allocated channel gone and the lock free.
    pub open spec fn cleared(self) -> TableView {
        TableView::empty(self.report_size, self.capacity, self.info)
    }
}

/// The channel table: the broadcast channel and every channel allocated
/// since the last reset.
#[derive(Clone, Debug, PartialEq, Eq)]
pub struct ChannelTable {
    codec: PacketCodec,
    channels: Vec<Channel>,
    lock: Option<u32>,
    capacity: u16,
    info: DeviceInfo,
}

impl View for ChannelTable {
    type V = TableView;

    closed spec fn view(&self) -> TableView {
        TableView {
            report_size: self.codec.size(),
            channels: self.channels@.map_values(|c: Channel| c@),
            lock: self.lock,
            capacity: self.capacity as int,
            info: self.info,
        }
    }
}

impl ChannelTable {
    /// Holds of every table that `new` made and its methods changed.
    pub closed spec fn wf(&self) -> bool {
        &&& self.codec.wf()
        &&& self@.wf()
    }

    /// What `wf` says of the value.
    pub proof fn lemma_view_wf(&self)
        requires
            self.wf(),
        ensures
            self@.wf(),
    {
    }

    /// A table for reports of the codec's size that can allocate `capacity`
    /// channels.
    pub fn new(codec: PacketCodec, capacity: u16, info: DeviceInfo) -> (table: ChannelTable)
        requires
            codec.wf(),
        ensures
            table.wf(),
            table@ == TableView::empty(codec.size(), capacity as int, info),
    {
        let mut channels: Vec<Channel> = Vec::new();
        channels.push(Channel::new(BROADCAST_CHANNEL));
        let table = ChannelTable { codec, channels, lock: None, capacity, info };
        proof {
            codec.lemma_size_valid();
            assert(table@.channels =~= seq![ChannelView::idle(BROADCAST_CHANNEL, false)]);
        }
        table
    }

    /// The codec for the reports that the channels reassemble.
    pub fn codec(&self) -> (codec: PacketCodec)
        requires
            self.wf(),
        ensures
            codec.wf(),
            codec.size() == self@.report_size,
    {
        self.codec
    }

    /// What the device says of itself.
    pub fn info(&self) -> (info: DeviceInfo)
        ensures
            info == self@.info,
    {
        self.info
    }

    /// Number of channels in the table, the broadcast channel included.
    pub fn len(&self) -> (len: usize)
        ensures
            len == self@.channels.len(),
    {
        self.channels.len()
    }

    /// Whether every channel that the table can hold is allocated.
    pub fn is_full(&self) -> (full: bool)
        ensures
            full == self@.full(),
    {
        self.channels.len() > self.capacity as usize
    }

    /// The channel that holds the lock, if one does.
    pub fn lock_holder(&self) -> (holder: Option<u32>)
        ensures
            holder == self@.lock,
    {
        self.lock
    }

    /// The place of channel `id` in the table, if the table knows the id.
    pub fn slot_of(&self, id: u32) -> (slot: Option<usize>)
        ensures
            match slot {
                Some(i) => self@.slot(id) == Some(i as int),
                None => self@.slot(id) is None,
            },
    {
        if id == BROADCAST_CHANNEL {
            Some(0)
        } else if id >= 1 && (id as usize) < self.channels.len() {
            Some(id as usize)
        } else {
            None
        }
    }

    /// The channel in place `slot`.
    pub fn channel(&self, slot: usize) -> (channel: &Channel)
        requires
            slot < self@.channels.len(),
        ensures
            channel@ == self@.channels[slot as int],
    {
        &self.channels[slot]
    }

    /// Looks a channel up by its id.
    pub fn get(&self, id: u32) -> (found: Result<&Channel, TableError>)
        requires
            self.wf(),
        ensures
            match found {
                Ok(channel) => self@.slot(id) matches Some(i) && channel@ == self@.channels[i]
                    && channel@.id == id,
                Err(e) => e == TableError::UnknownChannel && !self@.knows(id),
            },
    {
        match self.slot_of(id) {
            Some(slot) => {
                assert(self@.channels[slot as int].id == id);
                Ok(&self.channels[slot])
            },
            None => Err(TableError::UnknownChannel),
        }
    }

    /// Serves a handshake on the broadcast channel: allocates the next
    /// channel id, which is neither 0 nor the broadcast id nor in use, and
    /// answers with that id, the echoed nonce and the device's description.
    pub fn allocate(&mut self, nonce: &[u8]) -> (served: Result<InitResponse, TableError>)
        requires
            old(self).wf(),
        ensures
            final(self).wf(),
            match served {
                Ok(response) => !old(self)@.full() && final(self)@ == old(self)@.allocated()
                    && response@ == InitResponseView::answer(
                    nonce@,
                    old(self)@.next_id(),
                    old(self)@.info,
                ),
                Err(e) => e == TableError::TableFull && old(self)@.full() && final(self)@ == old(
                    self,
                )@,
            },
    {
        if self.channels.len() > self.capacity as usize {
            return Err(TableError::TableFull);
        }
        let id: u32 = self.channels.len() as u32;
        self.channels.push(Channel::new(id));
        proof {
            assert(self@.channels =~= old(self)@.allocated().channels);
        }
        Ok(InitResponse::answer(nonce, id, self.info))
    }

    /// Gives the lock to channel `id`, unless another channel holds it.
    pub fn acquire_lock(&mut self, id: u32) -> (done: Result<(), TableError>)
        requires
            old(self).wf(),
        ensures
            final(self).wf(),
            (final(self)@, done) == old(self)@.acquire_lock(id),
    {
        match self.slot_of(id) {
            None => Err(TableError::UnknownChannel),
            Some(slot) => {
                if self.held_by_other(id) {
                    Err(TableError::LockRequired)
                } else {
                    self.channels[slot].lock_holder = true;
                    self.lock = Some(id);
                    proof {
                        assert(self@.channels =~= old(self)@.acquired(slot as int).channels);
                    }
                    Ok(())
                }
            },
        }
    }

    /// Takes the lock from channel `id`; a free lock stays free, and a lock
    /// that another channel holds stays with it.
    pub fn release_lock(&mut self, id: u32) -> (done: Result<(), TableError>)
        requires
            old(self).wf(),
        ensures
            final(self).wf(),
            (final(self)@, done) == old(self)@.release_lock(id),
    {
        match self.slot_of(id) {
            None => Err(TableError::UnknownChannel),
            Some(slot) => {
                if self.held_by_other(id) {
                    Err(TableError::LockRequired)
                } else if self.lock.is_none() {
                    Ok(())
                } else {
                    self.channels[slot].lock_holder = false;
                    self.lock = None;
                    proof {
                        assert(self@.channels =~= old(self)@.released(slot as int).channels);
                    }
                    Ok(())
                }
            },
        }
    }

    /// Whether a channel other than `id` holds the lock.
    pub fn held_by_other(&self, id: u32) -> (held: bool)
        ensures
            held == self@.locked_against(id),
    {
        match self.lock {
            Some(holder) => holder != id,
            None => false,
        }
    }

    /// Drops every allocated channel and frees the lock.
    pub fn reset(&mut self)
        requires
            old(self).wf(),
        ensures
            final(self).wf(),
            final(self)@ == old(self)@.cleared(),
    {
        self.channels = Vec::new();
        self.channels.push(Channel::new(BROADCAST_CHANNEL));
        self.lock = None;
        proof {
            assert(self@.channels =~= old(self)@.cleared().channels);
        }
    }

    /// Puts a message under reassembly on the channel in place `slot`.
    pub(crate) fn begin(&mut self, slot: usize, message: Message, now: u64)
        requires
            old(self).wf(),
            slot < old(self)@.channels.len(),
            message@.wf(old(self)@.report_size),
            !message@.complete(),
            message@.channel == old(self)@.channels[slot as int].id,
        ensures
            final(self).wf(),
            final(self)@ == old(self)@.with_channel(
                slot as int,
                old(self)@.channels[slot as int].to_receiving(message@, now),
            ),
    {
        let _ = self.channels[slot].clear();
        self.channels[slot].state = ChannelState::Receiving;
        self.channels[slot].message = Some(message);
        self.channels[slot].since = now;
        proof {
            assert(self@.channels =~= old(self)@.with_channel(
                slot as int,
                old(self)@.channels[slot as int].to_receiving(message@, now),
            ).channels);
        }
    }

    /// Ends the transaction of the channel in place `slot` and hands out the
    /// message that was under reassembly, if one was.
    pub(crate) fn take_message(&mut self, slot: usize) -> (message: Option<Message>)
        requires
            old(self).wf(),
            slot < old(self)@.channels.len(),
        ensures
            final(self).wf(),
            final(self)@ == old(self)@.with_channel(
                slot as int,
                old(self)@.channels[slot as int].to_idle(),
            ),
            match message {
                Some(m) => old(self)@.channels[slot as int].message == Some(m@),
                None => old(self)@.channels[slot as int].message is None,
            },
    {
        let message = self.channels[slot].clear();
        proof {
            assert(self@.channels =~= old(self)@.with_channel(
                slot as int,
                old(self)@.channels[slot as int].to_idle(),
            ).channels);
        }
        message
    }

    /// Strikes down the transaction of the channel in place `slot`.
    pub(crate) fn fail(&mut self, slot: usize)
        requires
            old(self).wf(),
            slot < old(self)@.channels.len(),
        ensures
            final(self).wf(),
            final(self)@ == old(self)@.with_channel(
                slot as int,
                old(self)@.channels[slot as int].to_error(),
            ),
    {
        let _ = self.channels[slot].clear();
        self.channels[slot].state = ChannelState::Error;
        proof {
            assert(self@.channels =~= old(self)@.with_channel(
                slot as int,
                old(self)@.channels[slot as int].to_error(),
            ).channels);
        }
    }

    /// Marks the channel in place `slot` as waiting for the processor's
    /// answer to request `ticket`.
    pub(crate) fn dispatching(&mut self, slot: usize, command: u8, ticket: u64, now: u64)
        requires
            old(self).wf(),
            slot < old(self)@.channels.len(),
        ensures
            final(self).wf(),
            final(self)@ == old(self)@.with_channel(
                slot as int,
                old(self)@.channels[slot as int].to_dispatching(command, ticket, now),
            ),
    {
        let _ = self.channels[slot].clear();
        self.channels[slot].state = ChannelState::Dispatching;
        self.channels[slot].since = now;
        self.channels[slot].command = command;
        self.channels[slot].ticket = ticket;
        proof {
            assert(self@.channels =~= old(self)@.with_channel(
                slot as int,
                old(self)@.channels[slot as int].to_dispatching(command, ticket, now),
            ).channels);
        }
    }

    /// Notes what the processor said of the command that the channel in place
    /// `slot` waits for.
    pub(crate) fn set_status(&mut self, slot: usize, status: KeepaliveStatus)
        requires
            old(self).wf(),
            slot < old(self)@.channels.len(),
            old(self)@.channels[slot as int].state == ChannelState::Dispatching,
        ensures
            final(self).wf(),
            final(self)@ == old(self)@.with_channel(
                slot as int,
                ChannelView { status, ..old(self)@.channels[slot as int] },
            ),
    {
        self.channels[slot].status = status;
        proof {
            assert(self@.channels =~= old(self)@.with_channel(
                slot as int,
                ChannelView { status, ..old(self)@.channels[slot as int] },
            ).channels);
        }
    }

    /// Notes the instant at which the channel in place `slot` was last heard
    /// of, or last sent a keepalive.
    pub(crate) fn touch(&mut self, slot: usize, now: u64)
        requires
            old(self).wf(),
            slot < old(self)@.channels.len(),
            old(self)@.channels[slot as int].state == ChannelState::Dispatching,
        ensures
            final(self).wf(),
            final(self)@ == old(self)@.with_channel(
                slot as int,
                ChannelView { since: now, ..old(self)@.channels[slot as int] },
            ),
    {
        self.channels[slot].since = now;
        proof {
            assert(self@.channels =~= old(self)@.with_channel(
                slot as int,
                ChannelView { since: now, ..old(self)@.channels[slot as int] },
            ).channels);
        }
    }
}

/// The id that an allocation hands out is neither 0 nor the broadcast id nor
/// an id that the table knows, the table knows it afterwards, and no channel
/// that was there has changed.
pub proof fn law_allocation_fresh(table: TableView)
    requires
        table.wf(),
        !table.full(),
    ensures
        table.next_id() != 0,
        table.next_id() != BROADCAST_CHANNEL,
        !table.knows(table.next_id()),
        table.allocated().wf(),
        table.allocated().slot(table.next_id()) == Some(table.channels.len() as int),
        table.allocated().channels[table.channels.len() as int] == ChannelView::idle(
            table.next_id(),
            false,
        ),
        forall|id: u32|
            table.knows(id) ==> table.allocated().slot(id) == table.slot(id)
                && table.allocated().channels[table.slot(id).unwrap()]
                == table.channels[table.slot(id).unwrap()],
{
}

/// At most one channel holds the lock.
pub proof fn law_single_lock_holder(table: TableView, i: int, j: int)
    requires
        table.wf(),
        0 <= i < table.channels.len(),
        0 <= j < table.channels.len(),
        table.channels[i].lock_holder,
        table.channels[j].lock_holder,
    ensures
        i == j,
{
}

/// Taking and releasing the lock keeps the table well formed; taking it
/// fails exactly where another channel holds it.
pub proof fn lemma_lock_wf(table: TableView, id: u32)
    requires
        table.wf(),
    ensures
        table.acquire_lock(id).0.wf(),
        table.release_lock(id).0.wf(),
        table.acquire_lock(id).1 == Err::<(), TableError>(TableError::LockRequired) <==> table.knows(
            id,
        ) && table.locked_against(id),
        table.acquire_lock(id).1 is Ok ==> table.acquire_lock(id).0.lock == Some(id),
        table.release_lock(id).1 is Ok ==> table.release_lock(id).0.lock is None,
{
}

} // verus!
