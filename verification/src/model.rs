//! The engine as a state machine over mathematical values: what each event
//! makes of the state, and which actions it asks for.

use crate::channel::{ChannelState, ChannelView, InitResponseView, TableView};
use crate::codec::{be32_value, keepalive_packet, max_message_len, parse, PacketView};
use crate::config::{Config, StrayPolicy};
use crate::dispatch::{report, respond, ActionView, OutcomeView};
use crate::message::MessageView;
use crate::protocol::{
    command_kind, is_control, CommandKind, ErrorCode, BROADCAST_CHANNEL, CMD_INIT, CMD_LOCK,
    INIT_NONCE_LEN,
};
use crate::timer::{advanced, expired};
use vstd::prelude::*;

verus! {

/// The channel that an error about a block of bytes is addressed to: the one
/// that its first four bytes name, or the broadcast channel where it has not
/// four bytes.
pub open spec fn best_channel(raw: Seq<u8>) -> u32 {
    if raw.len() >= 4 {
        be32_value(raw[0], raw[1], raw[2], raw[3])
    } else {
        BROADCAST_CHANNEL
    }
}

/// The mathematical value of a protocol engine.
pub ghost struct EngineView {
    /// The choices that the engine was made with.
    pub config: Config,
    /// The channels.
    pub table: TableView,
    /// The latest instant that the host has reported.
    pub now: u64,
    /// The ticket of the next request to the command processor.
    pub next_ticket: u64,
}

impl EngineView {
    /// The engine that `new` makes: no channel allocated, the clock at 0.
    pub open spec fn fresh(config: Config) -> EngineView {
        EngineView {
            config,
            table: TableView::empty(
                config.report_size as int,
                config.max_channels as int,
                config.device,
            ),
            now: 0,
            next_ticket: 0,
        }
    }

    /// The size of a report.
    pub open spec fn r(self) -> int {
        self.table.report_size
    }

    /// The channel in place `i` of the table.
    pub open spec fn channel(self, i: int) -> ChannelView {
        self.table.channels[i]
    }

    /// Holds of every engine that `new` made and its events changed.
    pub open spec fn wf(self) -> bool {
        &&& self.config.valid()
        &&& self.table.wf()
        &&& self.table.report_size == self.config.report_size
        &&& self.table.capacity == self.config.max_channels
        &&& self.table.info == self.config.device
        &&& self.table.lock != Some(BROADCAST_CHANNEL)
        &&& forall|i: int|
            0 <= i < self.table.channels.len() ==> (#[trigger] self.table.channels[i]).state
                != ChannelState::Error
        &&& forall|i: int|
            0 <= i < self.table.channels.len() && (#[trigger] self.table.channels[i]).state
                == ChannelState::Dispatching ==> self.table.channels[i].ticket < self.next_ticket
        &&& forall|i: int, j: int|
            0 <= i < self.table.channels.len() && 0 <= j < self.table.channels.len() && i != j && (
            #[trigger] self.table.channels[i]).state == ChannelState::Dispatching && (
            #[trigger] self.table.channels[j]).state == ChannelState::Dispatching
                ==> self.table.channels[i].ticket != self.table.channels[j].ticket
    }

    /// The engine with the channel in place `i` replaced.
    pub open spec fn with_channel(self, i: int, channel: ChannelView) -> EngineView {
        EngineView { table: self.table.with_channel(i, channel), ..self }
    }

    /// The engine with the channel in place `i` idle.
    pub open spec fn idled(self, i: int) -> EngineView {
        self.with_channel(i, self.channel(i).to_idle())
    }

    /// Whether a channel other than the one in place `i` is in the middle
    /// of a transaction.
    pub open spec fn others_busy(self, i: int) -> bool {
        exists|j: int| 0 <= j < self.table.channels.len() && j != i && (#[trigger] self.channel(j)).busy()
    }

    /// The actions that end whatever the channel in place `i` is doing: the
    /// processor is told where it holds a request of the channel.
    pub open spec fn abort_actions(self, i: int) -> Seq<ActionView> {
        if self.channel(i).state == ChannelState::Dispatching {
            seq![ActionView::Cancel { channel: self.channel(i).id, ticket: self.channel(i).ticket }]
        } else {
            Seq::empty()
        }
    }

    /// What a block of bytes from the host makes of the engine.
    pub open spec fn on_packet(self, raw: Seq<u8>) -> (EngineView, Seq<ActionView>) {
        match parse(self.r(), raw) {
            None => (self, report(self.r(), best_channel(raw), ErrorCode::InvalidLen)),
            Some(PacketView::Init { channel, command, total_length, payload }) => self.on_init(
                channel,
                command,
                total_length,
                payload,
            ),
            Some(PacketView::Cont { channel, sequence, payload }) => self.on_cont(
                channel,
                sequence,
                payload,
            ),
        }
    }

    /// What an initialization packet makes of the engine. On a channel that
    /// the table knows it ends what the channel was doing and begins a
    /// message of the declared length; a message that the packet completes is
    /// executed at once.
    pub open spec fn on_init(self, channel: u32, command: u8, total_length: u16, payload: Seq<u8>) -> (
        EngineView,
        Seq<ActionView>,
    ) {
        match self.table.slot(channel) {
            None => (self, report(self.r(), channel, ErrorCode::InvalidChannel)),
            Some(i) => if self.config.exclusive && !is_control(command) && self.others_busy(i) {
                (self, report(self.r(), channel, ErrorCode::ChannelBusy))
            } else if total_length > max_message_len(self.r()) {
                (
                    self.idled(i),
                    self.abort_actions(i) + report(self.r(), channel, ErrorCode::InvalidLen),
                )
            } else {
                let message = MessageView::start(
                    self.r(),
                    channel,
                    command,
                    total_length,
                    payload,
                    self.now,
                );
                if message.complete() {
                    let (next, actions) = self.idled(i).execute(i, message);
                    (next, self.abort_actions(i) + actions)
                } else {
                    (
                        self.with_channel(i, self.channel(i).to_receiving(message, self.now)),
                        self.abort_actions(i),
                    )
                }
            },
        }
    }

    /// What a continuation packet makes of the engine. It is taken in only by
    /// a receiving channel that expects its sequence number.
    pub open spec fn on_cont(self, channel: u32, sequence: u8, payload: Seq<u8>) -> (
        EngineView,
        Seq<ActionView>,
    ) {
        match self.table.slot(channel) {
            None => (self, report(self.r(), channel, ErrorCode::InvalidChannel)),
            Some(i) => match self.channel(i).message {
                Some(message) if self.channel(i).state == ChannelState::Receiving => {
                    if sequence != message.next_sequence {
                        (self.idled(i), report(self.r(), channel, ErrorCode::InvalidSeq))
                    } else {
                        let longer = message.append(self.r(), payload);
                        if longer.complete() {
                            self.idled(i).execute(i, longer)
                        } else {
                            (
                                self.with_channel(
                                    i,
                                    self.channel(i).to_receiving(longer, self.now),
                                ),
                                Seq::empty(),
                            )
                        }
                    }
                },
                _ => (
                    self,
                    match self.config.stray_continuation {
                        StrayPolicy::Reject => report(
                            self.r(),
                            channel,
                            ErrorCode::InvalidChannel,
                        ),
                        StrayPolicy::Drop => Seq::empty(),
                    },
                ),
            },
        }
    }

    /// What a complete message makes of the engine, the channel in place `i`
    /// being the idle channel that it arrived on.
    pub open spec fn execute(self, i: int, message: MessageView) -> (EngineView, Seq<ActionView>) {
        let channel = message.channel;
        let r = self.r();
        if channel == BROADCAST_CHANNEL {
            if command_kind(message.command) != CommandKind::Init {
                (self, report(r, channel, ErrorCode::InvalidChannel))
            } else if message.data.len() != INIT_NONCE_LEN {
                (self, report(r, channel, ErrorCode::InvalidLen))
            } else if self.table.full() {
                (self, report(r, channel, ErrorCode::ChannelBusy))
            } else {
                (
                    EngineView { table: self.table.allocated(), ..self },
                    respond(
                        r,
                        channel,
                        CMD_INIT,
                        InitResponseView::answer(
                            message.data,
                            self.table.next_id(),
                            self.table.info,
                        ).payload(),
                    ),
                )
            }
        } else {
            match command_kind(message.command) {
                CommandKind::Init => if message.data.len() != INIT_NONCE_LEN {
                    (self, report(r, channel, ErrorCode::InvalidLen))
                } else {
                    (
                        EngineView { table: self.table.release_lock(channel).0, ..self },
                        respond(
                            r,
                            channel,
                            CMD_INIT,
                            InitResponseView::answer(
                                message.data,
                                channel,
                                self.table.info,
                            ).payload(),
                        ),
                    )
                },
                CommandKind::Cancel => (self, Seq::empty()),
                CommandKind::Outbound | CommandKind::Unknown => (
                    self,
                    report(r, channel, ErrorCode::InvalidCmd),
                ),
                CommandKind::Lock => if self.table.locked_against(channel) {
                    (self, report(r, channel, ErrorCode::LockRequired))
                } else if message.data.len() != 1 {
                    (self, report(r, channel, ErrorCode::InvalidLen))
                } else if message.data[0] == 0 {
                    (
                        EngineView { table: self.table.release_lock(channel).0, ..self },
                        respond(r, channel, CMD_LOCK, Seq::empty()),
                    )
                } else {
                    (
                        EngineView { table: self.table.acquire_lock(channel).0, ..self },
                        respond(r, channel, CMD_LOCK, Seq::empty()),
                    )
                },
                CommandKind::Forward => if self.table.locked_against(channel) {
                    (self, report(r, channel, ErrorCode::LockRequired))
                } else if self.next_ticket == u64::MAX {
                    (self, report(r, channel, ErrorCode::Other))
                } else {
                    (
                        EngineView {
                            table: self.table.with_channel(
                                i,
                                self.channel(i).to_dispatching(
                                    message.command,
                                    self.next_ticket,
                                    self.now,
                                ),
                            ),
                            next_ticket: (self.next_ticket + 1) as u64,
                            ..self
                        },
                        seq![
                            ActionView::Dispatch {
                                channel,
                                ticket: self.next_ticket,
                                command: message.command,
                                payload: message.data,
                            },
                        ],
                    )
                },
            }
        }
    }

    /// Whether request `ticket` of `channel` is the one that the engine waits
    /// for.
    pub open spec fn awaits(self, channel: u32, ticket: u64) -> bool {
        self.table.slot(channel) matches Some(i) && self.channel(i).state
            == ChannelState::Dispatching && self.channel(i).ticket == ticket
    }

    /// What the processor's word on request `ticket` of `channel` makes of the
    /// engine. Word on a request that the engine does not wait for changes
    /// nothing and asks for nothing.
    pub open spec fn on_outcome(self, channel: u32, ticket: u64, outcome: OutcomeView) -> (
        EngineView,
        Seq<ActionView>,
    ) {
        if !self.awaits(channel, ticket) {
            (self, Seq::empty())
        } else {
            let i = self.table.slot(channel).unwrap();
            let command = self.channel(i).command;
            match outcome {
                OutcomeView::Pending(status) => (
                    self.with_channel(i, ChannelView { status, ..self.channel(i) }),
                    Seq::empty(),
                ),
                OutcomeView::Ready(bytes) => (
                    self.idled(i),
                    if bytes.len() > max_message_len(self.r()) {
                        report(self.r(), channel, ErrorCode::Other)
                    } else {
                        respond(self.r(), channel, command, bytes)
                    },
                ),
                OutcomeView::Failed(code) => (
                    self.idled(i),
                    respond(self.r(), channel, command, seq![code]),
                ),
            }
        }
    }

    /// What the instant `now` makes of one channel: a receiving channel whose
    /// window has closed gives up, a dispatching channel has its request
    /// polled and, where the interval has passed, sends a keepalive.
    pub open spec fn tick_channel(self, now: u64, channel: ChannelView) -> (
        ChannelView,
        Seq<ActionView>,
    ) {
        if channel.state == ChannelState::Receiving && expired(
            channel.since,
            now,
            self.config.receive_timeout,
        ) {
            (channel.to_idle(), report(self.r(), channel.id, ErrorCode::MsgTimeout))
        } else if channel.state == ChannelState::Dispatching {
            let poll = ActionView::Poll { channel: channel.id, ticket: channel.ticket };
            if expired(channel.since, now, self.config.keepalive_interval) {
                (
                    ChannelView { since: now, ..channel },
                    seq![
                        ActionView::Send(
                            keepalive_packet(self.r(), channel.id, channel.status).wire(),
                        ),
                        poll,
                    ],
                )
            } else {
                (channel, seq![poll])
            }
        } else {
            (channel, Seq::empty())
        }
    }

    /// The actions that the instant `now` asks for on the first `n` channels,
    /// channel by channel in the order of the table.
    pub open spec fn tick_actions(self, now: u64, n: int) -> Seq<ActionView>
        decreases n,
    {
        if n <= 0 {
            Seq::empty()
        } else {
            self.tick_actions(now, n - 1) + self.tick_channel(now, self.channel(n - 1)).1
        }
    }

    /// The channels as the instant `now` leaves them.
    pub open spec fn ticked_channels(self, now: u64) -> Seq<ChannelView> {
        Seq::new(
            self.table.channels.len(),
            |i: int| self.tick_channel(now, self.channel(i)).0,
        )
    }

    /// What an instant that the host reports makes of the engine.
    pub open spec fn on_tick(self, reported: u64) -> (EngineView, Seq<ActionView>) {
        let now = advanced(self.now, reported);
        (
            EngineView {
                table: TableView { channels: self.ticked_channels(now), ..self.table },
                now,
                ..self
            },
            self.tick_actions(now, self.table.channels.len() as int),
        )
    }

    /// The engine after a reset: no channel allocated, the lock free, the
    /// clock at 0. Tickets are not handed out again.
    pub open spec fn reset(self) -> EngineView {
        EngineView { table: self.table.cleared(), now: 0, ..self }
    }
}

} // verus!
