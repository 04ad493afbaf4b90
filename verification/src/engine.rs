//! The protocol engine: it takes reports, instants and the command
//! processor's word from its host, keeps the channels, and hands back what
//! the host is to do.

use crate::channel::{ChannelState, ChannelTable, ChannelView, InitResponse, TableView};
use crate::codec::{max_message_len, read_be32, Packet, PacketCodec};
use crate::config::{Config, StrayPolicy};
use crate::dispatch::{
    actions_view, push_action, push_packet, push_report, push_response, report, respond, Action,
    Outcome,
};
use crate::message::Message;
use crate::model::EngineView;
use crate::preserve::{
    lemma_execute_wf, law_fresh_wf, lemma_idled_wf, law_reset_keeps_wf, lemma_with_channel_wf,
};
use crate::protocol::{
    classify, is_control_command, CommandKind, ErrorCode, BROADCAST_CHANNEL, CMD_INIT, CMD_LOCK,
    INIT_NONCE_LEN,
};
use crate::timer::Timer;
use vstd::prelude::*;

verus! {

/// The framing and multiplexing state machine.
#[derive(Clone, Debug, PartialEq, Eq)]
pub struct ProtocolEngine {
    config: Config,
    codec: PacketCodec,
    table: ChannelTable,
    timer: Timer,
    next_ticket: u64,
}

impl View for ProtocolEngine {
    type V = EngineView;

    closed spec fn view(&self) -> EngineView {
        EngineView {
            config: self.config,
            table: self.table@,
            now: self.timer@,
            next_ticket: self.next_ticket,
        }
    }
}

impl ProtocolEngine {
    /// Holds of every engine that `new` made and its events changed.
    pub closed spec fn wf(&self) -> bool {
        &&& self.codec.wf()
        &&& self.codec.size() == self.config.report_size
        &&& self.table.wf()
        &&& self@.wf()
    }

    /// What `wf` says of the value.
    pub proof fn lemma_view_wf(&self)
        requires
            self.wf(),
        ensures
            self@.wf(),
    {
    }

    fn build(config: Config, codec: PacketCodec) -> (engine: ProtocolEngine)
        requires
            config.valid(),
            codec.wf(),
            codec.size() == config.report_size,
        ensures
            engine.wf(),
            engine@ == EngineView::fresh(config),
    {
        proof {
            law_fresh_wf(config);
        }
        ProtocolEngine {
            config,
            codec,
            table: ChannelTable::new(codec, config.max_channels, config.device),
            timer: Timer::new(),
            next_ticket: 0,
        }
    }

    /// An engine with the given choices, where they can be served: no channel
    /// allocated, the lock free, the clock at 0.
    pub fn new(config: Config) -> (made: Option<ProtocolEngine>)
        ensures
            made is Some <==> config.valid(),
            made matches Some(engine) ==> engine.wf() && engine@ == EngineView::fresh(config),
    {
        match PacketCodec::new(config.report_size) {
            Some(codec) => Some(ProtocolEngine::build(config, codec)),
            None => None,
        }
    }

    /// An engine with the default choices.
    pub fn standard() -> (engine: ProtocolEngine)
        ensures
            engine.wf(),
            engine@ == EngineView::fresh(Config::standard()),
    {
        ProtocolEngine::build(Config::default(), PacketCodec::standard())
    }

    /// The choices that the engine was made with.
    pub fn config(&self) -> (config: Config)
        ensures
            config == self@.config,
    {
        self.config
    }

    /// The codec for the engine's reports.
    pub fn codec(&self) -> (codec: PacketCodec)
        requires
            self.wf(),
        ensures
            codec.wf(),
            codec.size() == self@.config.report_size,
    {
        self.codec
    }

    /// The channels.
    pub fn table(&self) -> (table: &ChannelTable)
        requires
            self.wf(),
        ensures
            table.wf(),
            table@ == self@.table,
    {
        &self.table
    }

    /// The latest instant that the host has reported.
    pub fn now(&self) -> (now: u64)
        ensures
            now == self@.now,
    {
        self.timer.now()
    }

    /// The ticket of the next request to the command processor.
    pub fn next_ticket(&self) -> (ticket: u64)
        ensures
            ticket == self@.next_ticket,
    {
        self.next_ticket
    }

    /// Takes one report from the host.
    pub fn on_packet(&mut self, raw: &[u8]) -> (actions: Vec<Action>)
        requires
            old(self).wf(),
        ensures
            final(self).wf(),
            (final(self)@, actions_view(actions@)) == old(self)@.on_packet(raw@),
    {
        let mut out: Vec<Action> = Vec::new();
        assert(actions_view(out@) =~= Seq::empty());
        match self.codec.decode(raw) {
            Err(_) => {
                let channel: u32 = if raw.len() >= 4 {
                    read_be32(raw[0], raw[1], raw[2], raw[3])
                } else {
                    BROADCAST_CHANNEL
                };
                push_report(&self.codec, &mut out, channel, ErrorCode::InvalidLen);
            },
            Ok(Packet::Init { channel, command, total_length, payload }) => {
                self.on_init(channel, command, total_length, payload.as_slice(), &mut out);
            },
            Ok(Packet::Cont { channel, sequence, payload }) => {
                self.on_cont(channel, sequence, payload.as_slice(), &mut out);
            },
        }
        assert(actions_view(out@) =~= old(self)@.on_packet(raw@).1);
        out
    }

    /// Takes the command processor's word on request `ticket` of `channel`.
    /// Word on a request that the engine does not wait for is dropped.
    pub fn on_outcome(&mut self, channel: u32, ticket: u64, outcome: Outcome) -> (actions: Vec<
        Action,
    >)
        requires
            old(self).wf(),
        ensures
            final(self).wf(),
            (final(self)@, actions_view(actions@)) == old(self)@.on_outcome(
                channel,
                ticket,
                outcome@,
            ),
    {
        let mut out: Vec<Action> = Vec::new();
        assert(actions_view(out@) =~= Seq::empty());
        let slot: usize = match self.table.slot_of(channel) {
            Some(slot) => slot,
            None => {
                return out;
            },
        };
        let waiting: bool = match self.table.channel(slot).state() {
            ChannelState::Dispatching => self.table.channel(slot).ticket() == ticket,
            _ => false,
        };
        if !waiting {
            return out;
        }
        let command: u8 = self.table.channel(slot).command();
        proof {
            lemma_idled_wf(self@, slot as int);
        }
        match outcome {
            Outcome::Pending(status) => {
                proof {
                    lemma_with_channel_wf(
                        self@,
                        slot as int,
                        ChannelView { status, ..self@.channel(slot as int) },
                    );
                }
                self.table.set_status(slot, status);
            },
            Outcome::Ready(bytes) => {
                let _ = self.table.take_message(slot);
                if bytes.len() > self.codec.max_message_len() {
                    push_report(&self.codec, &mut out, channel, ErrorCode::Other);
                } else {
                    push_response(&self.codec, &mut out, channel, command, bytes.as_slice());
                }
            },
            Outcome::Failed(code) => {
                let _ = self.table.take_message(slot);
                let mut body: Vec<u8> = Vec::new();
                body.push(code);
                assert(body@ =~= seq![code]);
                push_response(&self.codec, &mut out, channel, command, body.as_slice());
            },
        }
        assert(actions_view(out@) =~= old(self)@.on_outcome(channel, ticket, outcome@).1);
        out
    }

    /// Takes an instant from the host: receiving channels whose window has
    /// closed give up, dispatching channels have their request polled and
    /// send a keepalive where the interval has passed.
    pub fn on_tick(&mut self, now: u64) -> (actions: Vec<Action>)
        requires
            old(self).wf(),
        ensures
            final(self).wf(),
            (final(self)@, actions_view(actions@)) == old(self)@.on_tick(now),
    {
        let mut out: Vec<Action> = Vec::new();
        assert(actions_view(out@) =~= Seq::empty());
        let ghost before = self@;
        self.timer.advance(now);
        let now: u64 = self.timer.now();
        let count: usize = self.table.len();
        let mut i: usize = 0;
        assert(self@.table.channels =~= Seq::new(
            count as nat,
            |j: int|
                if j < 0 {
                    before.tick_channel(now, before.channel(j)).0
                } else {
                    before.channel(j)
                },
        ));
        while i < count
            invariant
                i <= count,
                count == before.table.channels.len(),
                before.wf(),
                self.wf(),
                self@ == (EngineView {
                    now,
                    table: TableView {
                        channels: Seq::new(
                            count as nat,
                            |j: int|
                                if j < i {
                                    before.tick_channel(now, before.channel(j)).0
                                } else {
                                    before.channel(j)
                                },
                        ),
                        ..before.table
                    },
                    ..before
                }),
                actions_view(out@) == before.tick_actions(now, i as int),
            decreases count - i,
        {
            let ghost at_head = self@;
            let ghost channel_before = before.channel(i as int);
            assert(self@.channel(i as int) == channel_before);
            let state: ChannelState = self.table.channel(i).state();
            let since: u64 = self.table.channel(i).since();
            let id: u32 = self.table.channel(i).id();
            match state {
                ChannelState::Receiving => {
                    if self.timer.expired(since, self.config.receive_timeout) {
                        proof {
                            lemma_idled_wf(self@, i as int);
                        }
                        self.table.fail(i);
                        push_report(&self.codec, &mut out, id, ErrorCode::MsgTimeout);
                        let _ = self.table.take_message(i);
                        assert(self@.table.channels =~= at_head.idled(i as int).table.channels);
                    }
                },
                ChannelState::Dispatching => {
                    let ticket: u64 = self.table.channel(i).ticket();
                    if self.timer.expired(since, self.config.keepalive_interval) {
                        let status = self.table.channel(i).status();
                        let packet: Packet = self.codec.encode_keepalive(id, status);
                        push_packet(&mut out, &packet);
                        proof {
                            lemma_with_channel_wf(
                                self@,
                                i as int,
                                ChannelView { since: now, ..channel_before },
                            );
                        }
                        self.table.touch(i, now);
                    }
                    push_action(&mut out, Action::Poll { channel: id, ticket });
                },
                _ => {},
            }
            proof {
                let step = before.tick_channel(now, channel_before);
                assert(actions_view(out@) =~= before.tick_actions(now, i as int) + step.1);
                assert(self@.table.channels =~= Seq::new(
                    count as nat,
                    |j: int|
                        if j < i + 1 {
                            before.tick_channel(now, before.channel(j)).0
                        } else {
                            before.channel(j)
                        },
                ));
            }
            i = i + 1;
        }
        assert(self@.table.channels =~= before.ticked_channels(now));
        out
    }

    /// Drops every allocated channel, frees the lock and puts the clock back
    /// to 0. Requests that are with the command processor are forgotten: word
    /// on them is dropped when it comes.
    pub fn reset(&mut self)
        requires
            old(self).wf(),
        ensures
            final(self).wf(),
            final(self)@ == old(self)@.reset(),
    {
        proof {
            law_reset_keeps_wf(self@);
        }
        self.table.reset();
        self.timer.reset();
    }

    /// Whether a channel other than the one in place `slot` is in the middle
    /// of a transaction.
    fn others_busy(&self, slot: usize) -> (busy: bool)
        requires
            self.wf(),
        ensures
            busy == self@.others_busy(slot as int),
    {
        let count: usize = self.table.len();
        let mut j: usize = 0;
        let mut busy: bool = false;
        while j < count
            invariant
                j <= count,
                count == self@.table.channels.len(),
                busy == (exists|k: int|
                    0 <= k < j && k != slot && (#[trigger] self@.channel(k)).busy()),
            decreases count - j,
        {
            if j != slot {
                match self.table.channel(j).state() {
                    ChannelState::Receiving => {
                        busy = true;
                    },
                    ChannelState::Dispatching => {
                        busy = true;
                    },
                    _ => {},
                }
            }
            assert(self@.channel(j as int).busy() && j != slot ==> busy);
            j = j + 1;
        }
        busy
    }

    /// Ends whatever the channel in place `slot` is doing.
    fn abort(&mut self, slot: usize, out: &mut Vec<Action>)
        requires
            old(self).wf(),
            slot < old(self)@.table.channels.len(),
        ensures
            final(self).wf(),
            final(self)@ == old(self)@.idled(slot as int),
            actions_view(final(out)@) == actions_view(old(out)@) + old(self)@.abort_actions(
                slot as int,
            ),
    {
        proof {
            lemma_idled_wf(self@, slot as int);
        }
        match self.table.channel(slot).state() {
            ChannelState::Dispatching => {
                let channel: u32 = self.table.channel(slot).id();
                let ticket: u64 = self.table.channel(slot).ticket();
                push_action(out, Action::Cancel { channel, ticket });
            },
            _ => {},
        }
        let _ = self.table.take_message(slot);
        assert(actions_view(out@) =~= actions_view(old(out)@) + old(self)@.abort_actions(
            slot as int,
        ));
    }

    /// Strikes down the transaction of the channel in place `slot`, reports
    /// why, and lets the channel rest.
    fn violation(&mut self, slot: usize, channel: u32, code: ErrorCode, out: &mut Vec<Action>)
        requires
            old(self).wf(),
            slot < old(self)@.table.channels.len(),
        ensures
            final(self).wf(),
            final(self)@ == old(self)@.idled(slot as int),
            actions_view(final(out)@) == actions_view(old(out)@) + report(
                old(self)@.r(),
                channel,
                code,
            ),
    {
        proof {
            lemma_idled_wf(self@, slot as int);
        }
        self.table.fail(slot);
        push_report(&self.codec, out, channel, code);
        let _ = self.table.take_message(slot);
        assert(self@.table.channels =~= old(self)@.idled(slot as int).table.channels);
    }

    /// Takes an initialization packet.
    fn on_init(
        &mut self,
        channel: u32,
        command: u8,
        total_length: u16,
        payload: &[u8],
        out: &mut Vec<Action>,
    )
        requires
            old(self).wf(),
        ensures
            final(self).wf(),
            final(self)@ == old(self)@.on_init(channel, command, total_length, payload@).0,
            actions_view(final(out)@) == actions_view(old(out)@) + old(self)@.on_init(
                channel,
                command,
                total_length,
                payload@,
            ).1,
    {
        let slot: usize = match self.table.slot_of(channel) {
            Some(slot) => slot,
            None => {
                push_report(&self.codec, out, channel, ErrorCode::InvalidChannel);
                return ;
            },
        };
        if self.config.exclusive && !is_control_command(command) && self.others_busy(slot) {
            push_report(&self.codec, out, channel, ErrorCode::ChannelBusy);
            return ;
        }
        proof {
            lemma_idled_wf(self@, slot as int);
        }
        self.abort(slot, out);
        if total_length as usize > self.codec.max_message_len() {
            self.violation(slot, channel, ErrorCode::InvalidLen, out);
            assert(self@.table.channels =~= old(self)@.idled(slot as int).table.channels);
            assert(actions_view(out@) =~= actions_view(old(out)@) + old(self)@.on_init(
                channel,
                command,
                total_length,
                payload@,
            ).1);
            return ;
        }
        let message: Message = Message::start(
            &self.codec,
            channel,
            command,
            total_length,
            payload,
            self.timer.now(),
        );
        if message.is_complete() {
            self.execute(slot, message, out);
            assert(actions_view(out@) =~= actions_view(old(out)@) + old(self)@.on_init(
                channel,
                command,
                total_length,
                payload@,
            ).1);
        } else {
            proof {
                lemma_with_channel_wf(
                    self@,
                    slot as int,
                    self@.channel(slot as int).to_receiving(message@, self@.now),
                );
            }
            let now: u64 = self.timer.now();
            self.table.begin(slot, message, now);
            assert(self@.table.channels =~= old(self)@.on_init(
                channel,
                command,
                total_length,
                payload@,
            ).0.table.channels);
        }
    }

    /// Takes a continuation packet.
    fn on_cont(&mut self, channel: u32, sequence: u8, payload: &[u8], out: &mut Vec<Action>)
        requires
            old(self).wf(),
        ensures
            final(self).wf(),
            final(self)@ == old(self)@.on_cont(channel, sequence, payload@).0,
            actions_view(final(out)@) == actions_view(old(out)@) + old(self)@.on_cont(
                channel,
                sequence,
                payload@,
            ).1,
    {
        let slot: usize = match self.table.slot_of(channel) {
            Some(slot) => slot,
            None => {
                push_report(&self.codec, out, channel, ErrorCode::InvalidChannel);
                return ;
            },
        };
        proof {
            self.table.lemma_view_wf();
            assert(self@.channel(slot as int).wf(self@.r()));
        }
        let expected: Option<u8> = match self.table.channel(slot).state() {
            ChannelState::Receiving => match self.table.channel(slot).message() {
                Some(message) => Some(message.next_sequence()),
                None => None,
            },
            _ => None,
        };
        let expected: u8 = match expected {
            Some(expected) => expected,
            None => {
                match self.config.stray_continuation {
                    StrayPolicy::Reject => {
                        push_report(&self.codec, out, channel, ErrorCode::InvalidChannel);
                    },
                    StrayPolicy::Drop => {
                        assert(actions_view(out@) =~= actions_view(old(out)@) + Seq::empty());
                    },
                }
                return ;
            },
        };
        if sequence != expected {
            self.violation(slot, channel, ErrorCode::InvalidSeq, out);
            return ;
        }
        proof {
            lemma_idled_wf(self@, slot as int);
        }
        let taken: Option<Message> = self.table.take_message(slot);
        if let Some(mut message) = taken {
            message.append(&self.codec, payload);
            if message.is_complete() {
                self.execute(slot, message, out);
            } else {
                proof {
                    lemma_with_channel_wf(
                        self@,
                        slot as int,
                        self@.channel(slot as int).to_receiving(message@, self@.now),
                    );
                }
                let now: u64 = self.timer.now();
                self.table.begin(slot, message, now);
                assert(self@.table.channels =~= old(self)@.on_cont(
                    channel,
                    sequence,
                    payload@,
                ).0.table.channels);
                assert(actions_view(out@) =~= actions_view(old(out)@) + Seq::empty());
            }
        }
    }

    /// Executes a complete message that arrived on the channel in place
    /// `slot`.
    fn execute(&mut self, slot: usize, message: Message, out: &mut Vec<Action>)
        requires
            old(self).wf(),
            old(self)@.table.slot(message@.channel) == Some(slot as int),
        ensures
            final(self).wf(),
            final(self)@ == old(self)@.execute(slot as int, message@).0,
            actions_view(final(out)@) == actions_view(old(out)@) + old(self)@.execute(
                slot as int,
                message@,
            ).1,
    {
        proof {
            lemma_execute_wf(self@, slot as int, message@);
        }
        let channel: u32 = message.channel();
        let command: u8 = message.command();
        let kind: CommandKind = classify(command);
        if channel == BROADCAST_CHANNEL {
            match kind {
                CommandKind::Init => {
                    if message.bytes_received() != INIT_NONCE_LEN {
                        push_report(&self.codec, out, channel, ErrorCode::InvalidLen);
                    } else {
                        match self.table.allocate(message.payload().as_slice()) {
                            Ok(response) => {
                                self.answer(out, channel, &response);
                            },
                            Err(_) => {
                                push_report(&self.codec, out, channel, ErrorCode::ChannelBusy);
                            },
                        }
                    }
                },
                _ => {
                    push_report(&self.codec, out, channel, ErrorCode::InvalidChannel);
                },
            }
            return ;
        }
        match kind {
            CommandKind::Init => {
                if message.bytes_received() != INIT_NONCE_LEN {
                    push_report(&self.codec, out, channel, ErrorCode::InvalidLen);
                } else {
                    let _ = self.table.release_lock(channel);
                    let response: InitResponse = InitResponse::answer(
                        message.payload().as_slice(),
                        channel,
                        self.table.info(),
                    );
                    self.answer(out, channel, &response);
                }
            },
            CommandKind::Cancel => {
                assert(actions_view(out@) =~= actions_view(old(out)@) + Seq::empty());
            },
            CommandKind::Outbound => {
                push_report(&self.codec, out, channel, ErrorCode::InvalidCmd);
            },
            CommandKind::Unknown => {
                push_report(&self.codec, out, channel, ErrorCode::InvalidCmd);
            },
            CommandKind::Lock => {
                if self.table.held_by_other(channel) {
                    push_report(&self.codec, out, channel, ErrorCode::LockRequired);
                } else if message.bytes_received() != 1 {
                    push_report(&self.codec, out, channel, ErrorCode::InvalidLen);
                } else {
                    if message.payload()[0] == 0 {
                        let _ = self.table.release_lock(channel);
                    } else {
                        let _ = self.table.acquire_lock(channel);
                    }
                    let empty: Vec<u8> = Vec::new();
                    assert(empty@ =~= Seq::empty());
                    push_response(&self.codec, out, channel, CMD_LOCK, empty.as_slice());
                }
            },
            CommandKind::Forward => {
                if self.table.held_by_other(channel) {
                    push_report(&self.codec, out, channel, ErrorCode::LockRequired);
                } else if self.next_ticket == u64::MAX {
                    push_report(&self.codec, out, channel, ErrorCode::Other);
                } else {
                    let ticket: u64 = self.next_ticket;
                    let now: u64 = self.timer.now();
                    self.table.dispatching(slot, command, ticket, now);
                    self.next_ticket = ticket + 1;
                    push_action(
                        out,
                        Action::Dispatch { channel, ticket, command, payload: message.into_payload() },
                    );
                    assert(actions_view(out@) =~= actions_view(old(out)@) + old(self)@.execute(
                        slot as int,
                        message@,
                    ).1);
                }
            },
        }
    }

    /// Sends the answer to a handshake.
    fn answer(&self, out: &mut Vec<Action>, channel: u32, response: &InitResponse)
        requires
            self.codec.wf(),
            response@.nonce.len() == INIT_NONCE_LEN,
        ensures
            actions_view(final(out)@) == actions_view(old(out)@) + respond(
                self.codec.size(),
                channel,
                CMD_INIT,
                response@.payload(),
            ),
    {
        let body: Vec<u8> = response.payload();
        proof {
            self.codec.lemma_size_valid();
            assert(body@.len() == 17);
            assert(max_message_len(self.codec.size()) >= 17);
        }
        push_response(&self.codec, out, channel, CMD_INIT, body.as_slice());
    }
}

} // verus!
