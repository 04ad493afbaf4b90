//! Every event leaves a well-formed engine well formed.

use crate::channel::{
    law_allocation_fresh, lemma_lock_wf, ChannelState, ChannelView, TableView,
};
use crate::codec::{max_message_len, parse, PacketView};
use crate::config::Config;
use crate::dispatch::OutcomeView;
use crate::message::{lemma_append_wf, lemma_start_wf, MessageView};
use crate::model::EngineView;
use crate::protocol::BROADCAST_CHANNEL;
use vstd::prelude::*;

verus! {

/// A fresh engine is well formed.
pub proof fn law_fresh_wf(config: Config)
    requires
        config.valid(),
    ensures
        EngineView::fresh(config).wf(),
{
}

/// Replacing a channel by one of the same id and the same hold on the lock
/// that is not in the error state, and that waits for no ticket still to be
/// handed out, keeps the engine well formed.
pub proof fn lemma_with_channel_wf(s: EngineView, i: int, channel: ChannelView)
    requires
        s.wf(),
        0 <= i < s.table.channels.len(),
        channel.id == s.channel(i).id,
        channel.lock_holder == s.channel(i).lock_holder,
        channel.wf(s.r()),
        channel.state != ChannelState::Error,
        channel.state == ChannelState::Dispatching ==> channel.ticket < s.next_ticket,
        channel.state == ChannelState::Dispatching ==> forall|j: int|
            0 <= j < s.table.channels.len() && j != i && (#[trigger] s.table.channels[j]).state
                == ChannelState::Dispatching ==> s.table.channels[j].ticket != channel.ticket,
    ensures
        s.with_channel(i, channel).wf(),
{
    let t = s.with_channel(i, channel);
    assert forall|j: int| 0 <= j < t.table.channels.len() implies (#[trigger] t.table.channels[j]).wf(
        t.table.report_size,
    ) && (t.table.channels[j].lock_holder <==> t.table.lock == Some(t.table.channels[j].id))
        && t.table.channels[j].state != ChannelState::Error && (t.table.channels[j].state
        == ChannelState::Dispatching ==> t.table.channels[j].ticket < t.next_ticket) by {
        if j != i {
            assert(t.table.channels[j] == s.table.channels[j]);
        }
    }
    assert forall|j: int| 1 <= j < t.table.channels.len() implies (#[trigger] t.table.channels[j]).id
        == j by {
        if j != i {
            assert(t.table.channels[j] == s.table.channels[j]);
        }
    }
}

/// Ending a channel's transaction keeps the engine well formed.
pub proof fn lemma_idled_wf(s: EngineView, i: int)
    requires
        s.wf(),
        0 <= i < s.table.channels.len(),
    ensures
        s.idled(i).wf(),
        s.idled(i).channel(i) == s.channel(i).to_idle(),
        s.idled(i).table.channels.len() == s.table.channels.len(),
        s.idled(i).table.slot(s.channel(i).id) == s.table.slot(s.channel(i).id),
{
    lemma_with_channel_wf(s, i, s.channel(i).to_idle());
}

/// Replacing the table by a well-formed one in which every channel that was
/// there stands where it stood in its transaction, and every new channel is
/// idle, keeps the engine well formed.
pub proof fn lemma_same_transactions_wf(s: EngineView, table: TableView)
    requires
        s.wf(),
        table.wf(),
        table.report_size == s.table.report_size,
        table.capacity == s.table.capacity,
        table.info == s.table.info,
        table.lock != Some(BROADCAST_CHANNEL),
        table.channels.len() >= s.table.channels.len(),
        forall|j: int|
            0 <= j < s.table.channels.len() ==> (#[trigger] table.channels[j]).state
                == s.table.channels[j].state && table.channels[j].ticket
                == s.table.channels[j].ticket,
        forall|j: int|
            s.table.channels.len() <= j < table.channels.len() ==> (#[trigger] table.channels[j]).state
                == ChannelState::Idle,
    ensures
        (EngineView { table, ..s }).wf(),
{
    let t = EngineView { table, ..s };
    assert forall|j: int| 0 <= j < t.table.channels.len() implies (#[trigger] t.table.channels[j]).state
        != ChannelState::Error && (t.table.channels[j].state == ChannelState::Dispatching
        ==> t.table.channels[j].ticket < t.next_ticket) by {
        if j < s.table.channels.len() {
            assert(s.table.channels[j].state != ChannelState::Error);
        }
    }
    assert forall|j: int, k: int|
        0 <= j < t.table.channels.len() && 0 <= k < t.table.channels.len() && j != k && (
        #[trigger] t.table.channels[j]).state == ChannelState::Dispatching && (
        #[trigger] t.table.channels[k]).state == ChannelState::Dispatching implies t.table.channels[j].ticket
        != t.table.channels[k].ticket by {
        assert(s.table.channels[j].state == ChannelState::Dispatching);
        assert(s.table.channels[k].state == ChannelState::Dispatching);
    }
}

/// Executing a complete message keeps the engine well formed.
pub proof fn lemma_execute_wf(s: EngineView, i: int, message: MessageView)
    requires
        s.wf(),
        s.table.slot(message.channel) == Some(i),
    ensures
        s.execute(i, message).0.wf(),
{
    let t = s.execute(i, message).0;
    if t.next_ticket == s.next_ticket {
        lemma_lock_wf(s.table, message.channel);
        if !s.table.full() {
            law_allocation_fresh(s.table);
        }
        lemma_same_transactions_wf(s, t.table);
    } else {
        let raised = EngineView { next_ticket: (s.next_ticket + 1) as u64, ..s };
        assert(raised.wf());
        lemma_with_channel_wf(
            raised,
            i,
            s.channel(i).to_dispatching(message.command, s.next_ticket, s.now),
        );
        assert(t == raised.with_channel(
            i,
            s.channel(i).to_dispatching(message.command, s.next_ticket, s.now),
        ));
    }
}

/// An initialization packet keeps the engine well formed.
pub proof fn lemma_on_init_wf(
    s: EngineView,
    channel: u32,
    command: u8,
    total_length: u16,
    payload: Seq<u8>,
)
    requires
        s.wf(),
    ensures
        s.on_init(channel, command, total_length, payload).0.wf(),
{
    match s.table.slot(channel) {
        None => {},
        Some(i) => {
            lemma_idled_wf(s, i);
            if total_length <= max_message_len(s.r()) {
                let message = MessageView::start(
                    s.r(),
                    channel,
                    command,
                    total_length,
                    payload,
                    s.now,
                );
                lemma_start_wf(s.r(), channel, command, total_length, payload, s.now);
                if message.complete() {
                    lemma_execute_wf(s.idled(i), i, message);
                } else {
                    lemma_with_channel_wf(s, i, s.channel(i).to_receiving(message, s.now));
                }
            }
        },
    }
}

/// A continuation packet keeps the engine well formed.
pub proof fn lemma_on_cont_wf(s: EngineView, channel: u32, sequence: u8, payload: Seq<u8>)
    requires
        s.wf(),
    ensures
        s.on_cont(channel, sequence, payload).0.wf(),
{
    match s.table.slot(channel) {
        None => {},
        Some(i) => {
            lemma_idled_wf(s, i);
            if s.channel(i).state == ChannelState::Receiving {
                let message = s.channel(i).message.unwrap();
                if sequence == message.next_sequence {
                    lemma_append_wf(s.r(), message, payload);
                    let longer = message.append(s.r(), payload);
                    if longer.complete() {
                        lemma_execute_wf(s.idled(i), i, longer);
                    } else {
                        lemma_with_channel_wf(s, i, s.channel(i).to_receiving(longer, s.now));
                    }
                }
            }
        },
    }
}

/// A block of bytes from the host keeps the engine well formed.
pub proof fn law_packet_keeps_wf(s: EngineView, raw: Seq<u8>)
    requires
        s.wf(),
    ensures
        s.on_packet(raw).0.wf(),
{
    match parse(s.r(), raw) {
        None => {},
        Some(PacketView::Init { channel, command, total_length, payload }) => {
            lemma_on_init_wf(s, channel, command, total_length, payload);
        },
        Some(PacketView::Cont { channel, sequence, payload }) => {
            lemma_on_cont_wf(s, channel, sequence, payload);
        },
    }
}

/// The processor's word keeps the engine well formed.
pub proof fn law_outcome_keeps_wf(s: EngineView, channel: u32, ticket: u64, outcome: OutcomeView)
    requires
        s.wf(),
    ensures
        s.on_outcome(channel, ticket, outcome).0.wf(),
{
    if s.awaits(channel, ticket) {
        let i = s.table.slot(channel).unwrap();
        lemma_idled_wf(s, i);
        match outcome {
            OutcomeView::Pending(status) => {
                lemma_with_channel_wf(s, i, ChannelView { status, ..s.channel(i) });
            },
            _ => {},
        }
    }
}

/// A reported instant keeps the engine well formed.
pub proof fn law_tick_keeps_wf(s: EngineView, reported: u64)
    requires
        s.wf(),
    ensures
        s.on_tick(reported).0.wf(),
{
    let t = s.on_tick(reported).0;
    assert forall|j: int| 0 <= j < t.table.channels.len() implies {
        let c = #[trigger] t.table.channels[j];
        &&& c.id == s.table.channels[j].id
        &&& c.lock_holder == s.table.channels[j].lock_holder
        &&& c.wf(t.table.report_size)
        &&& c.state != ChannelState::Error
        &&& (c.state == ChannelState::Dispatching ==> c.ticket < t.next_ticket)
    } by {
        let old_c = s.table.channels[j];
        assert(old_c.wf(s.table.report_size));
    }
}

/// A reset keeps the engine well formed.
pub proof fn law_reset_keeps_wf(s: EngineView)
    requires
        s.wf(),
    ensures
        s.reset().wf(),
{
}

} // verus!
