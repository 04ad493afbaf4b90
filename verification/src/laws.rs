//! What holds of the engine whatever it is fed: statements over the state
//! machine of `model`, each with its proof.

use crate::channel::{lemma_lock_wf, ChannelState, ChannelView, InitResponseView};
use crate::codec::{
    be32, cont_capacity, error_packet, fragment_at, fragment_bytes, fragment_end, fragment_start,
    fragments, init_capacity, init_command, keepalive_packet, lemma_packets_counted,
    lemma_parse_wire, lemma_value_of_be32, max_message_len, packets_needed, padded, parse,
    valid_report_size, PacketView,
};
use crate::dispatch::{report, respond, ActionView, OutcomeView};
use crate::message::{least, MessageView};
use crate::model::{best_channel, EngineView};
use crate::preserve::{law_packet_keeps_wf, law_tick_keeps_wf, lemma_idled_wf};
use crate::protocol::{
    command_kind, is_control, CommandKind, ErrorCode, BROADCAST_CHANNEL, CMD_CANCEL, CMD_ERROR,
    CMD_INIT, CMD_KEEPALIVE, CMD_LOCK, INIT_NONCE_LEN,
};
use crate::timer::{advanced, expired};
use vstd::arithmetic::div_mod::{lemma_fundamental_div_mod, lemma_mod_bound};
use vstd::prelude::*;

verus! {

/// Later packets end further into the message.
pub proof fn lemma_fragment_end_monotonic(r: int, a: int, b: int)
    requires
        valid_report_size(r),
        a <= b,
    ensures
        fragment_end(r, a) <= fragment_end(r, b),
        a < b ==> fragment_end(r, a) < fragment_end(r, b),
{
    let c = cont_capacity(r);
    assert(a * c <= b * c) by (nonlinear_arith)
        requires
            a <= b,
            c > 0,
    ;
    if a < b {
        assert(a * c < b * c) by (nonlinear_arith)
            requires
                a < b,
                c > 0,
        ;
    }
}

/// The last packet of a message is the first that reaches its end: the
/// message has bytes behind every packet before the last and none behind
/// the last, and it takes 129 packets at most.
pub proof fn lemma_last_fragment(r: int, len: int)
    requires
        valid_report_size(r),
        0 <= len <= max_message_len(r),
    ensures
        1 <= packets_needed(r, len) <= 129,
        len <= fragment_end(r, packets_needed(r, len) - 1),
        forall|j: int| 0 <= j < packets_needed(r, len) - 1 ==> fragment_end(r, j) < len,
{
    let c = cont_capacity(r);
    let n = packets_needed(r, len);
    if len > init_capacity(r) {
        let x = len - init_capacity(r) + c - 1;
        let q = x / c;
        lemma_fundamental_div_mod(x, c);
        lemma_mod_bound(x, c);
        assert(c * q == q * c) by (nonlinear_arith);
        assert(q >= 1) by (nonlinear_arith)
            requires
                x == q * c + x % c,
                x >= c,
                0 <= x % c < c,
                c > 0,
        ;
        assert(q <= 128) by (nonlinear_arith)
            requires
                x == q * c + x % c,
                x <= 128 * c + c - 1,
                0 <= x % c < c,
                c > 0,
        ;
        assert((q - 1) * c == q * c - c) by (nonlinear_arith);
        assert forall|j: int| 0 <= j < n - 1 implies fragment_end(r, j) < len by {
            lemma_fragment_end_monotonic(r, j, q - 1);
        }
    }
}

/// A message that fits the initialization packet travels as that packet
/// alone, with no continuation packet; where it fills the packet, the packet
/// carries it without padding.
pub proof fn law_single_packet(r: int, channel: u32, command: u8, payload: Seq<u8>)
    requires
        valid_report_size(r),
        payload.len() <= init_capacity(r),
    ensures
        fragments(r, channel, command, payload).len() == 1,
        fragments(r, channel, command, payload)[0] is Init,
        payload.len() == init_capacity(r) ==> fragments(r, channel, command, payload)[0].payload()
            == payload,
{
    if payload.len() == init_capacity(r) {
        assert(fragments(r, channel, command, payload)[0].payload() =~= payload);
    }
}

/// A message of `(r - 7) + k * (r - 5) + rest` bytes with `0 < rest <= r - 5`
/// travels as `1 + k + 1` packets: one initialization packet, then
/// continuation packets numbered from 0.
pub proof fn law_packet_count(
    r: int,
    channel: u32,
    command: u8,
    payload: Seq<u8>,
    k: int,
    rest: int,
)
    requires
        valid_report_size(r),
        0 <= k < 128,
        0 < rest <= cont_capacity(r),
        payload.len() == init_capacity(r) + k * cont_capacity(r) + rest,
    ensures
        packets_needed(r, payload.len() as int) == 1 + k + 1,
        fragments(r, channel, command, payload).len() == 1 + k + 1,
        fragments(r, channel, command, payload)[0] is Init,
        forall|j: int|
            1 <= j < 1 + k + 1 ==> #[trigger] fragments(r, channel, command, payload)[j]
                == (PacketView::Cont {
                channel,
                sequence: (j - 1) as u8,
                payload: fragments(r, channel, command, payload)[j].payload(),
            }),
{
    let c = cont_capacity(r);
    assert((k + 1) * c == k * c + c) by (nonlinear_arith);
    assert(k * c >= 0) by (nonlinear_arith)
        requires
            k >= 0,
            c > 0,
    ;
    lemma_packets_counted(r, payload.len() as int, k + 1);
}

/// A continuation packet whose sequence number is not the one that its
/// channel expects is answered with `InvalidSeq`; the channel is idle
/// afterwards and has lost its message, and nothing else has changed.
pub proof fn law_bad_sequence(
    s: EngineView,
    raw: Seq<u8>,
    channel: u32,
    sequence: u8,
    payload: Seq<u8>,
    i: int,
)
    requires
        s.wf(),
        parse(s.r(), raw) == Some((PacketView::Cont { channel, sequence, payload })),
        s.table.slot(channel) == Some(i),
        s.channel(i).state == ChannelState::Receiving,
        sequence != s.channel(i).message.unwrap().next_sequence,
    ensures
        s.on_packet(raw).1 == report(s.r(), channel, ErrorCode::InvalidSeq),
        s.on_packet(raw).0 == s.idled(i),
        s.on_packet(raw).0.channel(i).state == ChannelState::Idle,
        s.on_packet(raw).0.channel(i).message is None,
        s.on_packet(raw).0.table.channels.len() == s.table.channels.len(),
        forall|j: int|
            0 <= j < s.table.channels.len() && j != i ==> s.on_packet(raw).0.channel(j)
                == s.channel(j),
        s.on_packet(raw).0.table.lock == s.table.lock,
        s.on_packet(raw).0.now == s.now,
        s.on_packet(raw).0.next_ticket == s.next_ticket,
{
    assert(s.channel(i).wf(s.r()));
}

/// An initialization packet for a channel in the middle of a transaction
/// ends that transaction and begins one of the length that the packet
/// declares: where the packet does not hold the whole message the channel
/// is receiving a message that holds the packet's payload and nothing of
/// the old one; where it does, the message is executed at once. The
/// processor is told where it held a request of the channel. Left out: a
/// packet for an unknown channel, one that declares more than the longest
/// message, and one that the exclusive policy stops.
pub proof fn law_init_restarts(
    s: EngineView,
    raw: Seq<u8>,
    channel: u32,
    command: u8,
    total_length: u16,
    payload: Seq<u8>,
    i: int,
)
    requires
        s.wf(),
        parse(s.r(), raw) == Some(
            (PacketView::Init { channel, command, total_length, payload }),
        ),
        s.table.slot(channel) == Some(i),
        s.channel(i).busy(),
        total_length <= max_message_len(s.r()),
        !(s.config.exclusive && !is_control(command) && s.others_busy(i)),
    ensures
        total_length > init_capacity(s.r()) ==> {
            &&& s.on_packet(raw).1 == s.abort_actions(i)
            &&& s.on_packet(raw).0.channel(i).state == ChannelState::Receiving
            &&& s.on_packet(raw).0.channel(i).message == Some(
                (MessageView {
                    channel,
                    command,
                    total_length,
                    data: payload,
                    created_at: s.now,
                    next_sequence: 0,
                }),
            )
            &&& s.on_packet(raw).0.channel(i).since == s.now
            &&& forall|j: int|
                0 <= j < s.table.channels.len() && j != i ==> s.on_packet(raw).0.channel(j)
                    == s.channel(j)
        },
        total_length <= init_capacity(s.r()) ==> {
            let message = (MessageView {
                channel,
                command,
                total_length,
                data: payload.take(total_length as int),
                created_at: s.now,
                next_sequence: 0,
            });
            &&& s.on_packet(raw).0 == s.idled(i).execute(i, message).0
            &&& s.on_packet(raw).1 == s.abort_actions(i) + s.idled(i).execute(i, message).1
        },
        s.channel(i).state == ChannelState::Dispatching ==> s.abort_actions(i) == seq![
            (ActionView::Cancel { channel, ticket: s.channel(i).ticket }),
        ],
        s.channel(i).state == ChannelState::Receiving ==> s.abort_actions(i) == Seq::<
            ActionView,
        >::empty(),
{
    let r = s.r();
    let started = MessageView::start(r, channel, command, total_length, payload, s.now);
    assert(payload.len() == init_capacity(r));
    if total_length > init_capacity(r) {
        assert(started.data =~= payload);
    } else {
        assert(started.data =~= payload.take(total_length as int));
    }
}

/// Packets for different channels are different reports.
pub proof fn lemma_wire_names_channel(a: PacketView, b: PacketView)
    requires
        a.channel() != b.channel(),
    ensures
        a.wire() != b.wire(),
{
    lemma_value_of_be32(a.channel());
    lemma_value_of_be32(b.channel());
    let x = a.wire();
    let y = b.wire();
    assert(x[0] == be32(a.channel())[0] && x[1] == be32(a.channel())[1] && x[2] == be32(
        a.channel(),
    )[2] && x[3] == be32(a.channel())[3]);
    assert(y[0] == be32(b.channel())[0] && y[1] == be32(b.channel())[1] && y[2] == be32(
        b.channel(),
    )[2] && y[3] == be32(b.channel())[3]);
}

/// How often an action stands in a list of actions.
pub open spec fn occurrences(actions: Seq<ActionView>, action: ActionView) -> nat
    decreases actions.len(),
{
    if actions.len() == 0 {
        0
    } else {
        occurrences(actions.drop_last(), action) + if actions.last() == action {
            1nat
        } else {
            0nat
        }
    }
}

/// An action stands in two lists put together as often as in both.
pub proof fn lemma_occurrences_add(a: Seq<ActionView>, b: Seq<ActionView>, action: ActionView)
    ensures
        occurrences(a + b, action) == occurrences(a, action) + occurrences(b, action),
    decreases b.len(),
{
    if b.len() == 0 {
        assert(a + b =~= a);
    } else {
        assert((a + b).drop_last() =~= a + b.drop_last());
        lemma_occurrences_add(a, b.drop_last(), action);
    }
}

/// The action that reports the timeout of a channel.
pub open spec fn timeout_report(r: int, channel: u32) -> ActionView {
    ActionView::Send(error_packet(r, channel, ErrorCode::MsgTimeout).wire())
}

/// Whether the instant `now` finds the channel in place `i` receiving with
/// its window closed.
pub open spec fn times_out(s: EngineView, now: u64, i: int) -> bool {
    s.channel(i).state == ChannelState::Receiving && expired(
        s.channel(i).since,
        now,
        s.config.receive_timeout,
    )
}

/// Among the actions that an instant asks for on the first `n` channels, the
/// timeout report of the channel in place `i` stands once where that channel
/// is among them and times out, and not at all otherwise.
pub proof fn lemma_timeout_reported_once(s: EngineView, now: u64, n: int, i: int)
    requires
        s.wf(),
        0 <= n <= s.table.channels.len(),
        0 <= i < s.table.channels.len(),
    ensures
        occurrences(s.tick_actions(now, n), timeout_report(s.r(), s.channel(i).id)) == (if i < n
            && times_out(s, now, i) {
            1nat
        } else {
            0nat
        }),
    decreases n,
{
    if n > 0 {
        lemma_timeout_reported_once(s, now, n - 1, i);
        let r = s.r();
        let wanted = timeout_report(r, s.channel(i).id);
        let channel = s.channel(n - 1);
        let step = s.tick_channel(now, channel).1;
        lemma_occurrences_add(s.tick_actions(now, n - 1), step, wanted);
        reveal_with_fuel(occurrences, 3);
        if n - 1 != i {
            assert(channel.id != s.channel(i).id);
            lemma_wire_names_channel(
                error_packet(r, channel.id, ErrorCode::MsgTimeout),
                error_packet(r, s.channel(i).id, ErrorCode::MsgTimeout),
            );
            lemma_wire_names_channel(
                keepalive_packet(r, channel.id, channel.status),
                error_packet(r, s.channel(i).id, ErrorCode::MsgTimeout),
            );
            assert(step.len() <= 2);
            assert(occurrences(step, wanted) == 0);
        } else {
            if times_out(s, now, i) {
                assert(step =~= seq![wanted]);
                assert(step.drop_last() =~= Seq::<ActionView>::empty());
                assert(occurrences(step, wanted) == 1);
            } else {
                let other = keepalive_packet(r, channel.id, channel.status).wire();
                let mine = error_packet(r, channel.id, ErrorCode::MsgTimeout).wire();
                assert(other[4] == CMD_KEEPALIVE);
                assert(mine[4] == CMD_ERROR);
                assert(step.len() <= 2);
                assert(occurrences(step, wanted) == 0);
            }
        }
    }
}

/// A channel that an instant finds receiving with its window closed is idle
/// afterwards, and the actions of that instant hold its timeout report
/// exactly once; no later instant reports the timeout again while the
/// channel has not received anew.
pub proof fn law_timeout(s: EngineView, reported: u64, later: u64, i: int)
    requires
        s.wf(),
        0 <= i < s.table.channels.len(),
        times_out(s, advanced(s.now, reported), i),
    ensures
        s.on_tick(reported).0.channel(i) == s.channel(i).to_idle(),
        s.on_tick(reported).0.channel(i).state == ChannelState::Idle,
        occurrences(s.on_tick(reported).1, timeout_report(s.r(), s.channel(i).id)) == 1,
        occurrences(
            s.on_tick(reported).0.on_tick(later).1,
            timeout_report(s.r(), s.channel(i).id),
        ) == 0,
{
    let now = advanced(s.now, reported);
    lemma_timeout_reported_once(s, now, s.table.channels.len() as int, i);
    let t = s.on_tick(reported).0;
    law_tick_keeps_wf(s, reported);
    lemma_timeout_reported_once(t, advanced(t.now, later), t.table.channels.len() as int, i);
}

/// Whether request `ticket` is over: its ticket has been handed out and no
/// channel waits for it.
pub open spec fn retired(s: EngineView, ticket: u64) -> bool {
    &&& ticket < s.next_ticket
    &&& forall|i: int|
        0 <= i < s.table.channels.len() ==> !((#[trigger] s.table.channels[i]).state
            == ChannelState::Dispatching && s.table.channels[i].ticket == ticket)
}

/// A cancel command for a dispatching channel leaves the channel idle, tells
/// the processor to abandon the request, sends nothing, and retires the
/// request.
pub proof fn law_cancel(
    s: EngineView,
    raw: Seq<u8>,
    channel: u32,
    total_length: u16,
    payload: Seq<u8>,
    i: int,
)
    requires
        s.wf(),
        parse(s.r(), raw) == Some(
            (PacketView::Init { channel, command: CMD_CANCEL, total_length, payload }),
        ),
        total_length <= init_capacity(s.r()),
        s.table.slot(channel) == Some(i),
        channel != BROADCAST_CHANNEL,
        s.channel(i).state == ChannelState::Dispatching,
    ensures
        s.on_packet(raw).0 == s.idled(i),
        s.on_packet(raw).0.channel(i).state == ChannelState::Idle,
        s.on_packet(raw).1 == seq![
            (ActionView::Cancel { channel, ticket: s.channel(i).ticket }),
        ],
        retired(s.on_packet(raw).0, s.channel(i).ticket),
{
    let ticket = s.channel(i).ticket;
    let t = s.on_packet(raw).0;
    assert(s.on_packet(raw).1 =~= seq![(ActionView::Cancel { channel, ticket })]);
    assert forall|j: int| 0 <= j < t.table.channels.len() implies !((#[trigger] t.table.channels[j]).state
        == ChannelState::Dispatching && t.table.channels[j].ticket == ticket) by {
        if j != i {
            assert(t.table.channels[j] == s.table.channels[j]);
        }
    }
}

/// Word on a request that is over changes nothing and asks for nothing: no
/// report is sent for it.
pub proof fn law_retired_dropped(s: EngineView, channel: u32, ticket: u64, outcome: OutcomeView)
    requires
        s.wf(),
        retired(s, ticket),
    ensures
        s.on_outcome(channel, ticket, outcome) == (s, Seq::<ActionView>::empty()),
{
    if s.table.slot(channel) is Some {
        let i = s.table.slot(channel).unwrap();
        assert(!(s.table.channels[i].state == ChannelState::Dispatching
            && s.table.channels[i].ticket == ticket));
    }
}

/// A request that is over stays over when a channel is replaced by one that
/// does not wait for it.
proof fn lemma_retired_with_channel(s: EngineView, ticket: u64, i: int, channel: ChannelView)
    requires
        retired(s, ticket),
        0 <= i < s.table.channels.len(),
        !(channel.state == ChannelState::Dispatching && channel.ticket == ticket),
    ensures
        retired(s.with_channel(i, channel), ticket),
{
    let t = s.with_channel(i, channel);
    assert forall|j: int| 0 <= j < t.table.channels.len() implies !((#[trigger] t.table.channels[j]).state
        == ChannelState::Dispatching && t.table.channels[j].ticket == ticket) by {
        if j != i {
            assert(t.table.channels[j] == s.table.channels[j]);
        }
    }
}

/// A request that is over stays over when a complete message is executed.
proof fn lemma_retired_execute(s: EngineView, ticket: u64, i: int, message: MessageView)
    requires
        s.wf(),
        retired(s, ticket),
        s.table.slot(message.channel) == Some(i),
    ensures
        retired(s.execute(i, message).0, ticket),
{
    let t = s.execute(i, message).0;
    if t.next_ticket == s.next_ticket {
        assert forall|j: int| 0 <= j < t.table.channels.len() implies !((#[trigger] t.table.channels[j]).state
            == ChannelState::Dispatching && t.table.channels[j].ticket == ticket) by {
            if j < s.table.channels.len() {
                assert(t.table.channels[j].state == s.table.channels[j].state);
                assert(t.table.channels[j].ticket == s.table.channels[j].ticket);
            }
        }
    } else {
        let raised = EngineView { next_ticket: (s.next_ticket + 1) as u64, ..s };
        assert(retired(raised, ticket));
        lemma_retired_with_channel(
            raised,
            ticket,
            i,
            s.channel(i).to_dispatching(message.command, s.next_ticket, s.now),
        );
        assert(t == raised.with_channel(
            i,
            s.channel(i).to_dispatching(message.command, s.next_ticket, s.now),
        ));
    }
}

/// A request that is over stays over whatever report comes in.
pub proof fn law_retired_after_packet(s: EngineView, ticket: u64, raw: Seq<u8>)
    requires
        s.wf(),
        retired(s, ticket),
    ensures
        retired(s.on_packet(raw).0, ticket),
{
    match parse(s.r(), raw) {
        None => {},
        Some(PacketView::Init { channel, command, total_length, payload }) => {
            if s.table.slot(channel) is Some {
                let i = s.table.slot(channel).unwrap();
                lemma_idled_wf(s, i);
                lemma_retired_with_channel(s, ticket, i, s.channel(i).to_idle());
                let message = MessageView::start(
                    s.r(),
                    channel,
                    command,
                    total_length,
                    payload,
                    s.now,
                );
                lemma_retired_execute(s.idled(i), ticket, i, message);
                lemma_retired_with_channel(
                    s,
                    ticket,
                    i,
                    s.channel(i).to_receiving(message, s.now),
                );
            }
        },
        Some(PacketView::Cont { channel, sequence, payload }) => {
            if s.table.slot(channel) is Some {
                let i = s.table.slot(channel).unwrap();
                lemma_idled_wf(s, i);
                lemma_retired_with_channel(s, ticket, i, s.channel(i).to_idle());
                if s.channel(i).message is Some {
                    let longer = s.channel(i).message.unwrap().append(s.r(), payload);
                    lemma_retired_execute(s.idled(i), ticket, i, longer);
                    lemma_retired_with_channel(
                        s,
                        ticket,
                        i,
                        s.channel(i).to_receiving(longer, s.now),
                    );
                }
            }
        },
    }
}

/// A request that is over stays over whatever instant is reported.
pub proof fn law_retired_after_tick(s: EngineView, ticket: u64, reported: u64)
    requires
        s.wf(),
        retired(s, ticket),
    ensures
        retired(s.on_tick(reported).0, ticket),
{
    let t = s.on_tick(reported).0;
    assert forall|j: int| 0 <= j < t.table.channels.len() implies !((#[trigger] t.table.channels[j]).state
        == ChannelState::Dispatching && t.table.channels[j].ticket == ticket) by {
        let before = s.table.channels[j];
        assert(!(before.state == ChannelState::Dispatching && before.ticket == ticket));
    }
}

/// A request that is over stays over whatever the processor says of any
/// request.
pub proof fn law_retired_after_outcome(
    s: EngineView,
    ticket: u64,
    channel: u32,
    other: u64,
    outcome: OutcomeView,
)
    requires
        s.wf(),
        retired(s, ticket),
    ensures
        retired(s.on_outcome(channel, other, outcome).0, ticket),
{
    if s.awaits(channel, other) {
        let i = s.table.slot(channel).unwrap();
        assert(!(s.table.channels[i].state == ChannelState::Dispatching
            && s.table.channels[i].ticket == ticket));
        lemma_retired_with_channel(s, ticket, i, s.channel(i).to_idle());
        match outcome {
            OutcomeView::Pending(status) => {
                lemma_retired_with_channel(
                    s,
                    ticket,
                    i,
                    ChannelView { status, ..s.channel(i) },
                );
            },
            _ => {},
        }
    }
}

/// A request that is over stays over through a reset.
pub proof fn law_retired_after_reset(s: EngineView, ticket: u64)
    requires
        s.wf(),
        retired(s, ticket),
    ensures
        retired(s.reset(), ticket),
{
}

/// While a channel holds the lock, a command of another channel that would
/// go to the processor or take the lock is answered with `LockRequired` and
/// does neither; the channel that sent it is idle afterwards. Left out: a
/// command that the exclusive policy stops before the lock is looked at.
pub proof fn law_lock_excludes(
    s: EngineView,
    raw: Seq<u8>,
    holder: u32,
    channel: u32,
    command: u8,
    total_length: u16,
    payload: Seq<u8>,
    i: int,
)
    requires
        s.wf(),
        s.table.lock == Some(holder),
        channel != holder,
        channel != BROADCAST_CHANNEL,
        s.table.slot(channel) == Some(i),
        parse(s.r(), raw) == Some(
            (PacketView::Init { channel, command, total_length, payload }),
        ),
        total_length <= init_capacity(s.r()),
        command_kind(command) == CommandKind::Forward || command_kind(command)
            == CommandKind::Lock,
        !(s.config.exclusive && s.others_busy(i)),
    ensures
        s.on_packet(raw).1 == s.abort_actions(i) + report(
            s.r(),
            channel,
            ErrorCode::LockRequired,
        ),
        s.on_packet(raw).0 == s.idled(i),
        s.on_packet(raw).0.table.lock == Some(holder),
        s.on_packet(raw).0.next_ticket == s.next_ticket,
        s.channel(i).state == ChannelState::Idle ==> s.on_packet(raw) == (
            s,
            report(s.r(), channel, ErrorCode::LockRequired),
        ),
{
    let r = s.r();
    let started = MessageView::start(r, channel, command, total_length, payload, s.now);
    assert(started.data.len() == total_length);
    if s.channel(i).state == ChannelState::Idle {
        assert(s.channel(i).wf(r));
        assert(s.idled(i).table.channels =~= s.table.channels);
        assert(s.abort_actions(i) + report(r, channel, ErrorCode::LockRequired) =~= report(
            r,
            channel,
            ErrorCode::LockRequired,
        ));
    }
}

/// Once the holder has released the lock, the command that was answered with
/// `LockRequired` goes to the processor when it is sent again. Left out:
/// commands that the exclusive policy stops, and an engine that has no
/// ticket left to hand out.
pub proof fn law_lock_release_admits(
    s: EngineView,
    raw: Seq<u8>,
    release: Seq<u8>,
    holder: u32,
    channel: u32,
    command: u8,
    total_length: u16,
    payload: Seq<u8>,
    release_payload: Seq<u8>,
    i: int,
    h: int,
)
    requires
        s.wf(),
        s.table.lock == Some(holder),
        channel != holder,
        channel != BROADCAST_CHANNEL,
        s.table.slot(channel) == Some(i),
        s.table.slot(holder) == Some(h),
        s.channel(i).state == ChannelState::Idle,
        parse(s.r(), raw) == Some(
            (PacketView::Init { channel, command, total_length, payload }),
        ),
        total_length <= init_capacity(s.r()),
        command_kind(command) == CommandKind::Forward,
        parse(s.r(), release) == Some(
            (PacketView::Init {
                channel: holder,
                command: CMD_LOCK,
                total_length: 1,
                payload: release_payload,
            }),
        ),
        release_payload[0] == 0,
        !(s.config.exclusive && s.others_busy(i)),
        !(s.config.exclusive && s.others_busy(h)),
        s.next_ticket < u64::MAX,
    ensures
        s.on_packet(raw).1 == report(s.r(), channel, ErrorCode::LockRequired),
        s.on_packet(release).0.table.lock is None,
        s.on_packet(release).0.on_packet(raw).1 == seq![
            (ActionView::Dispatch {
                channel,
                ticket: s.next_ticket,
                command,
                payload: payload.take(total_length as int),
            }),
        ],
        s.on_packet(release).0.on_packet(raw).0.channel(i).state == ChannelState::Dispatching,
        s.on_packet(release).0.on_packet(raw).0.channel(i).ticket == s.next_ticket,
{
    let r = s.r();
    law_lock_excludes(s, raw, holder, channel, command, total_length, payload, i);
    let unlock = MessageView::start(r, holder, CMD_LOCK, 1, release_payload, s.now);
    assert(release_payload.len() == init_capacity(r));
    assert(unlock.data.len() == 1);
    assert(unlock.data[0] == 0);
    lemma_idled_wf(s, h);
    lemma_lock_wf(s.idled(h).table, holder);
    let t = s.on_packet(release).0;
    assert(t.table == s.idled(h).table.release_lock(holder).0);
    assert(t.table.lock is None);
    law_packet_keeps_wf(s, release);
    assert(t.table.channels.len() == s.table.channels.len());
    assert(t.channel(i) == s.channel(i));
    assert(t.table.slot(channel) == Some(i));
    if s.config.exclusive {
        assert forall|j: int|
            0 <= j < t.table.channels.len() && j != i implies !(#[trigger] t.channel(j)).busy() by {
            assert(!s.channel(j).busy());
            if j != h {
                assert(t.channel(j) == s.channel(j));
            }
        }
    }
    let started = MessageView::start(r, channel, command, total_length, payload, s.now);
    assert(started.data =~= payload.take(total_length as int));
    assert(t.channel(i).wf(r));
    assert(t.idled(i).table.channels =~= t.table.channels);
    assert(t.abort_actions(i) =~= Seq::<ActionView>::empty());
    assert(t.on_packet(raw).1 =~= seq![
        (ActionView::Dispatch {
            channel,
            ticket: s.next_ticket,
            command,
            payload: payload.take(total_length as int),
        }),
    ]);
}

/// The reports that carry a list of packets.
pub open spec fn frames(packets: Seq<PacketView>) -> Seq<Seq<u8>> {
    packets.map_values(|p: PacketView| p.wire())
}

/// What a run of reports, taken in order, makes of the engine, and the
/// actions that it asks for on the way.
pub open spec fn replay(s: EngineView, reports: Seq<Seq<u8>>) -> (EngineView, Seq<ActionView>)
    decreases reports.len(),
{
    if reports.len() == 0 {
        (s, Seq::empty())
    } else {
        let (mid, first) = replay(s, reports.drop_last());
        let (next, more) = mid.on_packet(reports.last());
        (next, first + more)
    }
}

/// The message that a channel holds once the first `k` packets of a payload
/// have arrived.
pub open spec fn gathered(
    s: EngineView,
    channel: u32,
    command: u8,
    payload: Seq<u8>,
    k: int,
) -> MessageView {
    MessageView {
        channel,
        command: init_command(command),
        total_length: payload.len() as u16,
        data: payload.take(least(payload.len() as int, fragment_end(s.r(), k - 1))),
        created_at: s.now,
        next_sequence: k - 1,
    }
}

/// The engine with the channel in place `i` holding the first `k` packets of
/// a payload.
pub open spec fn gathering(
    s: EngineView,
    channel: u32,
    command: u8,
    payload: Seq<u8>,
    i: int,
    k: int,
) -> EngineView {
    s.with_channel(i, s.channel(i).to_receiving(gathered(s, channel, command, payload, k), s.now))
}

/// Whether the engine takes a message with this command on this channel, the
/// channel standing in place `i`.
pub open spec fn admits(s: EngineView, channel: u32, command: u8, payload: Seq<u8>, i: int) -> bool {
    &&& s.wf()
    &&& s.table.slot(channel) == Some(i)
    &&& payload.len() <= max_message_len(s.r())
    &&& !(s.config.exclusive && !is_control(init_command(command)) && s.others_busy(i))
}

/// What the first packet of a message holds is the head of the payload.
proof fn lemma_first_data(r: int, payload: Seq<u8>)
    requires
        valid_report_size(r),
    ensures
        padded(
            padded(fragment_bytes(r, payload, 0), init_capacity(r)),
            least(payload.len() as int, init_capacity(r)),
        ) == payload.take(least(payload.len() as int, fragment_end(r, 0))),
{
    assert(padded(
        padded(fragment_bytes(r, payload, 0), init_capacity(r)),
        least(payload.len() as int, init_capacity(r)),
    ) =~= payload.take(least(payload.len() as int, fragment_end(r, 0))));
}

/// What packet `k` of a message adds to the bytes before it is the next
/// stretch of the payload.
proof fn lemma_next_data(r: int, payload: Seq<u8>, k: int)
    requires
        valid_report_size(r),
        1 <= k,
        fragment_end(r, k - 1) < payload.len(),
    ensures
        fragment_end(r, k) == fragment_end(r, k - 1) + cont_capacity(r),
        payload.take(fragment_end(r, k - 1)) + padded(
            padded(fragment_bytes(r, payload, k), cont_capacity(r)),
            least(payload.len() - fragment_end(r, k - 1), cont_capacity(r)),
        ) == payload.take(least(payload.len() as int, fragment_end(r, k))),
{
    let c = cont_capacity(r);
    assert(k * c == (k - 1) * c + c) by (nonlinear_arith);
    assert(fragment_start(r, k) == fragment_end(r, k - 1));
    assert(payload.take(fragment_end(r, k - 1)) + padded(
        padded(fragment_bytes(r, payload, k), cont_capacity(r)),
        least(payload.len() - fragment_end(r, k - 1), cont_capacity(r)),
    ) =~= payload.take(least(payload.len() as int, fragment_end(r, k))));
}

/// What the initialization packet of a message makes of the engine.
proof fn lemma_first_packet(s: EngineView, channel: u32, command: u8, payload: Seq<u8>, i: int)
    requires
        admits(s, channel, command, payload, i),
    ensures
        s.on_packet(fragment_at(s.r(), channel, command, payload, 0).wire()) == (if payload.len()
            <= init_capacity(s.r()) {
            (
                s.idled(i).execute(i, gathered(s, channel, command, payload, 1)).0,
                s.abort_actions(i) + s.idled(i).execute(
                    i,
                    gathered(s, channel, command, payload, 1),
                ).1,
            )
        } else {
            (gathering(s, channel, command, payload, i, 1), s.abort_actions(i))
        }),
{
    let r = s.r();
    let packet = fragment_at(r, channel, command, payload, 0);
    lemma_parse_wire(r, packet);
    lemma_first_data(r, payload);
    let started = MessageView::start(
        r,
        channel,
        init_command(command),
        payload.len() as u16,
        packet.payload(),
        s.now,
    );
    assert(started == gathered(s, channel, command, payload, 1));
}

/// What continuation packet `k` of a message makes of an engine that holds
/// the packets before it.
proof fn lemma_next_packet(
    s: EngineView,
    channel: u32,
    command: u8,
    payload: Seq<u8>,
    i: int,
    k: int,
)
    requires
        admits(s, channel, command, payload, i),
        1 <= k < packets_needed(s.r(), payload.len() as int),
    ensures
        gathering(s, channel, command, payload, i, k).on_packet(
            fragment_at(s.r(), channel, command, payload, k).wire(),
        ) == (if k + 1 == packets_needed(s.r(), payload.len() as int) {
            s.idled(i).execute(i, gathered(s, channel, command, payload, k + 1))
        } else {
            (gathering(s, channel, command, payload, i, k + 1), Seq::<ActionView>::empty())
        }),
{
    let r = s.r();
    let len = payload.len() as int;
    lemma_last_fragment(r, len);
    let packet = fragment_at(r, channel, command, payload, k);
    lemma_parse_wire(r, packet);
    lemma_next_data(r, payload, k);
    let t = gathering(s, channel, command, payload, i, k);
    let held = gathered(s, channel, command, payload, k);
    assert(fragment_end(r, k - 1) < len);
    assert(held.data.len() == fragment_end(r, k - 1));
    let longer = held.append(r, packet.payload());
    assert(longer == gathered(s, channel, command, payload, k + 1));
    assert(t.channel(i).message == Some(held));
    assert(t.idled(i).table.channels =~= s.idled(i).table.channels);
    assert(t.with_channel(i, t.channel(i).to_receiving(longer, t.now)).table.channels
        =~= gathering(s, channel, command, payload, i, k + 1).table.channels);
    if k + 1 < packets_needed(r, len) {
        assert(fragment_end(r, k) < len);
    }
}

/// What the first `k` packets of a message that needs more make of the
/// engine: the channel is receiving and holds what they brought.
proof fn lemma_replay_prefix(
    s: EngineView,
    channel: u32,
    command: u8,
    payload: Seq<u8>,
    i: int,
    k: int,
)
    requires
        admits(s, channel, command, payload, i),
        1 <= k < packets_needed(s.r(), payload.len() as int),
    ensures
        replay(s, frames(fragments(s.r(), channel, command, payload)).take(k)) == (
            gathering(s, channel, command, payload, i, k),
            s.abort_actions(i),
        ),
    decreases k,
{
    let r = s.r();
    let all = frames(fragments(r, channel, command, payload));
    let reports = all.take(k);
    assert(reports.last() == fragment_at(r, channel, command, payload, k - 1).wire());
    assert(reports.drop_last() =~= all.take(k - 1));
    if k == 1 {
        assert(replay(s, all.take(0)) == (s, Seq::<ActionView>::empty()));
        lemma_first_packet(s, channel, command, payload, i);
        assert(Seq::<ActionView>::empty() + s.abort_actions(i) =~= s.abort_actions(i));
    } else {
        lemma_replay_prefix(s, channel, command, payload, i, k - 1);
        lemma_next_packet(s, channel, command, payload, i, k - 1);
        assert(s.abort_actions(i) + Seq::<ActionView>::empty() =~= s.abort_actions(i));
    }
}

/// A payload no longer than the longest message, split into packets and fed
/// to the engine report by report, is put together again byte for byte: the
/// last report completes a message that holds exactly the payload, and that
/// message is executed; the reports before it ask for nothing but the end of
/// what the channel was doing. Left out: an unknown channel, and a command
/// that the exclusive policy stops.
pub proof fn law_round_trip(s: EngineView, channel: u32, command: u8, payload: Seq<u8>, i: int)
    requires
        admits(s, channel, command, payload, i),
    ensures
        gathered(
            s,
            channel,
            command,
            payload,
            packets_needed(s.r(), payload.len() as int),
        ).data == payload,
        replay(s, frames(fragments(s.r(), channel, command, payload))) == (
            s.idled(i).execute(
                i,
                gathered(
                    s,
                    channel,
                    command,
                    payload,
                    packets_needed(s.r(), payload.len() as int),
                ),
            ).0,
            s.abort_actions(i) + s.idled(i).execute(
                i,
                gathered(
                    s,
                    channel,
                    command,
                    payload,
                    packets_needed(s.r(), payload.len() as int),
                ),
            ).1,
        ),
{
    let r = s.r();
    let len = payload.len() as int;
    let n = packets_needed(r, len);
    lemma_last_fragment(r, len);
    let all = frames(fragments(r, channel, command, payload));
    let whole = gathered(s, channel, command, payload, n);
    assert(whole.data =~= payload);
    assert(all.last() == fragment_at(r, channel, command, payload, n - 1).wire());
    if n == 1 {
        assert(all.drop_last() =~= Seq::<Seq<u8>>::empty());
        assert(replay(s, all.drop_last()) == (s, Seq::<ActionView>::empty()));
        lemma_first_packet(s, channel, command, payload, i);
        assert(Seq::<ActionView>::empty() + (s.abort_actions(i) + s.idled(i).execute(i, whole).1)
            =~= s.abort_actions(i) + s.idled(i).execute(i, whole).1);
    } else {
        assert(all.drop_last() =~= all.take(n - 1));
        lemma_replay_prefix(s, channel, command, payload, i, n - 1);
        lemma_next_packet(s, channel, command, payload, i, n - 1);
    }
}

/// A payload for the command processor, split into packets and fed to the
/// engine report by report, reaches the processor unchanged: the one request
/// that the reports ask for carries the payload byte for byte. Left out
/// besides what `law_round_trip` leaves out: the broadcast channel, a channel
/// that the lock is held against, and an engine with no ticket left.
pub proof fn law_round_trip_dispatch(
    s: EngineView,
    channel: u32,
    command: u8,
    payload: Seq<u8>,
    i: int,
)
    requires
        admits(s, channel, command, payload, i),
        channel != BROADCAST_CHANNEL,
        command_kind(init_command(command)) == CommandKind::Forward,
        !s.table.locked_against(channel),
        s.next_ticket < u64::MAX,
    ensures
        replay(s, frames(fragments(s.r(), channel, command, payload))).1 == s.abort_actions(i)
            + seq![
            (ActionView::Dispatch {
                channel,
                ticket: s.next_ticket,
                command: init_command(command),
                payload,
            }),
        ],
        replay(s, frames(fragments(s.r(), channel, command, payload))).0.channel(i).state
            == ChannelState::Dispatching,
{
    law_round_trip(s, channel, command, payload, i);
    lemma_idled_wf(s, i);
}

/// A report changes no channel but the one that it is addressed to: a
/// violation on one channel, a message, a command or a handshake on it
/// leaves every other channel as it was.
pub proof fn law_isolation(s: EngineView, raw: Seq<u8>, j: int)
    requires
        s.wf(),
        0 <= j < s.table.channels.len(),
        parse(s.r(), raw) matches Some(packet) ==> s.table.slot(packet.channel()) != Some(j),
    ensures
        s.on_packet(raw).0.table.channels.len() >= s.table.channels.len(),
        s.on_packet(raw).0.channel(j) == s.channel(j),
{
    match parse(s.r(), raw) {
        None => {},
        Some(packet) => {
            let channel = packet.channel();
            if s.table.slot(channel) is Some {
                let i = s.table.slot(channel).unwrap();
                let idle = s.idled(i);
                lemma_idled_wf(s, i);
                assert(idle.channel(j) == s.channel(j));
                match packet {
                    PacketView::Init { command, total_length, payload, .. } => {
                        let message = MessageView::start(
                            s.r(),
                            channel,
                            command,
                            total_length,
                            payload,
                            s.now,
                        );
                        lemma_execute_isolated(idle, i, message, j);
                    },
                    PacketView::Cont { payload, .. } => {
                        if s.channel(i).state == ChannelState::Receiving {
                            assert(s.channel(i).wf(s.r()));
                            let longer = s.channel(i).message.unwrap().append(s.r(), payload);
                            assert(longer.channel == s.channel(i).id);
                            lemma_execute_isolated(idle, i, longer, j);
                        }
                    },
                }
            }
        },
    }
}

/// Executing a message changes no channel but the one that it arrived on.
proof fn lemma_execute_isolated(s: EngineView, i: int, message: MessageView, j: int)
    requires
        s.wf(),
        s.table.slot(message.channel) == Some(i),
        0 <= j < s.table.channels.len(),
        j != i,
    ensures
        s.execute(i, message).0.table.channels.len() >= s.table.channels.len(),
        s.execute(i, message).0.channel(j) == s.channel(j),
{
    assert(s.channel(j).id != message.channel);
}

/// Word from the processor changes no channel but the one that waits for it.
pub proof fn law_outcome_isolation(
    s: EngineView,
    channel: u32,
    ticket: u64,
    outcome: OutcomeView,
    j: int,
)
    requires
        s.wf(),
        0 <= j < s.table.channels.len(),
        s.table.slot(channel) != Some(j),
    ensures
        s.on_outcome(channel, ticket, outcome).0.table.channels.len() == s.table.channels.len(),
        s.on_outcome(channel, ticket, outcome).0.channel(j) == s.channel(j),
{
}

/// Whether every report among the actions has the length of a report and
/// decodes to a packet.
pub open spec fn reports_fill(r: int, actions: Seq<ActionView>) -> bool {
    forall|k: int|
        0 <= k < actions.len() ==> ((#[trigger] actions[k]) matches ActionView::Send(bytes)
            ==> bytes.len() == r && parse(r, bytes) is Some)
}

/// A packet that fills a report is carried by the bytes of one report.
proof fn lemma_wire_fills(r: int, packet: PacketView)
    requires
        valid_report_size(r),
        packet.fits(r),
    ensures
        packet.wire().len() == r,
        parse(r, packet.wire()) == Some(packet),
{
    lemma_parse_wire(r, packet);
}

/// The report of a violation fills a report.
proof fn lemma_report_fills(r: int, channel: u32, code: ErrorCode)
    requires
        valid_report_size(r),
    ensures
        reports_fill(r, report(r, channel, code)),
{
    lemma_wire_fills(r, error_packet(r, channel, code));
}

/// The reports of a response fill a report each.
proof fn lemma_respond_fills(r: int, channel: u32, command: u8, payload: Seq<u8>)
    requires
        valid_report_size(r),
        payload.len() <= max_message_len(r),
    ensures
        reports_fill(r, respond(r, channel, command, payload)),
{
    let actions = respond(r, channel, command, payload);
    lemma_last_fragment(r, payload.len() as int);
    assert forall|k: int| 0 <= k < actions.len() implies ((#[trigger] actions[k]) matches ActionView::Send(
        bytes,
    ) ==> bytes.len() == r && parse(r, bytes) is Some) by {
        lemma_wire_fills(r, fragment_at(r, channel, command, payload, k));
    }
}

/// Two lists of full reports put together are a list of full reports.
proof fn lemma_fill_add(r: int, a: Seq<ActionView>, b: Seq<ActionView>)
    requires
        reports_fill(r, a),
        reports_fill(r, b),
    ensures
        reports_fill(r, a + b),
{
    assert forall|k: int| 0 <= k < (a + b).len() implies ((#[trigger] (a + b)[k]) matches ActionView::Send(
        bytes,
    ) ==> bytes.len() == r && parse(r, bytes) is Some) by {
        if k < a.len() {
            assert((a + b)[k] == a[k]);
        } else {
            assert((a + b)[k] == b[k - a.len()]);
        }
    }
}

/// Executing a message sends full reports only.
proof fn lemma_execute_fills(s: EngineView, i: int, message: MessageView)
    requires
        s.wf(),
    ensures
        reports_fill(s.r(), s.execute(i, message).1),
{
    let r = s.r();
    let channel = message.channel;
    lemma_report_fills(r, channel, ErrorCode::InvalidChannel);
    lemma_report_fills(r, channel, ErrorCode::InvalidLen);
    lemma_report_fills(r, channel, ErrorCode::ChannelBusy);
    lemma_report_fills(r, channel, ErrorCode::InvalidCmd);
    lemma_report_fills(r, channel, ErrorCode::LockRequired);
    lemma_report_fills(r, channel, ErrorCode::Other);
    lemma_respond_fills(r, channel, CMD_LOCK, Seq::empty());
    if message.data.len() == INIT_NONCE_LEN {
        lemma_respond_fills(
            r,
            channel,
            CMD_INIT,
            InitResponseView::answer(message.data, s.table.next_id(), s.table.info).payload(),
        );
        lemma_respond_fills(
            r,
            channel,
            CMD_INIT,
            InitResponseView::answer(message.data, channel, s.table.info).payload(),
        );
    }
}

/// Whatever comes in, every report that the engine sends in answer has the
/// length of a report and decodes to a packet.
pub proof fn law_reports_fill(s: EngineView, raw: Seq<u8>)
    requires
        s.wf(),
    ensures
        reports_fill(s.r(), s.on_packet(raw).1),
{
    let r = s.r();
    match parse(r, raw) {
        None => {
            lemma_report_fills(r, best_channel(raw), ErrorCode::InvalidLen);
        },
        Some(packet) => {
            let channel = packet.channel();
            lemma_report_fills(r, channel, ErrorCode::InvalidChannel);
            lemma_report_fills(r, channel, ErrorCode::ChannelBusy);
            lemma_report_fills(r, channel, ErrorCode::InvalidLen);
            lemma_report_fills(r, channel, ErrorCode::InvalidSeq);
            if s.table.slot(channel) is Some {
                let i = s.table.slot(channel).unwrap();
                lemma_idled_wf(s, i);
                match packet {
                    PacketView::Init { command, total_length, payload, .. } => {
                        let message = MessageView::start(
                            r,
                            channel,
                            command,
                            total_length,
                            payload,
                            s.now,
                        );
                        lemma_execute_fills(s.idled(i), i, message);
                        lemma_fill_add(r, s.abort_actions(i), s.idled(i).execute(i, message).1);
                        lemma_fill_add(
                            r,
                            s.abort_actions(i),
                            report(r, channel, ErrorCode::InvalidLen),
                        );
                    },
                    PacketView::Cont { payload, .. } => {
                        if s.channel(i).message is Some {
                            let longer = s.channel(i).message.unwrap().append(r, payload);
                            lemma_execute_fills(s.idled(i), i, longer);
                        }
                    },
                }
            }
        },
    }
}

/// Whatever the processor says, every report that the engine sends in answer
/// has the length of a report and decodes to a packet.
pub proof fn law_outcome_reports_fill(
    s: EngineView,
    channel: u32,
    ticket: u64,
    outcome: OutcomeView,
)
    requires
        s.wf(),
    ensures
        reports_fill(s.r(), s.on_outcome(channel, ticket, outcome).1),
{
    let r = s.r();
    if s.awaits(channel, ticket) {
        let i = s.table.slot(channel).unwrap();
        lemma_report_fills(r, channel, ErrorCode::Other);
        match outcome {
            OutcomeView::Ready(bytes) => {
                if bytes.len() <= max_message_len(r) {
                    lemma_respond_fills(r, channel, s.channel(i).command, bytes);
                }
            },
            OutcomeView::Failed(code) => {
                lemma_respond_fills(r, channel, s.channel(i).command, seq![code]);
            },
            _ => {},
        }
    }
}

/// Whatever instant is reported, every report that the engine sends on the
/// first `n` channels has the length of a report and decodes to a packet.
proof fn lemma_tick_fills(s: EngineView, now: u64, n: int)
    requires
        s.wf(),
        0 <= n <= s.table.channels.len(),
    ensures
        reports_fill(s.r(), s.tick_actions(now, n)),
    decreases n,
{
    if n > 0 {
        lemma_tick_fills(s, now, n - 1);
        let r = s.r();
        let channel = s.channel(n - 1);
        lemma_report_fills(r, channel.id, ErrorCode::MsgTimeout);
        lemma_wire_fills(r, keepalive_packet(r, channel.id, channel.status));
        lemma_fill_add(r, s.tick_actions(now, n - 1), s.tick_channel(now, channel).1);
    }
}

/// Whatever instant is reported, every report that the engine sends has the
/// length of a report and decodes to a packet.
pub proof fn law_tick_reports_fill(s: EngineView, reported: u64)
    requires
        s.wf(),
    ensures
        reports_fill(s.r(), s.on_tick(reported).1),
{
    lemma_tick_fills(s, advanced(s.now, reported), s.table.channels.len() as int);
}

/// No report, instant or word from the processor removes a channel: an id
/// that the table knows stays known, in its place, until the engine is
/// reset.
pub proof fn law_channels_stay(
    s: EngineView,
    id: u32,
    raw: Seq<u8>,
    reported: u64,
    channel: u32,
    ticket: u64,
    outcome: OutcomeView,
)
    requires
        s.wf(),
        s.table.knows(id),
    ensures
        s.on_packet(raw).0.table.slot(id) == s.table.slot(id),
        s.on_tick(reported).0.table.slot(id) == s.table.slot(id),
        s.on_outcome(channel, ticket, outcome).0.table.slot(id) == s.table.slot(id),
{
    law_packet_keeps_wf(s, raw);
    match parse(s.r(), raw) {
        None => {},
        Some(packet) => {
            let target = packet.channel();
            if s.table.slot(target) is Some {
                let i = s.table.slot(target).unwrap();
                lemma_idled_wf(s, i);
                match packet {
                    PacketView::Init { command, total_length, payload, .. } => {
                        let message = MessageView::start(
                            s.r(),
                            target,
                            command,
                            total_length,
                            payload,
                            s.now,
                        );
                        lemma_execute_keeps_channels(s.idled(i), i, message);
                    },
                    PacketView::Cont { payload, .. } => {
                        if s.channel(i).state == ChannelState::Receiving {
                            assert(s.channel(i).wf(s.r()));
                            let longer = s.channel(i).message.unwrap().append(s.r(), payload);
                            lemma_execute_keeps_channels(s.idled(i), i, longer);
                        }
                    },
                }
            }
        },
    }
}

/// Executing a message removes no channel.
proof fn lemma_execute_keeps_channels(s: EngineView, i: int, message: MessageView)
    requires
        s.wf(),
        s.table.slot(message.channel) == Some(i),
    ensures
        s.execute(i, message).0.table.channels.len() >= s.table.channels.len(),
{
}

} // verus!
