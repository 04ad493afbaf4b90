//! What passes between the engine, its host and the command processor: the
//! actions that the engine asks for and the outcomes that come back.

use crate::codec::{
    error_packet, fragments, max_message_len, packets_view, Packet, PacketCodec, PacketView,
};
use crate::protocol::{ErrorCode, KeepaliveStatus};
use vstd::prelude::*;

verus! {

/// What the command processor says of a request.
#[derive(Clone, Debug, PartialEq, Eq)]
pub enum Outcome {
    /// The command is done; these bytes answer it.
    Ready(Vec<u8>),
    /// The command is still running; ask again later.
    Pending(KeepaliveStatus),
    /// The command failed with this code.
    Failed(u8),
}

/// The mathematical value of an [`Outcome`].
pub ghost enum OutcomeView {
    Ready(Seq<u8>),
    Pending(KeepaliveStatus),
    Failed(u8),
}

impl View for Outcome {
    type V = OutcomeView;

    open spec fn view(&self) -> OutcomeView {
        match *self {
            Outcome::Ready(bytes) => OutcomeView::Ready(bytes@),
            Outcome::Pending(status) => OutcomeView::Pending(status),
            Outcome::Failed(code) => OutcomeView::Failed(code),
        }
    }
}

/// One thing that the engine asks its host to do. The host does them in the
/// order in which the engine hands them out.
#[derive(Clone, Debug, PartialEq, Eq)]
pub enum Action {
    /// Send this report to the other side.
    Send(Vec<u8>),
    /// Hand this message to the command processor as request `ticket`.
    Dispatch { channel: u32, ticket: u64, command: u8, payload: Vec<u8> },
    /// Ask the command processor how request `ticket` is doing.
    Poll { channel: u32, ticket: u64 },
    /// Tell the command processor to abandon request `ticket`.
    Cancel { channel: u32, ticket: u64 },
}

/// The mathematical value of an [`Action`].
pub ghost enum ActionView {
    Send(Seq<u8>),
    Dispatch { channel: u32, ticket: u64, command: u8, payload: Seq<u8> },
    Poll { channel: u32, ticket: u64 },
    Cancel { channel: u32, ticket: u64 },
}

impl View for Action {
    type V = ActionView;

    open spec fn view(&self) -> ActionView {
        match *self {
            Action::Send(bytes) => ActionView::Send(bytes@),
            Action::Dispatch { channel, ticket, command, payload } => ActionView::Dispatch {
                channel,
                ticket,
                command,
                payload: payload@,
            },
            Action::Poll { channel, ticket } => ActionView::Poll { channel, ticket },
            Action::Cancel { channel, ticket } => ActionView::Cancel { channel, ticket },
        }
    }
}

/// The values of a list of actions.
pub open spec fn actions_view(actions: Seq<Action>) -> Seq<ActionView> {
    actions.map_values(|a: Action| a@)
}

/// The actions that send a list of packets, one report each, in order.
pub open spec fn sends(packets: Seq<PacketView>) -> Seq<ActionView> {
    packets.map_values(|p: PacketView| ActionView::Send(p.wire()))
}

/// The action that reports a violation on a channel.
pub open spec fn report(r: int, channel: u32, code: ErrorCode) -> Seq<ActionView> {
    seq![ActionView::Send(error_packet(r, channel, code).wire())]
}

/// The actions that send a response: its packets, one report each, in order.
pub open spec fn respond(r: int, channel: u32, command: u8, payload: Seq<u8>) -> Seq<ActionView> {
    sends(fragments(r, channel, command, payload))
}

/// Appends one action.
pub(crate) fn push_action(out: &mut Vec<Action>, action: Action)
    ensures
        actions_view(final(out)@) == actions_view(old(out)@).push(action@),
{
    out.push(action);
    assert(actions_view(out@) =~= actions_view(old(out)@).push(action@));
}

/// Appends the action that sends one packet.
pub(crate) fn push_packet(out: &mut Vec<Action>, packet: &Packet)
    ensures
        actions_view(final(out)@) == actions_view(old(out)@).push(
            ActionView::Send(packet@.wire()),
        ),
{
    push_action(out, Action::Send(packet.to_bytes()));
}

/// Appends the action that reports a violation on a channel.
pub(crate) fn push_report(
    codec: &PacketCodec,
    out: &mut Vec<Action>,
    channel: u32,
    code: ErrorCode,
)
    requires
        codec.wf(),
    ensures
        actions_view(final(out)@) == actions_view(old(out)@) + report(codec.size(), channel, code),
{
    let packet: Packet = codec.encode_error(channel, code);
    push_packet(out, &packet);
    assert(actions_view(out@) =~= actions_view(old(out)@) + report(codec.size(), channel, code));
}

/// Appends the actions that send a response.
pub(crate) fn push_response(
    codec: &PacketCodec,
    out: &mut Vec<Action>,
    channel: u32,
    command: u8,
    payload: &[u8],
)
    requires
        codec.wf(),
        payload@.len() <= max_message_len(codec.size()),
    ensures
        actions_view(final(out)@) == actions_view(old(out)@) + respond(
            codec.size(),
            channel,
            command,
            payload@,
        ),
{
    let split = codec.fragment(channel, command, payload);
    if let Ok(packets) = split {
        let mut i: usize = 0;
        while i < packets.len()
            invariant
                i <= packets.len(),
                actions_view(out@) == actions_view(old(out)@) + sends(
                    packets_view(packets@).take(i as int),
                ),
            decreases packets.len() - i,
        {
            push_packet(out, &packets[i]);
            assert(sends(packets_view(packets@).take(i + 1)) =~= sends(
                packets_view(packets@).take(i as int),
            ).push(ActionView::Send(packets@[i as int]@.wire())));
            i = i + 1;
        }
        assert(packets_view(packets@).take(packets.len() as int) == packets_view(packets@));
    }
}

} // verus!
