//! Transport framing for a USB-HID security key: fixed-size reports are
//! reassembled into messages on multiplexed channels, completed messages are
//! handed to a command processor, and its responses are split back into
//! reports.
//!
//! [`engine::ProtocolEngine`] is the state machine. It never blocks and does
//! no I/O: its host feeds it reports, instants and the processor's outcomes,
//! and carries out the [`dispatch::Action`]s that it hands back. What the
//! engine does is stated over the mathematical model in [`model`], and
//! [`laws`] proves what holds of that model for every input.

pub mod channel;
pub mod codec;
pub mod config;
pub mod dispatch;
pub mod engine;
pub mod laws;
pub mod message;
pub mod model;
pub mod preserve;
pub mod protocol;
pub mod timer;

use crate::config::Config;
use crate::dispatch::{actions_view, Action};
use crate::engine::ProtocolEngine;
use crate::model::EngineView;
use vstd::prelude::*;

verus! {

/// Makes the engine that a module starts with: the default choices, no
/// channel allocated, the lock free, the clock at 0. It takes in no report
/// and sends none.
pub fn init() -> (engine: ProtocolEngine)
    ensures
        engine.wf(),
        engine@ == EngineView::fresh(Config::standard()),
{
    ProtocolEngine::standard()
}

/// Takes one block of bytes that the host received over USB. A block that
/// is a report is decoded and passes through the state of its channel: it
/// begins, extends or completes a message, and a complete message is
/// executed; a block of any other length is discarded and answered with an
/// error report. The actions that come back are for the host to carry out in
/// their order: the reports to send, and what to ask of the command
/// processor.
pub fn on_usb_data(engine: &mut ProtocolEngine, data: &[u8]) -> (actions: Vec<Action>)
    requires
        old(engine).wf(),
    ensures
        final(engine).wf(),
        (final(engine)@, actions_view(actions@)) == old(engine)@.on_packet(data@),
{
    engine.on_packet(data)
}

} // verus!
