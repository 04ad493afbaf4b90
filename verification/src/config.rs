//! The choices that an engine is made with.

use crate::codec::{valid_report_size, DEFAULT_REPORT_SIZE, MAX_REPORT_SIZE, MIN_REPORT_SIZE};
use crate::protocol::{DeviceInfo, CAPABILITY_CBOR, CAPABILITY_WINK};
use vstd::prelude::*;

verus! {

/// What the engine does with a continuation packet for a channel that is
/// not receiving.
#[derive(Clone, Copy, Debug, PartialEq, Eq, Structural)]
pub enum StrayPolicy {
    /// Answer with an `InvalidChannel` error.
    Reject,
    /// Say nothing.
    Drop,
}

/// The choices that an engine is made with.
#[derive(Clone, Copy, Debug, PartialEq, Eq, Structural)]
pub struct Config {
    /// Size of a report, in bytes.
    pub report_size: usize,
    /// Channels that can be allocated at most.
    pub max_channels: u16,
    /// Ticks without a packet after which a receiving channel gives up.
    pub receive_timeout: u64,
    /// Ticks between two keepalive packets of a dispatching channel.
    pub keepalive_interval: u64,
    /// What to do with a continuation packet that no message waits for.
    pub stray_continuation: StrayPolicy,
    /// Whether a channel may begin a transaction only while no other channel
    /// is in one.
    pub exclusive: bool,
    /// What the device says of itself in the answer to a handshake.
    pub device: DeviceInfo,
}

impl Config {
    /// Whether an engine can be made with these choices.
    pub open spec fn valid(self) -> bool {
        valid_report_size(self.report_size as int)
    }

    /// The choices of `default`: reports of 64 bytes, 64 channels, half a
    /// second to the timeout and a tenth to the next keepalive where a tick
    /// is a millisecond, stray continuations rejected, channels free to
    /// interleave.
    pub open spec fn standard() -> Config {
        Config {
            report_size: DEFAULT_REPORT_SIZE,
            max_channels: 64,
            receive_timeout: 500,
            keepalive_interval: 100,
            stray_continuation: StrayPolicy::Reject,
            exclusive: false,
            device: DeviceInfo {
                version_major: 1,
                version_minor: 0,
                version_build: 0,
                capabilities: 5,
            },
        }
    }

    /// Whether an engine can be made with these choices.
    pub fn is_valid(&self) -> (valid: bool)
        ensures
            valid == self.valid(),
    {
        self.report_size >= MIN_REPORT_SIZE && self.report_size <= MAX_REPORT_SIZE
    }
}

impl Default for Config {
    fn default() -> (config: Config)
        ensures
            config == Config::standard(),
            config.valid(),
    {
        Config {
            report_size: DEFAULT_REPORT_SIZE,
            max_channels: 64,
            receive_timeout: 500,
            keepalive_interval: 100,
            stray_continuation: StrayPolicy::Reject,
            exclusive: false,
            device: DeviceInfo {
                version_major: 1,
                version_minor: 0,
                version_build: 0,
                capabilities: CAPABILITY_WINK + CAPABILITY_CBOR,
            },
        }
    }
}

} // verus!
