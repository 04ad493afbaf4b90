//! The vocabulary of the transport: reserved channel ids, command bytes and
//! the closed sets of error and keepalive codes.

use vstd::prelude::*;

verus! {

/// The channel every host may use without owning it; it serves the
/// allocation handshake and nothing else.
pub const BROADCAST_CHANNEL: u32 = 0xFFFF_FFFF;

/// The channel id that is never handed out.
pub const RESERVED_CHANNEL: u32 = 0;

/// Echo request.
pub const CMD_PING: u8 = 0x81;

/// Encapsulated legacy or smart-card message.
pub const CMD_MSG: u8 = 0x83;

/// Reserve or release the exclusive lock.
pub const CMD_LOCK: u8 = 0x84;

/// Allocate a channel, or resynchronise an existing one.
pub const CMD_INIT: u8 = 0x86;

/// Ask the device to identify itself to the user.
pub const CMD_WINK: u8 = 0x88;

/// CBOR-encoded command.
pub const CMD_CBOR: u8 = 0x90;

/// Abandon the command that the channel is waiting for.
pub const CMD_CANCEL: u8 = 0x91;

/// Sent by the engine while a command is still running.
pub const CMD_KEEPALIVE: u8 = 0xBB;

/// Sent by the engine to report a violation.
pub const CMD_ERROR: u8 = 0xBF;

/// First command byte of the vendor range.
pub const CMD_VENDOR_FIRST: u8 = 0xC0;

/// Last command byte of the vendor range.
pub const CMD_VENDOR_LAST: u8 = 0xFF;

/// Number of nonce bytes in an allocation handshake.
pub const INIT_NONCE_LEN: usize = 8;

/// Protocol version announced in the answer to a handshake.
pub const PROTOCOL_VERSION: u8 = 2;

/// What the device says of itself in the answer to a handshake.
#[derive(Clone, Copy, Debug, PartialEq, Eq, Structural)]
pub struct DeviceInfo {
    pub version_major: u8,
    pub version_minor: u8,
    pub version_build: u8,
    pub capabilities: u8,
}

/// Capability flag: the device answers the wink command.
pub const CAPABILITY_WINK: u8 = 0x01;

/// Capability flag: the device answers CBOR commands.
pub const CAPABILITY_CBOR: u8 = 0x04;

/// Capability flag: the device does not answer encapsulated messages.
pub const CAPABILITY_NMSG: u8 = 0x08;

/// The one-byte payload of an error packet.
#[derive(Clone, Copy, Debug, PartialEq, Eq, Structural)]
pub enum ErrorCode {
    InvalidCmd,
    InvalidPar,
    InvalidLen,
    InvalidSeq,
    MsgTimeout,
    ChannelBusy,
    LockRequired,
    InvalidChannel,
    Other,
}

impl ErrorCode {
    /// The byte that stands for this code on the wire.
    pub open spec fn wire_code(self) -> u8 {
        match self {
            ErrorCode::InvalidCmd => 0x01,
            ErrorCode::InvalidPar => 0x02,
            ErrorCode::InvalidLen => 0x03,
            ErrorCode::InvalidSeq => 0x04,
            ErrorCode::MsgTimeout => 0x05,
            ErrorCode::ChannelBusy => 0x06,
            ErrorCode::LockRequired => 0x0A,
            ErrorCode::InvalidChannel => 0x0B,
            ErrorCode::Other => 0x7F,
        }
    }

    /// The byte that stands for this code on the wire.
    #[verifier::when_used_as_spec(wire_code)]
    pub fn code(self) -> (c: u8)
        ensures
            c == self.wire_code(),
    {
        match self {
            ErrorCode::InvalidCmd => 0x01,
            ErrorCode::InvalidPar => 0x02,
            ErrorCode::InvalidLen => 0x03,
            ErrorCode::InvalidSeq => 0x04,
            ErrorCode::MsgTimeout => 0x05,
            ErrorCode::ChannelBusy => 0x06,
            ErrorCode::LockRequired => 0x0A,
            ErrorCode::InvalidChannel => 0x0B,
            ErrorCode::Other => 0x7F,
        }
    }

    /// The code that a wire byte stands for, if it stands for one.
    pub fn from_code(c: u8) -> (found: Option<ErrorCode>)
        ensures
            match found {
                Some(e) => e.wire_code() == c,
                None => forall|e: ErrorCode| e.wire_code() != c,
            },
    {
        if c == 0x01 {
            Some(ErrorCode::InvalidCmd)
        } else if c == 0x02 {
            Some(ErrorCode::InvalidPar)
        } else if c == 0x03 {
            Some(ErrorCode::InvalidLen)
        } else if c == 0x04 {
            Some(ErrorCode::InvalidSeq)
        } else if c == 0x05 {
            Some(ErrorCode::MsgTimeout)
        } else if c == 0x06 {
            Some(ErrorCode::ChannelBusy)
        } else if c == 0x0A {
            Some(ErrorCode::LockRequired)
        } else if c == 0x0B {
            Some(ErrorCode::InvalidChannel)
        } else if c == 0x7F {
            Some(ErrorCode::Other)
        } else {
            None
        }
    }
}

/// The one-byte payload of a keepalive packet.
#[derive(Clone, Copy, Debug, PartialEq, Eq, Structural)]
pub enum KeepaliveStatus {
    Processing,
    UpNeeded,
}

impl KeepaliveStatus {
    /// The byte that stands for this status on the wire.
    pub open spec fn wire_code(self) -> u8 {
        match self {
            KeepaliveStatus::Processing => 1,
            KeepaliveStatus::UpNeeded => 2,
        }
    }

    /// The byte that stands for this status on the wire.
    #[verifier::when_used_as_spec(wire_code)]
    pub fn code(self) -> (c: u8)
        ensures
            c == self.wire_code(),
    {
        match self {
            KeepaliveStatus::Processing => 1,
            KeepaliveStatus::UpNeeded => 2,
        }
    }
}

/// What the engine does with a completed message, by its command byte alone.
#[derive(Clone, Copy, Debug, PartialEq, Eq, Structural)]
pub enum CommandKind {
    /// Channel allocation or resynchronisation: answered by the engine.
    Init,
    /// Abandons the running command: handled by the engine, never answered.
    Cancel,
    /// Takes or releases the lock: answered by the engine.
    Lock,
    /// Handed to the command processor.
    Forward,
    /// A command byte that only the engine may send.
    Outbound,
    /// A byte outside the command space.
    Unknown,
}

/// The kind of a command byte.
pub open spec fn command_kind(command: u8) -> CommandKind {
    if command == CMD_INIT {
        CommandKind::Init
    } else if command == CMD_CANCEL {
        CommandKind::Cancel
    } else if command == CMD_LOCK {
        CommandKind::Lock
    } else if command == CMD_PING || command == CMD_MSG || command == CMD_WINK || command
        == CMD_CBOR || command >= CMD_VENDOR_FIRST {
        CommandKind::Forward
    } else if command == CMD_KEEPALIVE || command == CMD_ERROR {
        CommandKind::Outbound
    } else {
        CommandKind::Unknown
    }
}

/// The kind of a command byte.
#[verifier::when_used_as_spec(command_kind)]
pub fn classify(command: u8) -> (kind: CommandKind)
    ensures
        kind == command_kind(command),
{
    if command == CMD_INIT {
        CommandKind::Init
    } else if command == CMD_CANCEL {
        CommandKind::Cancel
    } else if command == CMD_LOCK {
        CommandKind::Lock
    } else if command == CMD_PING || command == CMD_MSG || command == CMD_WINK || command
        == CMD_CBOR || command >= CMD_VENDOR_FIRST {
        CommandKind::Forward
    } else if command == CMD_KEEPALIVE || command == CMD_ERROR {
        CommandKind::Outbound
    } else {
        CommandKind::Unknown
    }
}

/// Whether a command is the transport's own and so passes where the lock or
/// another channel's transaction would stop it.
pub open spec fn is_control(command: u8) -> bool {
    command_kind(command) == CommandKind::Init || command_kind(command) == CommandKind::Cancel
}

/// Whether a command is the transport's own.
#[verifier::when_used_as_spec(is_control)]
pub fn is_control_command(command: u8) -> (control: bool)
    ensures
        control == is_control(command),
{
    match classify(command) {
        CommandKind::Init => true,
        CommandKind::Cancel => true,
        _ => false,
    }
}

} // verus!
