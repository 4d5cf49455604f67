//! Wire constants of the GSM 07.10 multiplexer protocol: field bits, frame
//! types, control-channel message types and signal octets, each with its
//! stable wire code.

use vstd::prelude::*;

verus! {

/// Acknowledgement timer bound, in protocol ticks.
pub const DEFAULT_T1: usize = 100;

/// Response timer bound for the control channel, in protocol ticks.
pub const DEFAULT_T2: usize = 300;

/// Largest information-field size negotiated by default.
pub const DEFAULT_N1: usize = 64;

/// Bound on retransmissions.
pub const DEFAULT_N2: usize = 3;

/// Bound on the data carried by one control-channel request.
pub const MAX_CONTROL_REQUEST_DATA: isize = 16;

/// Data channels are numbered 1 to this bound; channel 0 carries control.
pub const MAX_CHANNELS: isize = 5;

/// Bits of the address octet beyond the channel number.
#[derive(Clone, Copy, Debug, PartialEq, Eq, Structural)]
pub enum Address {
    /// The command/response bit.
    CR,
}

impl Address {
    /// The bit's place in the address octet.
    pub open spec fn spec_code(self) -> u8 {
        match self {
            Address::CR => 0x02,
        }
    }

    /// The bit's place in the address octet.
    pub fn code(self) -> (r: u8)
        ensures
            r == self.spec_code(),
    {
        match self {
            Address::CR => 0x02,
        }
    }
}

/// The extension bit closing a one-octet address or length field.
#[derive(Clone, Copy, Debug, PartialEq, Eq, Structural)]
pub enum Extension {
    EA,
}

impl Extension {
    /// The bit's place in its octet.
    pub open spec fn spec_code(self) -> u8 {
        match self {
            Extension::EA => 0x01,
        }
    }

    /// The bit's place in its octet.
    pub fn code(self) -> (r: u8)
        ensures
            r == self.spec_code(),
    {
        match self {
            Extension::EA => 0x01,
        }
    }
}

/// Control-field codings: the frame types, and the poll/final bit.
#[derive(Clone, Copy, Debug, PartialEq, Eq, Structural)]
pub enum FrameType {
    /// Set asynchronous balanced mode.
    SABM,
    /// Unnumbered acknowledgement.
    UA,
    /// Disconnected mode.
    DM,
    /// Disconnect.
    DISC,
    /// Unnumbered information with header check.
    UIH,
    /// Unnumbered information.
    UI,
    /// The poll/final bit.
    PF,
}

impl FrameType {
    /// The control-field coding.
    pub open spec fn spec_code(self) -> u8 {
        match self {
            FrameType::SABM => 0x2f,
            FrameType::UA => 0x63,
            FrameType::DM => 0x04,
            FrameType::DISC => 0x43,
            FrameType::UIH => 0xef,
            FrameType::UI => 0x03,
            FrameType::PF => 0x10,
        }
    }

    /// The control-field coding.
    pub fn code(self) -> (r: u8)
        ensures
            r == self.spec_code(),
    {
        match self {
            FrameType::SABM => 0x2f,
            FrameType::UA => 0x63,
            FrameType::DM => 0x04,
            FrameType::DISC => 0x43,
            FrameType::UIH => 0xef,
            FrameType::UI => 0x03,
            FrameType::PF => 0x10,
        }
    }
}

/// Message types carried on the control channel.
#[derive(Clone, Copy, Debug, PartialEq, Eq, Structural)]
pub enum ControlChannelCommand {
    /// Parameter negotiation.
    PN,
    /// Power saving control.
    PSC,
    /// Multiplexer close-down.
    CLD,
    /// Test.
    TEST,
    /// Flow control on.
    FCON,
    /// Flow control off.
    FCOFF,
    /// Modem status.
    MSC,
    /// Non-supported command response.
    NSC,
    /// Remote port negotiation.
    RPN,
    /// Remote line status.
    RLS,
    /// Service negotiation.
    SNC,
}

impl ControlChannelCommand {
    /// The message-type coding.
    pub open spec fn spec_code(self) -> u8 {
        match self {
            ControlChannelCommand::PN => 0x80,
            ControlChannelCommand::PSC => 0x40,
            ControlChannelCommand::CLD => 0xc0,
            ControlChannelCommand::TEST => 0x20,
            ControlChannelCommand::FCON => 0xa0,
            ControlChannelCommand::FCOFF => 0x60,
            ControlChannelCommand::MSC => 0xe0,
            ControlChannelCommand::NSC => 0x10,
            ControlChannelCommand::RPN => 0x90,
            ControlChannelCommand::RLS => 0x50,
            ControlChannelCommand::SNC => 0xd0,
        }
    }

    /// The message-type coding.
    pub fn code(self) -> (r: u8)
        ensures
            r == self.spec_code(),
    {
        match self {
            ControlChannelCommand::PN => 0x80,
            ControlChannelCommand::PSC => 0x40,
            ControlChannelCommand::CLD => 0xc0,
            ControlChannelCommand::TEST => 0x20,
            ControlChannelCommand::FCON => 0xa0,
            ControlChannelCommand::FCOFF => 0x60,
            ControlChannelCommand::MSC => 0xe0,
            ControlChannelCommand::NSC => 0x10,
            ControlChannelCommand::RPN => 0x90,
            ControlChannelCommand::RLS => 0x50,
            ControlChannelCommand::SNC => 0xd0,
        }
    }
}

/// Distinguished octets of the two framing options.
#[derive(Clone, Copy, Debug, PartialEq, Eq, Structural)]
pub enum Frame {
    /// The basic-option flag octet.
    BASIC_FLAG,
    /// The advanced-option flag octet.
    ADVANCED_FLAG,
    /// The advanced-option escape octet.
    CONTROL_ESCAPE,
    /// The value XORed onto an escaped octet.
    CONTROL_RESTORE,
}

impl Frame {
    /// The octet's value.
    pub open spec fn spec_code(self) -> u8 {
        match self {
            Frame::BASIC_FLAG => 0xf9,
            Frame::ADVANCED_FLAG => 0x7e,
            Frame::CONTROL_ESCAPE => 0x7d,
            Frame::CONTROL_RESTORE => 0x20,
        }
    }

    /// The octet's value.
    pub fn code(self) -> (r: u8)
        ensures
            r == self.spec_code(),
    {
        match self {
            Frame::BASIC_FLAG => 0xf9,
            Frame::ADVANCED_FLAG => 0x7e,
            Frame::CONTROL_ESCAPE => 0x7d,
            Frame::CONTROL_RESTORE => 0x20,
        }
    }
}

/// Bits of the control-signal octet, each one place left of its wire
/// position.
#[derive(Clone, Copy, Debug, PartialEq, Eq, Structural)]
pub enum V24Signals {
    /// Flow control.
    FC,
    /// Ready to communicate.
    RTC,
    /// Ready to receive.
    RTR,
    /// Incoming call indicator.
    IC,
    /// Data valid.
    DV,
}

impl V24Signals {
    /// The bit's place in the signal octet.
    pub open spec fn spec_code(self) -> u8 {
        match self {
            V24Signals::FC => 0x01,
            V24Signals::RTC => 0x02,
            V24Signals::RTR => 0x04,
            V24Signals::IC => 0x20,
            V24Signals::DV => 0x40,
        }
    }

    /// The bit's place in the signal octet.
    pub fn code(self) -> (r: u8)
        ensures
            r == self.spec_code(),
    {
        match self {
            V24Signals::FC => 0x01,
            V24Signals::RTC => 0x02,
            V24Signals::RTR => 0x04,
            V24Signals::IC => 0x20,
            V24Signals::DV => 0x40,
        }
    }
}

/// In-band flow control octets.
#[derive(Clone, Copy, Debug, PartialEq, Eq, Structural)]
pub enum SoftwareFlowControl {
    XON,
    XOFF,
}

impl SoftwareFlowControl {
    /// The octet's value.
    pub open spec fn spec_code(self) -> u8 {
        match self {
            SoftwareFlowControl::XON => 0x11,
            SoftwareFlowControl::XOFF => 0x13,
        }
    }

    /// The octet's value.
    pub fn code(self) -> (r: u8)
        ensures
            r == self.spec_code(),
    {
        match self {
            SoftwareFlowControl::XON => 0x11,
            SoftwareFlowControl::XOFF => 0x13,
        }
    }
}

/// The convergence layer a channel carries.
#[derive(Clone, Copy, Debug, PartialEq, Eq, Structural)]
pub enum ConvergenceLayer {
    /// Unstructured octet stream.
    UNSTRUCTURED,
    /// Unstructured octet stream with flow control.
    UNSTRUCTURED_WITH_FLOW_CONTROL,
    /// Uninterruptible framed data.
    UNINTERRUPTIBLE_FRAMED,
    /// Interruptible framed data.
    INTERRUPTIBLE_FRAMED,
}

impl ConvergenceLayer {
    /// The layer's negotiated type number.
    pub open spec fn spec_code(self) -> u8 {
        match self {
            ConvergenceLayer::UNSTRUCTURED => 1,
            ConvergenceLayer::UNSTRUCTURED_WITH_FLOW_CONTROL => 2,
            ConvergenceLayer::UNINTERRUPTIBLE_FRAMED => 3,
            ConvergenceLayer::INTERRUPTIBLE_FRAMED => 4,
        }
    }

    /// The layer's negotiated type number.
    pub fn code(self) -> (r: u8)
        ensures
            r == self.spec_code(),
    {
        match self {
            ConvergenceLayer::UNSTRUCTURED => 1,
            ConvergenceLayer::UNSTRUCTURED_WITH_FLOW_CONTROL => 2,
            ConvergenceLayer::UNINTERRUPTIBLE_FRAMED => 3,
            ConvergenceLayer::INTERRUPTIBLE_FRAMED => 4,
        }
    }
}

} // verus!
