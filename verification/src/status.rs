//! The vocabulary of a receiver's state: fix mode and quality, constellations,
//! the link status, and what became of each raw sentence.

use vstd::prelude::*;

use crate::text::{decimal, push_decimal, push_text, text_of};

verus! {

/// 2D/3D fix state, from GSA field 2. This is the canonical "do we have a fix"
/// signal, distinct from GGA's finer-grained [`FixQuality`].
#[derive(Debug, Clone, Copy, PartialEq, Eq, Structural, Default)]
pub enum FixMode {
    #[default]
    NoFix,
    Fix2D,
    Fix3D,
}

impl FixMode {
    pub fn label(self) -> (r: &'static str)
        ensures
            r@ == match self {
                FixMode::NoFix => "No Fix"@,
                FixMode::Fix2D => "2D"@,
                FixMode::Fix3D => "3D"@,
            },
    {
        match self {
            FixMode::NoFix => "No Fix",
            FixMode::Fix2D => "2D",
            FixMode::Fix3D => "3D",
        }
    }

    pub fn has_fix(self) -> (r: bool)
        ensures
            r == (self != FixMode::NoFix),
    {
        !matches!(self, FixMode::NoFix)
    }
}

/// GGA fix quality — how the fix was produced.
#[derive(Debug, Clone, Copy, PartialEq, Eq, Structural, Default)]
pub enum FixQuality {
    #[default]
    Invalid,
    Gps,
    DGps,
    Pps,
    Rtk,
    FloatRtk,
    Estimated,
    Manual,
    Simulation,
}

impl FixQuality {
    pub fn label(self) -> (r: &'static str)
        ensures
            r@ == match self {
                FixQuality::Invalid => "Invalid"@,
                FixQuality::Gps => "GPS"@,
                FixQuality::DGps => "DGPS"@,
                FixQuality::Pps => "PPS"@,
                FixQuality::Rtk => "RTK Fixed"@,
                FixQuality::FloatRtk => "RTK Float"@,
                FixQuality::Estimated => "Estimated"@,
                FixQuality::Manual => "Manual"@,
                FixQuality::Simulation => "Simulation"@,
            },
    {
        match self {
            FixQuality::Invalid => "Invalid",
            FixQuality::Gps => "GPS",
            FixQuality::DGps => "DGPS",
            FixQuality::Pps => "PPS",
            FixQuality::Rtk => "RTK Fixed",
            FixQuality::FloatRtk => "RTK Float",
            FixQuality::Estimated => "Estimated",
            FixQuality::Manual => "Manual",
            FixQuality::Simulation => "Simulation",
        }
    }

    /// Whether this quality represents a real, trustworthy position solution.
    /// Dead reckoning, manual input and simulation are not.
    pub fn is_valid(self) -> (r: bool)
        ensures
            r == is_trustworthy(self),
    {
        matches!(
            self,
            FixQuality::Gps | FixQuality::DGps | FixQuality::Pps | FixQuality::Rtk
                | FixQuality::FloatRtk
        )
    }
}

pub open spec fn is_trustworthy(q: FixQuality) -> bool {
    ||| q == FixQuality::Gps
    ||| q == FixQuality::DGps
    ||| q == FixQuality::Pps
    ||| q == FixQuality::Rtk
    ||| q == FixQuality::FloatRtk
}

#[derive(Debug, Clone, Copy, PartialEq, Eq, PartialOrd, Ord, Hash, Structural)]
pub enum Constellation {
    Gps,
    Glonass,
    Galileo,
    Beidou,
    Qzss,
    NavIC,
}

/// Position of a constellation in the declared (and sorted) order.
pub open spec fn constellation_rank(c: Constellation) -> int {
    match c {
        Constellation::Gps => 0,
        Constellation::Glonass => 1,
        Constellation::Galileo => 2,
        Constellation::Beidou => 3,
        Constellation::Qzss => 4,
        Constellation::NavIC => 5,
    }
}

impl Constellation {
    pub const ALL: [Constellation; 6] = [
        Constellation::Gps,
        Constellation::Glonass,
        Constellation::Galileo,
        Constellation::Beidou,
        Constellation::Qzss,
        Constellation::NavIC,
    ];

    /// Short label for dense UI (satellite tables, per-constellation counts).
    pub fn short(self) -> (r: &'static str)
        ensures
            r@ == match self {
                Constellation::Gps => "GP"@,
                Constellation::Glonass => "GL"@,
                Constellation::Galileo => "GA"@,
                Constellation::Beidou => "BD"@,
                Constellation::Qzss => "QZ"@,
                Constellation::NavIC => "IN"@,
            },
    {
        match self {
            Constellation::Gps => "GP",
            Constellation::Glonass => "GL",
            Constellation::Galileo => "GA",
            Constellation::Beidou => "BD",
            Constellation::Qzss => "QZ",
            Constellation::NavIC => "IN",
        }
    }

    pub fn label(self) -> (r: &'static str)
        ensures
            r@ == match self {
                Constellation::Gps => "GPS"@,
                Constellation::Glonass => "GLONASS"@,
                Constellation::Galileo => "Galileo"@,
                Constellation::Beidou => "BeiDou"@,
                Constellation::Qzss => "QZSS"@,
                Constellation::NavIC => "NavIC"@,
            },
    {
        match self {
            Constellation::Gps => "GPS",
            Constellation::Glonass => "GLONASS",
            Constellation::Galileo => "Galileo",
            Constellation::Beidou => "BeiDou",
            Constellation::Qzss => "QZSS",
            Constellation::NavIC => "NavIC",
        }
    }

    /// The constellation at a position in the declared order.
    pub fn at_rank(k: u8) -> (r: Constellation)
        requires
            k < 6,
        ensures
            constellation_rank(r) == k,
    {
        if k == 0 {
            Constellation::Gps
        } else if k == 1 {
            Constellation::Glonass
        } else if k == 2 {
            Constellation::Galileo
        } else if k == 3 {
            Constellation::Beidou
        } else if k == 4 {
            Constellation::Qzss
        } else {
            Constellation::NavIC
        }
    }

    /// Position in the declared order, which is also the order satellites
    /// and per-constellation groups are listed in.
    pub fn rank(self) -> (r: u8)
        ensures
            r == constellation_rank(self),
    {
        match self {
            Constellation::Gps => 0,
            Constellation::Glonass => 1,
            Constellation::Galileo => 2,
            Constellation::Beidou => 3,
            Constellation::Qzss => 4,
            Constellation::NavIC => 5,
        }
    }
}

#[derive(Debug, Clone, PartialEq, Eq, Default)]
pub enum ConnectionStatus {
    #[default]
    Idle,
    Connecting,
    Connected,
    Reconnecting { attempt: u32 },
    Disconnected,
    Failed { message: String },
}

pub open spec fn connection_label(status: ConnectionStatus) -> Seq<char> {
    match status {
        ConnectionStatus::Idle => "Idle"@,
        ConnectionStatus::Connecting => "Connecting"@,
        ConnectionStatus::Connected => "Connected"@,
        ConnectionStatus::Reconnecting { attempt } => "Reconnecting (#"@ + decimal(attempt as nat)
            + ")"@,
        ConnectionStatus::Disconnected => "Disconnected"@,
        ConnectionStatus::Failed { message } => "Failed: "@ + message@,
    }
}

impl ConnectionStatus {
    /// Technical wording, as written to logs.
    pub fn label(&self) -> (r: String)
        ensures
            r@ == connection_label(*self),
    {
        match self {
            ConnectionStatus::Idle => text_of("Idle"),
            ConnectionStatus::Connecting => text_of("Connecting"),
            ConnectionStatus::Connected => text_of("Connected"),
            ConnectionStatus::Reconnecting { attempt } => {
                let mut s = text_of("Reconnecting (#");
                push_decimal(&mut s, *attempt as u64);
                push_text(&mut s, ")");
                s
            },
            ConnectionStatus::Disconnected => text_of("Disconnected"),
            ConnectionStatus::Failed { message } => {
                let mut s = text_of("Failed: ");
                push_text(&mut s, message.as_str());
                s
            },
        }
    }

    pub fn is_healthy(&self) -> (r: bool)
        ensures
            r == (*self matches ConnectionStatus::Connected),
    {
        matches!(self, ConnectionStatus::Connected)
    }
}

/// What the parser made of one raw line.
#[derive(Debug, Clone, PartialEq, Eq)]
pub enum SentenceOutcome {
    /// Decoded; the sentence type, e.g. `GGA`.
    Decoded(String),
    ChecksumFailed,
    Unsupported,
    ParseError(String),
}

/// A raw line as received, retained for the debug view.
#[derive(Debug, Clone, PartialEq, Eq)]
pub struct RawSentence {
    pub text: String,
    pub outcome: SentenceOutcome,
}

} // verus!
