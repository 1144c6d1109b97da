//! Verified core of an NMEA 0183 debugger.
//!
//! Raw lines from any source are framed, checksummed once and folded into one
//! receiver's picture — the fix, the satellite table reassembled from GSV
//! groups and GSA cycles, and the stream-health counters a debugger keeps
//! about what it rejected. Around that sit the decisions the frontends share:
//! which source a command line selects, how a capture's size reads, and the
//! terminal basemap's tile addressing and feature classes.

pub mod basemap;
pub mod checksum;
pub mod counters;
pub mod display;
pub mod fix;
pub mod framing;
mod paths;
pub mod receiver;
pub mod record;
pub mod sky;
pub mod source;
pub mod status;
mod text;

pub use basemap::{Availability, Shape, TileId};
pub use checksum::{verify_checksum, ChecksumResult};
pub use counters::{
    push_capped, SentenceCounters, MAX_HISTORY, MAX_RAW_SENTENCES, MAX_TRACK_POINTS,
};
pub use display::{optional, BottomPanel};
pub use fix::{apply_sentence, FixState, Sentence};
pub use framing::{LineFramer, MAX_LINE_BYTES};
pub use receiver::{advance_epoch, Ingested, Parsed, Receiver};
pub use record::{capture_name, RecordingStatus};
pub use sky::{SatelliteInfo, SkyTracker};
pub use source::{
    may_record, offers, Affordances, Backoff, Cancel, SourceArgs, SourceChoice, SourceControls, SourceEvent,
    COMMON_BAUD_RATES,
};
pub use status::{
    ConnectionStatus, Constellation, FixMode, FixQuality, RawSentence, SentenceOutcome,
};
