//! Input transports, as far as they are decisions rather than I/O: which
//! source a command line asks for, what a source reports, and how a reader is
//! told to stop.

use vstd::prelude::*;
use std::path::PathBuf;
use std::sync::Arc;
use std::sync::atomic::{AtomicBool, Ordering};

use crate::status::ConnectionStatus;
use crate::text::text_of;

verus! {

/// Cooperative cancellation, shared with blocking reader threads that can't be
/// dropped mid-`await` the way a task can.
#[derive(Debug, Clone)]
pub struct Cancel(Arc<AtomicBool>);

impl Cancel {
    /// A flag that has not been raised.
    pub fn new() -> Self {
        Cancel(Arc::new(AtomicBool::new(false)))
    }

    /// Raise the flag, for this handle and every clone of it.
    pub fn cancel(&self) {
        self.0.store(true, Ordering::Relaxed);
    }

    /// Whether any handle has raised the flag.
    pub fn is_cancelled(&self) -> bool {
        self.0.load(Ordering::Relaxed)
    }
}

/// Reconnection pacing for a live source: what to report before each attempt
/// to connect, and how long to wait after one fails or a connection drops.
/// The wait doubles after every failure up to a cap, and a successful
/// connection resets both the attempt count and the wait.
pub struct Backoff {
    attempt: u32,
    delay_ms: u64,
    initial_ms: u64,
    max_ms: u64,
}

impl Backoff {
    /// Attempts that have failed since the last successful connection.
    pub closed spec fn attempt(&self) -> u32 {
        self.attempt
    }

    /// The wait after the next failure, in milliseconds.
    pub closed spec fn delay(&self) -> u64 {
        self.delay_ms
    }

    pub closed spec fn initial(&self) -> u64 {
        self.initial_ms
    }

    pub closed spec fn cap(&self) -> u64 {
        self.max_ms
    }

    /// The wait stays between the first one and the cap.
    pub closed spec fn wf(&self) -> bool {
        self.initial_ms <= self.delay_ms <= self.max_ms <= u64::MAX / 2
    }

    /// No attempt made yet; the first failure waits `initial_ms`.
    pub fn new(initial_ms: u64, max_ms: u64) -> (r: Self)
        requires
            initial_ms <= max_ms <= u64::MAX / 2,
        ensures
            r.wf(),
            r.attempt() == 0,
            r.delay() == initial_ms,
            r.initial() == initial_ms,
            r.cap() == max_ms,
    {
        Backoff { attempt: 0, delay_ms: initial_ms, initial_ms, max_ms }
    }

    pub fn attempts(&self) -> (r: u32)
        ensures
            r == self.attempt(),
    {
        self.attempt
    }

    /// What to report before the next attempt: connecting the first time,
    /// reconnecting (with the attempt number) after that.
    pub fn status(&self) -> (r: ConnectionStatus)
        ensures
            r == if self.attempt() == 0 {
                ConnectionStatus::Connecting
            } else {
                ConnectionStatus::Reconnecting { attempt: self.attempt() }
            },
    {
        if self.attempt == 0 {
            ConnectionStatus::Connecting
        } else {
            ConnectionStatus::Reconnecting { attempt: self.attempt }
        }
    }

    /// A connection was made: start counting afresh.
    pub fn connected(&mut self)
        requires
            old(self).wf(),
        ensures
            final(self).wf(),
            final(self).attempt() == 0,
            final(self).delay() == old(self).initial(),
            final(self).initial() == old(self).initial(),
            final(self).cap() == old(self).cap(),
    {
        self.attempt = 0;
        self.delay_ms = self.initial_ms;
    }

    /// An attempt failed or a connection dropped: count it, and return how
    /// long to wait before the next, doubling the wait after for the one
    /// after that, up to the cap.
    pub fn failed(&mut self) -> (wait_ms: u64)
        requires
            old(self).wf(),
            old(self).attempt() < u32::MAX,
        ensures
            final(self).wf(),
            wait_ms == old(self).delay(),
            final(self).attempt() == old(self).attempt() + 1,
            final(self).delay() == if 2 * old(self).delay() <= old(self).cap() {
                2 * old(self).delay()
            } else {
                old(self).cap() as int
            },
            final(self).initial() == old(self).initial(),
            final(self).cap() == old(self).cap(),
    {
        let wait = self.delay_ms;
        self.attempt = self.attempt + 1;
        let doubled = self.delay_ms * 2;
        self.delay_ms = if doubled <= self.max_ms {
            doubled
        } else {
            self.max_ms
        };
        wait
    }
}

/// Law: however many times a connection fails, the wait before the next
/// attempt never exceeds the cap, and never falls below the first wait.
pub proof fn lemma_backoff_is_bounded(b: Backoff)
    requires
        b.wf(),
    ensures
        b.initial() <= b.delay() <= b.cap(),
{
}

/// What a source reports. Serial, TCP and file differ only in how bytes arrive
/// and what "disconnected" means; everything downstream sees these.
#[derive(Debug, Clone)]
pub enum SourceEvent {
    /// One raw line, checksum not yet validated.
    Line(String),
    Status(ConnectionStatus),
    /// A recoverable problem worth surfacing without tearing the session down.
    Warning(String),
    /// A replay jumped to another place in its log: everything derived from
    /// the old position describes a stretch that is no longer where it is.
    Seeked,
}

/// Baud rates worth offering in a picker. GPS modules are almost always one of
/// these — 4800 for older NMEA 0183 devices, 9600 as the common default.
pub const COMMON_BAUD_RATES: [u32; 7] = [4800, 9600, 19200, 38400, 57600, 115200, 230400];

/// The source-selection flags of the command line: at most one of serial,
/// TCP or file is meant to be given.
#[derive(Debug)]
pub struct SourceArgs {
    /// Serial port to read from, e.g. /dev/ttyUSB0 or COM3
    pub serial: Option<String>,
    /// TCP endpoint to read from, e.g. 192.168.1.50:10110
    pub tcp: Option<String>,
    /// NMEA log file to read
    pub file: Option<PathBuf>,
    /// List available serial ports and exit
    pub list_ports: bool,
}

/// The source a command line selects. A log file is replayed in its own timing
/// unless `instant` asks for it to be parsed as fast as it can be read.
#[derive(Debug, Clone, PartialEq)]
pub enum SourceChoice {
    Serial { path: String, baud: u32 },
    Tcp { addr: String },
    File { path: PathBuf, instant: bool },
}

/// What a running source can be asked to do. The split that matters to a
/// frontend is live versus recorded: a receiver cannot be paused, retimed or
/// restarted, and a log can go stale only in the sense of having ended.
#[derive(Debug, Clone, Copy, PartialEq, Eq, Structural)]
pub enum SourceControls {
    /// A serial or TCP receiver.
    Live,
    /// A log paced in its own timing, with a transport.
    Replay,
    /// A log parsed as fast as it can be read.
    Instant,
}

impl SourceControls {
    pub fn is_live(self) -> (r: bool)
        ensures
            r == (self == SourceControls::Live),
    {
        matches!(self, SourceControls::Live)
    }
}

impl SourceChoice {
    /// Serial and TCP are live; a log replays unless it was opened instant.
    pub fn controls(&self) -> (r: SourceControls)
        ensures
            r == match *self {
                SourceChoice::Serial { .. } | SourceChoice::Tcp { .. } => SourceControls::Live,
                SourceChoice::File { instant, .. } => if instant {
                    SourceControls::Instant
                } else {
                    SourceControls::Replay
                },
            },
    {
        match self {
            SourceChoice::Serial { .. } | SourceChoice::Tcp { .. } => SourceControls::Live,
            SourceChoice::File { instant, .. } => {
                if *instant {
                    SourceControls::Instant
                } else {
                    SourceControls::Replay
                }
            },
        }
    }
}

/// What a frontend offers for the running source, so that neither offers a
/// control the source could not honour.
#[derive(Debug, Clone, Copy, PartialEq, Eq, Structural)]
pub struct Affordances {
    /// Pause and resume.
    pub pause: bool,
    /// Change the replay rate.
    pub rate: bool,
    /// Show the position in the log and seek within it.
    pub scrub: bool,
    /// Run the source again from the beginning.
    pub restart: bool,
    /// Sentences-per-second readout.
    pub data_rate: bool,
    /// Warning once the stream has gone quiet.
    pub stale_warning: bool,
    /// Time from start to the first valid fix.
    pub time_to_first_fix: bool,
    /// Capture the stream to a file.
    pub record: bool,
}

/// What a source can be asked to do, by what it is. A replay has a transport:
/// it can be paused, retimed, scrubbed and restarted. A log loaded instantly
/// can only be read again. A receiver has none of that, but it can fall
/// silent, it has an acquisition time, and it can be recorded. With no source
/// running nothing is offered.
pub fn offers(controls: Option<SourceControls>) -> (r: Affordances)
    ensures
        r.pause == (controls == Some(SourceControls::Replay)),
        r.rate == (controls == Some(SourceControls::Replay)),
        r.scrub == (controls == Some(SourceControls::Replay)),
        r.restart == (controls == Some(SourceControls::Replay) || controls == Some(
            SourceControls::Instant,
        )),
        r.data_rate == (controls == Some(SourceControls::Live)),
        r.stale_warning == (controls == Some(SourceControls::Live)),
        r.time_to_first_fix == (controls == Some(SourceControls::Live)),
        r.record == (controls == Some(SourceControls::Live)),
{
    let replay = matches!(controls, Some(SourceControls::Replay));
    let live = matches!(controls, Some(SourceControls::Live));
    let recorded = matches!(controls, Some(SourceControls::Replay) | Some(SourceControls::Instant));
    Affordances {
        pause: replay,
        rate: replay,
        scrub: replay,
        restart: recorded,
        data_rate: live,
        stale_warning: live,
        time_to_first_fix: live,
        record: live,
    }
}

/// Whether a capture may start, given what the running source (if any) can
/// do. Live sources only: a recording is how a receiver's misbehaviour gets
/// from the field to a desk, and a log is already that.
pub fn may_record(controls: Option<SourceControls>) -> (r: Result<(), String>)
    ensures
        match controls {
            Some(SourceControls::Live) => r is Ok,
            Some(_) => r matches Err(e) && e@ == "only a live source can be recorded"@,
            None => r matches Err(e) && e@ == "no source is running"@,
        },
{
    match controls {
        Some(SourceControls::Live) => Ok(()),
        Some(_) => Err(text_of("only a live source can be recorded")),
        None => Err(text_of("no source is running")),
    }
}

impl ConnectionStatus {
    /// Take in a source's warning: a healthy connection shrugs it off, any
    /// other state becomes a failure carrying the message.
    pub fn absorb_warning(&mut self, message: String)
        ensures
            (*old(self) is Connected) ==> *final(self) == *old(self),
            !(*old(self) is Connected) ==> *final(self) == (ConnectionStatus::Failed { message }),
    {
        if !self.is_healthy() {
            *self = ConnectionStatus::Failed { message };
        }
    }
}

impl SourceArgs {
    /// The source these flags select, or `None` when only `--list-ports` was
    /// asked for. A serial port wins over a TCP endpoint, which wins over a
    /// file; a log replays unless `instant` is set.
    pub fn to_config(&self, baud: u32, instant: bool) -> (r: Option<SourceChoice>)
        ensures
            match self.serial {
                Some(path) => r == Some(SourceChoice::Serial { path, baud }),
                None => match self.tcp {
                    Some(addr) => r == Some(SourceChoice::Tcp { addr }),
                    None => match self.file {
                        Some(path) => r == Some(SourceChoice::File { path, instant }),
                        None => r is None,
                    },
                },
            },
    {
        if let Some(path) = &self.serial {
            return Some(SourceChoice::Serial { path: path.clone(), baud });
        }
        if let Some(addr) = &self.tcp {
            return Some(SourceChoice::Tcp { addr: addr.clone() });
        }
        if let Some(path) = &self.file {
            return Some(SourceChoice::File { path: path.clone(), instant });
        }
        None
    }
}

} // verus!
