//! Bounded file logging.
//!
//! Trace, debug and info records share a soft queue limit. When it is reached those records are
//! dropped and counted by level. Warnings and errors may use reserved capacity beyond it; if even
//! that is exhausted they are counted too. The counts are reported into the log itself.

use std::collections::VecDeque;

use vstd::prelude::*;
use vstd::utf8;

use crate::text;
use crate::text::{decimal_text, join};

pub mod rotation;
pub mod writer;

verus! {

pub const MAX_LOG_BYTES: u64 = 33554432;

pub const LOG_BACKUPS: usize = 3;

pub const LOG_QUEUE_CAPACITY: usize = 2048;

pub const LOG_EMERGENCY_RESERVE: usize = 64;

/// How often the log is flushed, in milliseconds.
pub const LOG_FLUSH_INTERVAL: u64 = 250;

pub const MAX_LOG_TARGET_BYTES: usize = 512;

pub const MAX_LOG_MESSAGE_BYTES: usize = 16384;

/// How important a record is.
#[derive(Debug, Clone, Copy, PartialEq, Eq, Structural)]
pub enum Level {
    Error,
    Warn,
    Info,
    Debug,
    Trace,
}

/// From which importance on records are logged.
#[derive(Debug, Clone, Copy, PartialEq, Eq, Structural)]
pub enum LevelFilter {
    Off,
    Error,
    Warn,
    Info,
    Debug,
    Trace,
}

impl Level {
    pub open spec fn rank(self) -> int {
        match self {
            Level::Error => 1,
            Level::Warn => 2,
            Level::Info => 3,
            Level::Debug => 4,
            Level::Trace => 5,
        }
    }

    pub open spec fn label(self) -> Seq<char> {
        match self {
            Level::Error => "ERROR"@,
            Level::Warn => "WARN"@,
            Level::Info => "INFO"@,
            Level::Debug => "DEBUG"@,
            Level::Trace => "TRACE"@,
        }
    }

    pub fn as_str(&self) -> (r: &'static str)
        ensures
            r@ == self.label(),
    {
        match self {
            Level::Error => "ERROR",
            Level::Warn => "WARN",
            Level::Info => "INFO",
            Level::Debug => "DEBUG",
            Level::Trace => "TRACE",
        }
    }
}

impl LevelFilter {
    pub open spec fn rank(self) -> int {
        match self {
            LevelFilter::Off => 0,
            LevelFilter::Error => 1,
            LevelFilter::Warn => 2,
            LevelFilter::Info => 3,
            LevelFilter::Debug => 4,
            LevelFilter::Trace => 5,
        }
    }

    /// Whether records of the level pass.
    pub fn enabled(&self, level: Level) -> (r: bool)
        ensures
            r == (level.rank() <= self.rank()),
    {
        let own: u8 = match self {
            LevelFilter::Off => 0,
            LevelFilter::Error => 1,
            LevelFilter::Warn => 2,
            LevelFilter::Info => 3,
            LevelFilter::Debug => 4,
            LevelFilter::Trace => 5,
        };
        let other: u8 = match level {
            Level::Error => 1,
            Level::Warn => 2,
            Level::Info => 3,
            Level::Debug => 4,
            Level::Trace => 5,
        };
        other <= own
    }
}

/// How the log is kept.
#[derive(Debug, Clone, Copy, PartialEq, Eq, Structural)]
pub struct AsyncFileLoggerConfig {
    pub max_bytes: u64,
    pub backups: usize,
    pub queue_capacity: usize,
    pub emergency_reserve: usize,
    pub flush_interval: u64,
}

/// The queue and the files of the log, as they are kept by default.
pub open spec fn default_config() -> AsyncFileLoggerConfig {
    AsyncFileLoggerConfig {
        max_bytes: MAX_LOG_BYTES,
        backups: LOG_BACKUPS,
        queue_capacity: LOG_QUEUE_CAPACITY,
        emergency_reserve: LOG_EMERGENCY_RESERVE,
        flush_interval: LOG_FLUSH_INTERVAL,
    }
}

/// What a logger is set up with.
#[derive(Debug, Clone, Copy, PartialEq, Eq, Structural)]
pub struct LoggerPlan {
    pub level: LevelFilter,
    pub config: AsyncFileLoggerConfig,
}

/// The logger for a verbosity: warnings at none, and one level more for each step.
pub fn setup(verbosity: u64) -> (r: LoggerPlan)
    ensures
        r.level == if verbosity == 0 {
            LevelFilter::Warn
        } else if verbosity == 1 {
            LevelFilter::Info
        } else if verbosity == 2 {
            LevelFilter::Debug
        } else {
            LevelFilter::Trace
        },
        r.config == default_config(),
{
    let level = match verbosity {
        0 => LevelFilter::Warn,
        1 => LevelFilter::Info,
        2 => LevelFilter::Debug,
        _ => LevelFilter::Trace,
    };
    LoggerPlan {
        level,
        config: AsyncFileLoggerConfig {
            max_bytes: MAX_LOG_BYTES,
            backups: LOG_BACKUPS,
            queue_capacity: LOG_QUEUE_CAPACITY,
            emergency_reserve: LOG_EMERGENCY_RESERVE,
            flush_interval: LOG_FLUSH_INTERVAL,
        },
    }
}

/// What the end of a text that was cut is marked with.
pub open spec fn truncation_marker() -> Seq<char> {
    "...<truncated>"@
}

/// The length of the marker, which is plain ASCII.
pub const TRUNCATION_MARKER_BYTES: usize = 14;

/// The last place at or before `limit` at which no character is cut.
pub open spec fn boundary(bytes: Seq<u8>, limit: int) -> int
    decreases limit,
{
    if limit <= 0 {
        0
    } else if utf8::is_char_boundary(bytes, limit) {
        limit
    } else {
        boundary(bytes, limit - 1)
    }
}

/// What is kept of a text of which `limit` bytes may be kept.
pub open spec fn kept(value: Seq<char>, limit: int) -> Seq<char> {
    let bytes = utf8::encode_utf8(value);
    utf8::decode_utf8(bytes.subrange(0, boundary(bytes, limit)))
}

/// What is logged of a text: all of it where it is no longer than `max_bytes`, and else as many
/// whole characters as leave room for the marker, and the marker.
pub open spec fn bounded(value: Seq<char>, max_bytes: nat) -> Seq<char> {
    if utf8::encode_utf8(value).len() <= max_bytes {
        value
    } else {
        let room = if max_bytes >= TRUNCATION_MARKER_BYTES {
            max_bytes - TRUNCATION_MARKER_BYTES
        } else {
            0
        };
        kept(value, room) + truncation_marker()
    }
}

/// The last place at or before `limit` at which no character is cut.
pub fn truncation_boundary(value: &str, limit: usize) -> (r: usize)
    ensures
        r == boundary(
            utf8::encode_utf8(value@),
            if limit <= utf8::encode_utf8(value@).len() {
                limit as int
            } else {
                utf8::encode_utf8(value@).len() as int
            },
        ),
        r <= limit,
        r <= utf8::encode_utf8(value@).len(),
        utf8::is_char_boundary(utf8::encode_utf8(value@), r as int),
{
    let ghost bytes = utf8::encode_utf8(value@);
    let total: usize = value.as_bytes().len();
    let start: usize = if limit <= total {
        limit
    } else {
        total
    };
    let mut at: usize = start;
    proof {
        utf8::encode_utf8_valid_utf8(value@);
        utf8::is_char_boundary_start_end_of_seq(bytes);
    }
    while !value.is_char_boundary(at)
        invariant
            at <= start <= bytes.len(),
            bytes == utf8::encode_utf8(value@),
            utf8::is_char_boundary(bytes, 0),
            boundary(bytes, start as int) == boundary(bytes, at as int),
        decreases at,
    {
        at = at - 1;
    }
    at
}

/// The text, cut to `max_bytes` where it is longer.
pub fn bounded_str(value: &str, max_bytes: usize) -> (r: String)
    ensures
        r@ == bounded(value@, max_bytes as nat),
{
    let total: usize = value.as_bytes().len();
    if total <= max_bytes {
        return value.to_owned();
    }
    let room: usize = max_bytes.saturating_sub(TRUNCATION_MARKER_BYTES);
    let keep: usize = truncation_boundary(value, room);
    let (head, _) = value.split_at(keep);
    proof {
        utf8::encode_utf8_decode_utf8(head@);
    }
    join(head, "...<truncated>")
}

/// The text, cut to `max_bytes` where it is longer.
pub fn bounded_string(value: String, max_bytes: usize) -> (r: String)
    ensures
        r@ == bounded(value@, max_bytes as nat),
{
    let total: usize = value.as_str().as_bytes().len();
    if total <= max_bytes {
        return value;
    }
    bounded_str(value.as_str(), max_bytes)
}

proof fn lemma_boundary(bytes: Seq<u8>, limit: int)
    requires
        utf8::valid_utf8(bytes),
        0 <= limit <= bytes.len(),
    ensures
        0 <= boundary(bytes, limit) <= limit,
        utf8::is_char_boundary(bytes, boundary(bytes, limit)),
    decreases limit,
{
    utf8::is_char_boundary_start_end_of_seq(bytes);
    if limit > 0 && !utf8::is_char_boundary(bytes, limit) {
        lemma_boundary(bytes, limit - 1);
    }
}

/// A logged text is never longer than allowed, as long as the marker fits, and what it keeps is
/// the beginning of the text.
pub proof fn law_bounded_texts_fit(value: Seq<char>, max_bytes: nat)
    requires
        max_bytes >= TRUNCATION_MARKER_BYTES,
    ensures
        utf8::encode_utf8(bounded(value, max_bytes)).len() <= max_bytes,
        utf8::encode_utf8(value).len() > max_bytes ==> text::starts_with(
            value,
            kept(value, max_bytes - TRUNCATION_MARKER_BYTES),
        ),
{
    let bytes = utf8::encode_utf8(value);
    if bytes.len() > max_bytes {
        let room = max_bytes - TRUNCATION_MARKER_BYTES;
        utf8::encode_utf8_valid_utf8(value);
        lemma_boundary(bytes, room);
        let at = boundary(bytes, room);
        utf8::valid_utf8_split(bytes, at);
        utf8::decode_utf8_split(bytes, at);
        utf8::encode_utf8_decode_utf8(value);
        let head = bytes.subrange(0, at);
        let tail = bytes.subrange(at, bytes.len() as int);
        utf8::decode_utf8_encode_utf8(head);
        let keep = utf8::decode_utf8(head);
        assert(value =~= keep + utf8::decode_utf8(tail));
        assert(value.take(keep.len() as int) =~= keep);
        text::lemma_encode_concat(keep, truncation_marker());
        reveal_strlit("...<truncated>");
        utf8::is_ascii_chars_encode_utf8(truncation_marker());
        assert(utf8::encode_utf8(truncation_marker()).len() == 14);
    }
}

/// A record on its way to the log.
#[derive(Debug)]
pub struct QueuedRecord {
    /// When it was made, in milliseconds.
    pub timestamp: u64,
    pub level: Level,
    pub target: String,
    pub message: String,
}

impl QueuedRecord {
    /// A record as it is logged, with its texts cut to their limits.
    pub fn from_log(timestamp: u64, level: Level, target: &str, message: String) -> (r: Self)
        ensures
            r.timestamp == timestamp,
            r.level == level,
            r.target@ == bounded(target@, MAX_LOG_TARGET_BYTES as nat),
            r.message@ == bounded(message@, MAX_LOG_MESSAGE_BYTES as nat),
    {
        QueuedRecord {
            timestamp,
            level,
            target: bounded_str(target, MAX_LOG_TARGET_BYTES),
            message: bounded_string(message, MAX_LOG_MESSAGE_BYTES),
        }
    }

    /// A record of the log about itself.
    pub fn internal(timestamp: u64, level: Level, message: String) -> (r: Self)
        ensures
            r.timestamp == timestamp,
            r.level == level,
            r.target@ == "helix_term::logging"@,
            r.message == message,
    {
        QueuedRecord { timestamp, level, target: "helix_term::logging".to_owned(), message }
    }

    /// The line that is written for the record, whose time is written as `timestamp`.
    pub fn line(&self, timestamp: &str) -> (r: String)
        ensures
            r@ == timestamp@ + seq![' '] + self.target@ + " ["@ + self.level.label() + "] "@
                + self.message@ + seq!['\n'],
    {
        let mut line = String::new();
        line.append(timestamp);
        line.push(' ');
        line.append(self.target.as_str());
        line.append(" [");
        line.append(self.level.as_str());
        line.append("] ");
        line.append(self.message.as_str());
        line.push('\n');
        assert(line@ =~= timestamp@ + seq![' '] + self.target@ + " ["@ + self.level.label() + "] "@
            + self.message@ + seq!['\n']);
        line
    }
}

/// Whether records of the level are dropped first.
pub open spec fn low_priority(level: Level) -> bool {
    level == Level::Trace || level == Level::Debug || level == Level::Info
}

pub fn is_low_priority(level: Level) -> (r: bool)
    ensures
        r == low_priority(level),
{
    match level {
        Level::Trace | Level::Debug | Level::Info => true,
        Level::Warn | Level::Error => false,
    }
}

/// How many records were dropped, by level.
#[derive(Debug, Clone, Copy, PartialEq, Eq, Structural)]
pub struct DroppedRecords {
    pub trace: u64,
    pub debug: u64,
    pub info: u64,
    pub warning: u64,
    pub error: u64,
}

/// What was dropped up to some moment.
pub type DroppedSnapshot = DroppedRecords;

/// The counter wraps around, as a counter of its width does.
pub open spec fn bumped(n: u64) -> u64 {
    if n == u64::MAX {
        0
    } else {
        (n + 1) as u64
    }
}

pub open spec fn nothing_dropped() -> DroppedRecords {
    DroppedRecords { trace: 0, debug: 0, info: 0, warning: 0, error: 0 }
}

pub open spec fn one_dropped(dropped: DroppedRecords, level: Level) -> DroppedRecords {
    match level {
        Level::Trace => DroppedRecords { trace: bumped(dropped.trace), ..dropped },
        Level::Debug => DroppedRecords { debug: bumped(dropped.debug), ..dropped },
        Level::Info => DroppedRecords { info: bumped(dropped.info), ..dropped },
        Level::Warn => DroppedRecords { warning: bumped(dropped.warning), ..dropped },
        Level::Error => DroppedRecords { error: bumped(dropped.error), ..dropped },
    }
}

impl DroppedRecords {
    pub fn none() -> (r: Self)
        ensures
            r == nothing_dropped(),
    {
        DroppedRecords { trace: 0, debug: 0, info: 0, warning: 0, error: 0 }
    }

    /// Counts a dropped record.
    pub fn increment(&mut self, level: Level)
        ensures
            *final(self) == one_dropped(*old(self), level),
    {
        match level {
            Level::Trace => {
                self.trace = self.trace.wrapping_add(1);
            },
            Level::Debug => {
                self.debug = self.debug.wrapping_add(1);
            },
            Level::Info => {
                self.info = self.info.wrapping_add(1);
            },
            Level::Warn => {
                self.warning = self.warning.wrapping_add(1);
            },
            Level::Error => {
                self.error = self.error.wrapping_add(1);
            },
        }
    }

    /// Hands the counts over and starts again.
    pub fn take(&mut self) -> (r: DroppedSnapshot)
        ensures
            r == *old(self),
            *final(self) == nothing_dropped(),
    {
        let taken = *self;
        *self = DroppedRecords::none();
        taken
    }

    pub fn has_low_priority(&self) -> (r: bool)
        ensures
            r == (self.trace != 0 || self.debug != 0 || self.info != 0),
    {
        self.trace != 0 || self.debug != 0 || self.info != 0
    }

    pub fn has_high_priority(&self) -> (r: bool)
        ensures
            r == (self.warning != 0 || self.error != 0),
    {
        self.warning != 0 || self.error != 0
    }
}

/// What is said of dropped records of low priority.
pub open spec fn low_report(dropped: DroppedRecords) -> Seq<char> {
    "log queue saturated; dropped trace="@ + text::decimal(dropped.trace as nat) + " debug="@
        + text::decimal(dropped.debug as nat) + " info="@ + text::decimal(dropped.info as nat)
}

/// What is said of dropped warnings and errors.
pub open spec fn high_report(dropped: DroppedRecords) -> Seq<char> {
    "log emergency reserve saturated; dropped warning="@ + text::decimal(dropped.warning as nat)
        + " error="@ + text::decimal(dropped.error as nat)
}

/// The records that report what was dropped: a warning for low priorities and an error for high
/// ones, each only where something was dropped.
pub fn report_dropped(dropped: &DroppedSnapshot) -> (r: Vec<(Level, String)>)
    ensures
        ({
            let low = dropped.trace != 0 || dropped.debug != 0 || dropped.info != 0;
            let high = dropped.warning != 0 || dropped.error != 0;
            &&& r@.len() == (if low {
                1int
            } else {
                0
            }) + (if high {
                1int
            } else {
                0
            })
            &&& low ==> r@[0].0 == Level::Warn && r@[0].1@ == low_report(*dropped)
            &&& high ==> r@.last().0 == Level::Error && r@.last().1@ == high_report(*dropped)
        }),
{
    let mut out: Vec<(Level, String)> = Vec::new();
    if dropped.has_low_priority() {
        let mut message = String::new();
        message.append("log queue saturated; dropped trace=");
        message.append(decimal_text(dropped.trace).as_str());
        message.append(" debug=");
        message.append(decimal_text(dropped.debug).as_str());
        message.append(" info=");
        message.append(decimal_text(dropped.info).as_str());
        assert(message@ =~= low_report(*dropped));
        out.push((Level::Warn, message));
    }
    if dropped.has_high_priority() {
        let mut message = String::new();
        message.append("log emergency reserve saturated; dropped warning=");
        message.append(decimal_text(dropped.warning).as_str());
        message.append(" error=");
        message.append(decimal_text(dropped.error).as_str());
        assert(message@ =~= high_report(*dropped));
        out.push((Level::Error, message));
    }
    out
}

/// What the writer of the log is told.
pub enum WriterCommand {
    Record(QueuedRecord),
    /// Write everything out and answer the request of this number.
    Flush(u64),
    /// The same, and stop.
    Shutdown(u64),
}

/// Why the log cannot be used.
#[derive(Debug, Clone, Copy, PartialEq, Eq, Structural)]
pub enum LogError {
    /// The queue capacity must exceed its emergency reserve.
    InvalidCapacity,
    /// The writer is gone.
    WriterUnavailable,
    /// The maximum log size must be greater than zero.
    InvalidSize,
}

impl LogError {
    pub open spec fn text(self) -> Seq<char> {
        match self {
            LogError::InvalidCapacity => "log queue capacity must exceed its emergency reserve"@,
            LogError::WriterUnavailable => "log writer thread is unavailable"@,
            LogError::InvalidSize => "maximum log size must be greater than zero"@,
        }
    }

    pub fn message(&self) -> (r: String)
        ensures
            r@ == self.text(),
    {
        match self {
            LogError::InvalidCapacity => "log queue capacity must exceed its emergency reserve".to_owned(),
            LogError::WriterUnavailable => "log writer thread is unavailable".to_owned(),
            LogError::InvalidSize => "maximum log size must be greater than zero".to_owned(),
        }
    }
}

/// The error of a log whose writer is gone.
pub fn writer_unavailable() -> (r: LogError)
    ensures
        r == LogError::WriterUnavailable,
{
    LogError::WriterUnavailable
}

/// The records among the commands.
pub open spec fn records(commands: Seq<WriterCommand>) -> nat
    decreases commands.len(),
{
    if commands.len() == 0 {
        0
    } else {
        records(commands.drop_last()) + (if commands.last() is Record {
            1nat
        } else {
            0
        })
    }
}

proof fn lemma_records_bound(commands: Seq<WriterCommand>)
    ensures
        records(commands) <= commands.len(),
    decreases commands.len(),
{
    if commands.len() > 0 {
        lemma_records_bound(commands.drop_last());
    }
}

proof fn lemma_records_pop(commands: Seq<WriterCommand>)
    requires
        commands.len() > 0,
    ensures
        records(commands) == records(commands.skip(1)) + (if commands[0] is Record {
            1nat
        } else {
            0
        }),
    decreases commands.len(),
{
    if commands.len() > 1 {
        lemma_records_pop(commands.drop_last());
        assert(commands.drop_last().skip(1) =~= commands.skip(1).drop_last());
    } else {
        assert(commands.drop_last() =~= seq![]);
        assert(commands.skip(1) =~= seq![]);
        assert(records(commands.drop_last()) == 0);
    }
}

/// The commands that wait for the writer, and what had to be dropped.
pub struct LogQueue {
    pub commands: VecDeque<WriterCommand>,
    /// How many of the commands are records.
    pub queued_records: usize,
    pub dropped: DroppedRecords,
    /// How many records of low priority may be queued.
    pub low_priority_limit: usize,
    pub capacity: usize,
    /// Whether the writer is gone.
    pub disconnected: bool,
}

impl LogQueue {
    pub open spec fn wf(&self) -> bool {
        &&& self.queued_records == records(self.commands@)
        &&& self.queued_records <= self.capacity
        &&& self.commands@.len() <= self.capacity
        &&& 0 < self.low_priority_limit <= self.capacity
    }

    /// How many records may be queued before one of the level is dropped.
    pub open spec fn limit(&self, level: Level) -> usize {
        if low_priority(level) {
            self.low_priority_limit
        } else {
            self.capacity
        }
    }

    /// Whether a record of the level is taken.
    pub open spec fn accepts(&self, level: Level) -> bool {
        &&& self.queued_records < self.limit(level)
        &&& self.commands@.len() < self.capacity
        &&& !self.disconnected
    }

    /// An empty queue; its capacity exceeds the reserve.
    pub fn bounded(capacity: usize, emergency_reserve: usize) -> (r: Result<LogQueue, LogError>)
        ensures
            match r {
                Ok(queue) => {
                    &&& 0 < capacity && emergency_reserve < capacity
                    &&& queue.wf()
                    &&& queue.commands@.len() == 0
                    &&& queue.dropped == nothing_dropped()
                    &&& queue.low_priority_limit == capacity - emergency_reserve
                    &&& queue.capacity == capacity
                    &&& !queue.disconnected
                },
                Err(error) => (capacity == 0 || emergency_reserve >= capacity) && error
                    == LogError::InvalidCapacity,
            },
    {
        if capacity == 0 || emergency_reserve >= capacity {
            return Err(LogError::InvalidCapacity);
        }
        Ok(
            LogQueue {
                commands: VecDeque::new(),
                queued_records: 0,
                dropped: DroppedRecords::none(),
                low_priority_limit: capacity - emergency_reserve,
                capacity,
                disconnected: false,
            },
        )
    }

    /// Reserves room for a record of the level.
    fn reserve(&mut self, level: Level) -> (r: Option<QueueReservation>)
        requires
            old(self).wf(),
        ensures
            final(self).commands == old(self).commands,
            final(self).low_priority_limit == old(self).low_priority_limit,
            final(self).capacity == old(self).capacity,
            final(self).disconnected == old(self).disconnected,
            match r {
                Some(reservation) => {
                    &&& old(self).queued_records < old(self).limit(level)
                    &&& reservation.level == level
                    &&& final(self).queued_records == old(self).queued_records + 1
                    &&& final(self).dropped == old(self).dropped
                },
                None => {
                    &&& old(self).queued_records >= old(self).limit(level)
                    &&& final(self).queued_records == old(self).queued_records
                    &&& final(self).dropped == one_dropped(old(self).dropped, level)
                },
            },
    {
        let limit: usize = if is_low_priority(level) {
            self.low_priority_limit
        } else {
            self.capacity
        };
        if self.queued_records < limit {
            self.queued_records = self.queued_records + 1;
            Some(QueueReservation { level })
        } else {
            self.dropped.increment(level);
            None
        }
    }

    /// Queues the record that is built, if it is taken. A record that finds no room is not even
    /// built.
    pub fn try_enqueue_with<F: FnOnce() -> QueuedRecord>(&mut self, level: Level, build_record: F) -> (
    accepted: bool)
        requires
            old(self).wf(),
            old(self).queued_records < old(self).limit(level) ==> build_record.requires(()),
        ensures
            final(self).wf(),
            accepted == old(self).accepts(level),
            final(self).low_priority_limit == old(self).low_priority_limit,
            final(self).capacity == old(self).capacity,
            final(self).disconnected == old(self).disconnected,
            accepted ==> {
                &&& final(self).commands@.len() == old(self).commands@.len() + 1
                &&& final(self).commands@.drop_last() == old(self).commands@
                &&& final(self).commands@.last() matches WriterCommand::Record(record)
                    && build_record.ensures((), record)
                &&& final(self).dropped == old(self).dropped
            },
            !accepted ==> {
                &&& final(self).commands@ == old(self).commands@
                &&& final(self).dropped == one_dropped(old(self).dropped, level)
            },
    {
        let reservation = match self.reserve(level) {
            Some(reservation) => reservation,
            None => {
                return false;
            },
        };
        let record = build_record();
        if self.disconnected || self.commands.len() >= self.capacity {
            reservation.release(self);
            return false;
        }
        let ghost before = self.commands@;
        self.commands.push_back(WriterCommand::Record(record));
        reservation.commit();
        proof {
            assert(self.commands@.drop_last() =~= before);
        }
        true
    }

    /// Queues a record, if it is taken.
    pub fn try_enqueue(&mut self, record: QueuedRecord) -> (accepted: bool)
        requires
            old(self).wf(),
        ensures
            final(self).wf(),
            accepted == old(self).accepts(record.level),
            final(self).low_priority_limit == old(self).low_priority_limit,
            final(self).capacity == old(self).capacity,
            final(self).disconnected == old(self).disconnected,
            accepted ==> {
                &&& final(self).commands@ == old(self).commands@.push(WriterCommand::Record(record))
                &&& final(self).dropped == old(self).dropped
            },
            !accepted ==> {
                &&& final(self).commands@ == old(self).commands@
                &&& final(self).dropped == one_dropped(old(self).dropped, record.level)
            },
    {
        let level = record.level;
        let ghost before = self.commands@;
        let build = move || -> (built: QueuedRecord)
            ensures
                built == record,
            { record };
        let accepted = self.try_enqueue_with(level, build);
        proof {
            if accepted {
                assert(self.commands@ =~= before.push(WriterCommand::Record(record)));
            }
        }
        accepted
    }

    /// Queues a command for the writer where there is room; with none, its sender has to wait.
    /// The answer says that the command was queued.
    pub fn send_control(&mut self, command: WriterCommand) -> (r: Result<bool, LogError>)
        requires
            old(self).wf(),
            !(command is Record),
        ensures
            final(self).wf(),
            final(self).dropped == old(self).dropped,
            final(self).low_priority_limit == old(self).low_priority_limit,
            final(self).capacity == old(self).capacity,
            final(self).disconnected == old(self).disconnected,
            match r {
                Err(error) => old(self).disconnected && error == LogError::WriterUnavailable
                    && final(self).commands@ == old(self).commands@,
                Ok(queued) => !old(self).disconnected && queued == (old(self).commands@.len()
                    < old(self).capacity) && final(self).commands@ == if queued {
                    old(self).commands@.push(command)
                } else {
                    old(self).commands@
                },
            },
    {
        if self.disconnected {
            return Err(writer_unavailable());
        }
        if self.commands.len() >= self.capacity {
            return Ok(false);
        }
        let ghost before = self.commands@;
        self.commands.push_back(command);
        assert(self.commands@.drop_last() =~= before);
        Ok(true)
    }

    /// The writer takes the next command.
    pub fn receive(&mut self) -> (r: Option<WriterCommand>)
        requires
            old(self).wf(),
        ensures
            final(self).wf(),
            final(self).dropped == old(self).dropped,
            final(self).low_priority_limit == old(self).low_priority_limit,
            final(self).capacity == old(self).capacity,
            final(self).disconnected == old(self).disconnected,
            match r {
                Some(command) => old(self).commands@.len() > 0 && command == old(self).commands@[0]
                    && final(self).commands@ == old(self).commands@.skip(1),
                None => old(self).commands@.len() == 0 && final(self).commands@
                    == old(self).commands@,
            },
    {
        let ghost before = self.commands@;
        proof {
            if before.len() > 0 {
                lemma_records_pop(before);
            }
        }
        match self.commands.pop_front() {
            Some(command) => {
                assert(self.commands@ =~= before.skip(1));
                if let WriterCommand::Record(_) = &command {
                    self.queued_records = self.queued_records - 1;
                }
                Some(command)
            },
            None => None,
        }
    }
}

/// Room for one record.
pub struct QueueReservation {
    pub level: Level,
}

impl QueueReservation {
    /// The record has taken the room.
    fn commit(self) {
    }

    /// The record was not queued: the room is given back, and the record counted as dropped.
    fn release(self, queue: &mut LogQueue)
        requires
            old(queue).queued_records > 0,
        ensures
            final(queue).queued_records == old(queue).queued_records - 1,
            final(queue).dropped == one_dropped(old(queue).dropped, self.level),
            final(queue).commands == old(queue).commands,
            final(queue).low_priority_limit == old(queue).low_priority_limit,
            final(queue).capacity == old(queue).capacity,
            final(queue).disconnected == old(queue).disconnected,
    {
        queue.queued_records = queue.queued_records - 1;
        queue.dropped.increment(self.level);
    }
}

/// As long as the queue is not full, a warning or an error is taken, however many records of low
/// priority wait in it.
pub proof fn law_the_reserve_is_kept_for_warnings(queue: LogQueue, level: Level)
    requires
        queue.wf(),
        !low_priority(level),
        !queue.disconnected,
        queue.commands@.len() < queue.capacity,
    ensures
        queue.accepts(level),
{
    lemma_records_bound(queue.commands@);
}

/// Every record that is offered is either queued or counted: the one or the other grows by one.
pub proof fn law_no_record_is_lost_silently(dropped: DroppedRecords, level: Level)
    requires
        dropped.trace < u64::MAX,
        dropped.debug < u64::MAX,
        dropped.info < u64::MAX,
        dropped.warning < u64::MAX,
        dropped.error < u64::MAX,
    ensures
        ({
            let after = one_dropped(dropped, level);
            after.trace + after.debug + after.info + after.warning + after.error == dropped.trace
                + dropped.debug + dropped.info + dropped.warning + dropped.error + 1
        }),
{
}

/// A text is cut at the last place in front of the limit that splits no character.
pub proof fn law_texts_are_cut_at_the_last_boundary(bytes: Seq<u8>, limit: int)
    requires
        0 <= limit,
    ensures
        0 <= boundary(bytes, limit) <= limit,
        boundary(bytes, limit) > 0 ==> utf8::is_char_boundary(bytes, boundary(bytes, limit)),
        forall|at: int|
            boundary(bytes, limit) < at <= limit ==> !#[trigger] utf8::is_char_boundary(bytes, at),
    decreases limit,
{
    if limit > 0 && !utf8::is_char_boundary(bytes, limit) {
        law_texts_are_cut_at_the_last_boundary(bytes, limit - 1);
    }
}

/// Texts that are short enough are not cut, longer ones end in the mark.
pub proof fn law_cut_texts_are_marked(value: Seq<char>, max_bytes: nat)
    ensures
        utf8::encode_utf8(value).len() <= max_bytes ==> bounded(value, max_bytes) == value,
        utf8::encode_utf8(value).len() > max_bytes ==> text::ends_with(
            bounded(value, max_bytes),
            "...<truncated>"@,
        ),
{
    if utf8::encode_utf8(value).len() > max_bytes {
        let room = if max_bytes >= TRUNCATION_MARKER_BYTES {
            max_bytes - TRUNCATION_MARKER_BYTES
        } else {
            0
        };
        let all = kept(value, room) + truncation_marker();
        assert(all.skip(all.len() - truncation_marker().len()) =~= truncation_marker());
    }
}

/// A filter lets through what is as severe as itself or more, and nothing when off.
pub proof fn law_filters_let_the_severe_through(filter: LevelFilter, level: Level)
    ensures
        !(level.rank() <= LevelFilter::Off.rank()),
        level.rank() <= LevelFilter::Trace.rank(),
        level.rank() <= LevelFilter::Error.rank() <==> level == Level::Error,
        level.rank() <= LevelFilter::Warn.rank() <==> level == Level::Error || level == Level::Warn,
        level.rank() <= LevelFilter::Info.rank() <==> level != Level::Debug && level
            != Level::Trace,
        level.rank() <= LevelFilter::Debug.rank() <==> level != Level::Trace,
{
}

/// A record that is dropped is counted under its own level.
pub proof fn law_dropped_records_count_under_their_level(dropped: DroppedRecords)
    requires
        dropped.trace < u64::MAX,
        dropped.debug < u64::MAX,
        dropped.info < u64::MAX,
        dropped.warning < u64::MAX,
        dropped.error < u64::MAX,
    ensures
        one_dropped(dropped, Level::Trace).trace == dropped.trace + 1,
        one_dropped(dropped, Level::Debug).debug == dropped.debug + 1,
        one_dropped(dropped, Level::Info).info == dropped.info + 1,
        one_dropped(dropped, Level::Warn).warning == dropped.warning + 1,
        one_dropped(dropped, Level::Error).error == dropped.error + 1,
{
}

/// When only the reserve is left nothing that can wait is taken, while warnings and errors are;
/// whatever takes something less urgent takes something more urgent too.
pub proof fn law_the_reserve_is_closed_to_chatter(queue: LogQueue)
    requires
        queue.wf(),
    ensures
        queue.queued_records >= queue.low_priority_limit ==> !queue.accepts(Level::Info)
            && !queue.accepts(Level::Debug) && !queue.accepts(Level::Trace),
        queue.accepts(Level::Info) ==> queue.accepts(Level::Warn) && queue.accepts(Level::Error)
            && queue.accepts(Level::Debug),
        queue.disconnected ==> !queue.accepts(Level::Error),
        queue.queued_records < queue.low_priority_limit && queue.commands@.len() < queue.capacity
            && !queue.disconnected ==> queue.accepts(Level::Trace),
{
}

/// Of the commands that wait only records count as such.
pub proof fn law_only_records_are_counted(commands: Seq<WriterCommand>, command: WriterCommand)
    ensures
        records(Seq::<WriterCommand>::empty()) == 0,
        command is Record ==> records(commands.push(command)) == records(commands) + 1,
        !(command is Record) ==> records(commands.push(command)) == records(commands),
{
    assert(commands.push(command).drop_last() =~= commands);
}

} // verus!
