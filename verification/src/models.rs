//! Data model: schedule and recording records, settings, and the status
//! state machines.
//!
//! The two status enums carry the transition relations that every store
//! mutation is proved to respect: a terminal status is never the origin of
//! a transition.

use vstd::prelude::*;
use vstd::string::StringExecFns;

verus! {

/// Status of a schedule entry.
#[derive(Debug, Clone, Copy, PartialEq, Eq, Structural)]
pub enum ScheduleStatus {
    Scheduled,
    Recording,
    Completed,
    Failed,
    Canceled,
}

/// Status of a recording entry (one capture attempt and its file).
#[derive(Debug, Clone, Copy, PartialEq, Eq, Structural)]
pub enum RecordingStatus {
    Recording,
    Completed,
    Failed,
    Partial,
}

/// Whether a schedule status is terminal: no transition may leave it.
pub open spec fn schedule_status_terminal(s: ScheduleStatus) -> bool {
    s == ScheduleStatus::Completed || s == ScheduleStatus::Failed || s == ScheduleStatus::Canceled
}

/// The schedule state machine: a schedule only ever moves
/// Scheduled -> {Recording, Canceled} and Recording -> {Completed, Failed, Canceled}.
pub open spec fn schedule_transition_ok(from: ScheduleStatus, to: ScheduleStatus) -> bool {
    ||| (from == ScheduleStatus::Scheduled && (to == ScheduleStatus::Recording
        || to == ScheduleStatus::Canceled))
    ||| (from == ScheduleStatus::Recording && (to == ScheduleStatus::Completed
        || to == ScheduleStatus::Failed || to == ScheduleStatus::Canceled))
}

/// Whether a recording status is terminal.
pub open spec fn recording_status_terminal(s: RecordingStatus) -> bool {
    s == RecordingStatus::Completed || s == RecordingStatus::Failed || s
        == RecordingStatus::Partial
}

/// The recording state machine: Recording -> {Completed, Failed, Partial}.
pub open spec fn recording_transition_ok(from: RecordingStatus, to: RecordingStatus) -> bool {
    from == RecordingStatus::Recording && recording_status_terminal(to)
}

/// No schedule transition originates from a terminal status.
pub proof fn lemma_no_transition_from_terminal_schedule(from: ScheduleStatus, to: ScheduleStatus)
    ensures
        schedule_status_terminal(from) ==> !schedule_transition_ok(from, to),
{
}

/// No recording transition originates from a terminal status.
pub proof fn lemma_no_transition_from_terminal_recording(
    from: RecordingStatus,
    to: RecordingStatus,
)
    ensures
        recording_status_terminal(from) ==> !recording_transition_ok(from, to),
{
}

/// Decides `schedule_transition_ok`.
pub fn schedule_transition_allowed(from: ScheduleStatus, to: ScheduleStatus) -> (r: bool)
    ensures
        r == schedule_transition_ok(from, to),
{
    match (from, to) {
        (ScheduleStatus::Scheduled, ScheduleStatus::Recording) => true,
        (ScheduleStatus::Scheduled, ScheduleStatus::Canceled) => true,
        (ScheduleStatus::Recording, ScheduleStatus::Completed) => true,
        (ScheduleStatus::Recording, ScheduleStatus::Failed) => true,
        (ScheduleStatus::Recording, ScheduleStatus::Canceled) => true,
        _ => false,
    }
}

/// Decides `recording_transition_ok`.
pub fn recording_transition_allowed(from: RecordingStatus, to: RecordingStatus) -> (r: bool)
    ensures
        r == recording_transition_ok(from, to),
{
    match (from, to) {
        (RecordingStatus::Recording, RecordingStatus::Completed) => true,
        (RecordingStatus::Recording, RecordingStatus::Failed) => true,
        (RecordingStatus::Recording, RecordingStatus::Partial) => true,
        _ => false,
    }
}

impl ScheduleStatus {
    pub open spec fn spec_str(self) -> Seq<char> {
        match self {
            ScheduleStatus::Scheduled => "scheduled"@,
            ScheduleStatus::Recording => "recording"@,
            ScheduleStatus::Completed => "completed"@,
            ScheduleStatus::Failed => "failed"@,
            ScheduleStatus::Canceled => "canceled"@,
        }
    }

    pub fn as_str(&self) -> (r: &'static str)
        ensures
            r@ == self.spec_str(),
    {
        match self {
            ScheduleStatus::Scheduled => "scheduled",
            ScheduleStatus::Recording => "recording",
            ScheduleStatus::Completed => "completed",
            ScheduleStatus::Failed => "failed",
            ScheduleStatus::Canceled => "canceled",
        }
    }
}

impl RecordingStatus {
    pub open spec fn spec_str(self) -> Seq<char> {
        match self {
            RecordingStatus::Recording => "recording"@,
            RecordingStatus::Completed => "completed"@,
            RecordingStatus::Failed => "failed"@,
            RecordingStatus::Partial => "partial"@,
        }
    }

    pub fn as_str(&self) -> (r: &'static str)
        ensures
            r@ == self.spec_str(),
    {
        match self {
            RecordingStatus::Recording => "recording",
            RecordingStatus::Completed => "completed",
            RecordingStatus::Failed => "failed",
            RecordingStatus::Partial => "partial",
        }
    }
}

/// Parses the written form of a schedule status.
pub fn parse_schedule_status(s: &str) -> (r: Option<ScheduleStatus>)
    ensures
        match r {
            Some(st) => s@ == st.spec_str(),
            None => forall|st: ScheduleStatus| s@ != #[trigger] st.spec_str(),
        },
{
    if crate::text::str_eq(s, "scheduled") {
        Some(ScheduleStatus::Scheduled)
    } else if crate::text::str_eq(s, "recording") {
        Some(ScheduleStatus::Recording)
    } else if crate::text::str_eq(s, "completed") {
        Some(ScheduleStatus::Completed)
    } else if crate::text::str_eq(s, "failed") {
        Some(ScheduleStatus::Failed)
    } else if crate::text::str_eq(s, "canceled") {
        Some(ScheduleStatus::Canceled)
    } else {
        proof {
            assert forall|st: ScheduleStatus| s@ != #[trigger] st.spec_str() by {
                match st {
                    ScheduleStatus::Scheduled => assert(s@ != "scheduled"@),
                    ScheduleStatus::Recording => assert(s@ != "recording"@),
                    ScheduleStatus::Completed => assert(s@ != "completed"@),
                    ScheduleStatus::Failed => assert(s@ != "failed"@),
                    ScheduleStatus::Canceled => assert(s@ != "canceled"@),
                }
            }
        }
        None
    }
}

/// Parses the written form of a recording status.
pub fn parse_recording_status(s: &str) -> (r: Option<RecordingStatus>)
    ensures
        match r {
            Some(st) => s@ == st.spec_str(),
            None => forall|st: RecordingStatus| s@ != #[trigger] st.spec_str(),
        },
{
    if crate::text::str_eq(s, "recording") {
        Some(RecordingStatus::Recording)
    } else if crate::text::str_eq(s, "completed") {
        Some(RecordingStatus::Completed)
    } else if crate::text::str_eq(s, "failed") {
        Some(RecordingStatus::Failed)
    } else if crate::text::str_eq(s, "partial") {
        Some(RecordingStatus::Partial)
    } else {
        proof {
            assert forall|st: RecordingStatus| s@ != #[trigger] st.spec_str() by {
                match st {
                    RecordingStatus::Recording => assert(s@ != "recording"@),
                    RecordingStatus::Completed => assert(s@ != "completed"@),
                    RecordingStatus::Failed => assert(s@ != "failed"@),
                    RecordingStatus::Partial => assert(s@ != "partial"@),
                }
            }
        }
        None
    }
}

/// Largest instant (seconds) the model admits; leaves room for paddings
/// and safety margins in `i64` arithmetic.
pub const MAX_INSTANT: i64 = 0x4000_0000_0000;

/// A planned recording tied to a channel and a time window.
#[derive(Debug)]
pub struct Schedule {
    pub id: i64,
    pub source_id: String,
    pub channel_id: String,
    pub channel_name: String,
    pub program_title: String,
    /// Nominal program start (unix seconds).
    pub scheduled_start: i64,
    /// Nominal program end (unix seconds).
    pub scheduled_end: i64,
    pub start_padding_sec: i32,
    pub end_padding_sec: i32,
    pub status: ScheduleStatus,
    pub series_match_title: Option<String>,
    pub recurrence: Option<String>,
    pub created_at: i64,
    /// Set when the status first reached Recording.
    pub started_at: Option<i64>,
    /// Pre-resolved capture URL, for sources whose tokens expire.
    pub stream_url: Option<String>,
}

impl Schedule {
    /// Validity of one schedule record: a non-empty forward time window
    /// within the model's instant range, non-negative paddings, and
    /// `started_at` set exactly when the status has reached Recording.
    pub open spec fn wf(self) -> bool {
        &&& 0 < self.id
        &&& 0 <= self.scheduled_start
        &&& self.scheduled_start < self.scheduled_end
        &&& self.scheduled_end <= MAX_INSTANT
        &&& 0 <= self.start_padding_sec
        &&& 0 <= self.end_padding_sec
        &&& 0 <= self.created_at <= MAX_INSTANT
        &&& (self.status == ScheduleStatus::Scheduled ==> self.started_at is None)
        &&& ((self.status == ScheduleStatus::Recording || self.status == ScheduleStatus::Completed
            || self.status == ScheduleStatus::Failed) ==> self.started_at is Some)
    }

    pub open spec fn spec_actual_start(self) -> int {
        self.scheduled_start - self.start_padding_sec
    }

    pub open spec fn spec_actual_end(self) -> int {
        self.scheduled_end + self.end_padding_sec
    }

    /// Capture start instant: nominal start moved back by the start padding.
    pub fn actual_start(&self) -> (r: i64)
        requires
            self.wf(),
        ensures
            r == self.spec_actual_start(),
    {
        self.scheduled_start - self.start_padding_sec as i64
    }

    /// Capture end instant: nominal end moved forward by the end padding.
    pub fn actual_end(&self) -> (r: i64)
        requires
            self.wf(),
        ensures
            r == self.spec_actual_end(),
    {
        self.scheduled_end + self.end_padding_sec as i64
    }
}

/// Copies an optional string, field for field.
pub fn clone_opt_string(o: &Option<String>) -> (r: Option<String>)
    ensures
        r == *o,
{
    match o {
        Some(s) => Some(s.clone()),
        None => None,
    }
}

impl Clone for Schedule {
    fn clone(&self) -> (r: Self)
        ensures
            r == *self,
    {
        Schedule {
            id: self.id,
            source_id: self.source_id.clone(),
            channel_id: self.channel_id.clone(),
            channel_name: self.channel_name.clone(),
            program_title: self.program_title.clone(),
            scheduled_start: self.scheduled_start,
            scheduled_end: self.scheduled_end,
            start_padding_sec: self.start_padding_sec,
            end_padding_sec: self.end_padding_sec,
            status: self.status,
            series_match_title: clone_opt_string(&self.series_match_title),
            recurrence: clone_opt_string(&self.recurrence),
            created_at: self.created_at,
            started_at: self.started_at,
            stream_url: clone_opt_string(&self.stream_url),
        }
    }
}

/// One capture attempt and the file it produced.
#[derive(Debug)]
pub struct Recording {
    pub id: i64,
    /// Owning schedule; None once orphaned.
    pub schedule_id: Option<i64>,
    pub file_path: String,
    pub filename: String,
    pub channel_name: String,
    pub program_title: String,
    /// None until the size is known.
    pub size_bytes: Option<i64>,
    pub scheduled_start: i64,
    pub scheduled_end: i64,
    pub actual_start: Option<i64>,
    pub actual_end: Option<i64>,
    pub status: RecordingStatus,
    pub error_message: Option<String>,
    /// Retention tag: "never" exempts the recording from quota eviction.
    pub auto_delete_policy: String,
    pub created_at: i64,
    pub thumbnail_path: Option<String>,
}

impl Recording {
    /// Validity of one recording record: `actual_end` is set exactly when
    /// the status is terminal.
    pub open spec fn wf(self) -> bool {
        &&& 0 < self.id
        &&& 0 <= self.created_at <= MAX_INSTANT
        &&& (self.actual_end is Some <==> recording_status_terminal(self.status))
        &&& (self.actual_end is Some ==> 0 <= self.actual_end->0 <= MAX_INSTANT)
        &&& (self.size_bytes is Some ==> 0 <= self.size_bytes->0)
    }

    /// The instant eviction passes order by: the recorded end when known,
    /// the creation instant otherwise.
    pub open spec fn spec_effective_end(self) -> int {
        match self.actual_end {
            Some(e) => e as int,
            None => self.created_at as int,
        }
    }

    pub fn effective_end(&self) -> (r: i64)
        ensures
            r == self.spec_effective_end(),
    {
        match self.actual_end {
            Some(e) => e,
            None => self.created_at,
        }
    }
}

impl Clone for Recording {
    fn clone(&self) -> (r: Self)
        ensures
            r == *self,
    {
        Recording {
            id: self.id,
            schedule_id: self.schedule_id,
            file_path: self.file_path.clone(),
            filename: self.filename.clone(),
            channel_name: self.channel_name.clone(),
            program_title: self.program_title.clone(),
            size_bytes: self.size_bytes,
            scheduled_start: self.scheduled_start,
            scheduled_end: self.scheduled_end,
            actual_start: self.actual_start,
            actual_end: self.actual_end,
            status: self.status,
            error_message: clone_opt_string(&self.error_message),
            auto_delete_policy: self.auto_delete_policy.clone(),
            created_at: self.created_at,
            thumbnail_path: clone_opt_string(&self.thumbnail_path),
        }
    }
}

/// Settings that govern storage and default paddings.
#[derive(Debug)]
pub struct DvrSettings {
    pub storage_path: String,
    pub max_disk_usage_percent: u8,
    pub auto_cleanup_enabled: bool,
    pub default_start_padding_sec: i32,
    pub default_end_padding_sec: i32,
    pub keep_recordings_days: Option<i32>,
}

/// The mathematical content of [`DvrSettings`].
pub struct DvrSettingsView {
    pub storage_path: Seq<char>,
    pub max_disk_usage_percent: u8,
    pub auto_cleanup_enabled: bool,
    pub default_start_padding_sec: i32,
    pub default_end_padding_sec: i32,
    pub keep_recordings_days: Option<i32>,
}

impl View for DvrSettings {
    type V = DvrSettingsView;

    open spec fn view(&self) -> DvrSettingsView {
        DvrSettingsView {
            storage_path: self.storage_path@,
            max_disk_usage_percent: self.max_disk_usage_percent,
            auto_cleanup_enabled: self.auto_cleanup_enabled,
            default_start_padding_sec: self.default_start_padding_sec,
            default_end_padding_sec: self.default_end_padding_sec,
            keep_recordings_days: self.keep_recordings_days,
        }
    }
}

impl Default for DvrSettings {
    fn default() -> (r: Self)
        ensures
            r.storage_path@ == Seq::<char>::empty(),
            r.max_disk_usage_percent == 80,
            r.auto_cleanup_enabled == true,
            r.default_start_padding_sec == crate::DEFAULT_START_PADDING_SEC,
            r.default_end_padding_sec == crate::DEFAULT_END_PADDING_SEC,
            r.keep_recordings_days == Some(30i32),
    {
        DvrSettings {
            storage_path: String::new(),
            max_disk_usage_percent: 80,
            auto_cleanup_enabled: true,
            default_start_padding_sec: 60,
            default_end_padding_sec: 300,
            keep_recordings_days: Some(30),
        }
    }
}

/// A request to create a schedule.
#[derive(Debug)]
pub struct ScheduleRequest {
    pub source_id: String,
    pub channel_id: String,
    pub channel_name: String,
    pub program_title: String,
    pub scheduled_start: i64,
    pub scheduled_end: i64,
    pub start_padding_sec: i32,
    pub end_padding_sec: i32,
    pub series_match_title: Option<String>,
    pub recurrence: Option<String>,
    pub stream_url: Option<String>,
}

impl ScheduleRequest {
    /// The inputs the store accepts: a non-empty forward window in range,
    /// non-negative paddings.
    pub open spec fn valid(self) -> bool {
        &&& 0 <= self.scheduled_start
        &&& self.scheduled_start < self.scheduled_end
        &&& self.scheduled_end <= MAX_INSTANT
        &&& 0 <= self.start_padding_sec
        &&& 0 <= self.end_padding_sec
    }
}

/// Conflict report for a proposed recording window.
#[derive(Debug)]
pub struct ScheduleConflict {
    pub has_conflict: bool,
    pub conflicts: Vec<Schedule>,
    pub message: Option<String>,
}

/// Lifecycle notification handed to the event sink.
#[derive(Debug)]
pub struct RecordingEvent {
    pub event_type: String,
    pub schedule_id: i64,
    pub recording_id: Option<i64>,
    pub channel_name: String,
    pub program_title: String,
    pub message: Option<String>,
}

impl RecordingEvent {
    pub fn started(schedule: &Schedule, recording_id: i64) -> (r: Self)
        ensures
            r.event_type@ == "started"@,
            r.schedule_id == schedule.id,
            r.recording_id == Some(recording_id),
            r.channel_name@ == schedule.channel_name@,
            r.program_title@ == schedule.program_title@,
            r.message is None,
    {
        RecordingEvent {
            event_type: String::from_str("started"),
            schedule_id: schedule.id,
            recording_id: Some(recording_id),
            channel_name: schedule.channel_name.clone(),
            program_title: schedule.program_title.clone(),
            message: None,
        }
    }

    pub fn completed(schedule: &Schedule, recording_id: i64) -> (r: Self)
        ensures
            r.event_type@ == "completed"@,
            r.schedule_id == schedule.id,
            r.recording_id == Some(recording_id),
            r.channel_name@ == schedule.channel_name@,
            r.program_title@ == schedule.program_title@,
            r.message is None,
    {
        RecordingEvent {
            event_type: String::from_str("completed"),
            schedule_id: schedule.id,
            recording_id: Some(recording_id),
            channel_name: schedule.channel_name.clone(),
            program_title: schedule.program_title.clone(),
            message: None,
        }
    }

    pub fn failed(schedule: &Schedule, error: String) -> (r: Self)
        ensures
            r.event_type@ == "failed"@,
            r.schedule_id == schedule.id,
            r.recording_id is None,
            r.channel_name@ == schedule.channel_name@,
            r.program_title@ == schedule.program_title@,
            r.message == Some(error),
    {
        RecordingEvent {
            event_type: String::from_str("failed"),
            schedule_id: schedule.id,
            recording_id: None,
            channel_name: schedule.channel_name.clone(),
            program_title: schedule.program_title.clone(),
            message: Some(error),
        }
    }
}

/// Progress snapshot of one active capture job.
#[derive(Debug)]
pub struct RecordingProgress {
    pub schedule_id: i64,
    pub recording_id: i64,
    pub channel_name: String,
    pub program_title: String,
    pub elapsed_seconds: i64,
    pub scheduled_duration: i64,
}

/// What the player is showing right now; recording from the same
/// limited-connection source would conflict with it.
#[derive(Debug)]
pub struct PlayingStream {
    pub source_id: Option<String>,
    pub channel_id: Option<String>,
    pub channel_name: Option<String>,
    pub stream_url: Option<String>,
    pub is_playing: bool,
}

impl Default for PlayingStream {
    fn default() -> (r: Self)
        ensures
            r.source_id is None,
            r.channel_id is None,
            r.channel_name is None,
            r.stream_url is None,
            r.is_playing == false,
    {
        PlayingStream {
            source_id: None,
            channel_id: None,
            channel_name: None,
            stream_url: None,
            is_playing: false,
        }
    }
}

} // verus!
