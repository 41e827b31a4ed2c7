//! Per-job capture supervision: capture timing, the command the engine is
//! invoked with, the classification of how a capture ended, and the
//! registry of jobs in flight.
//!
//! The surrounding application spawns the capture process, waits on it,
//! and hands the winning signal of the exit/cancel/timeout race back in;
//! every decision about what that signal means is made and proved here.

use vstd::prelude::*;
use vstd::string::{StrSliceExecFns, StringExecFns};

use crate::models::{RecordingStatus, Schedule, ScheduleStatus};
use crate::text::{dec_rep, dec_string, split_char, split_on_char};

verus! {

/// Seconds added to the capture duration before the watchdog gives up.
pub const WAIT_SAFETY_MARGIN_SEC: i64 = 300;

/// The watchdog never fires earlier than this, so a very short schedule
/// is not killed while the capture process initialises.
pub const WAIT_MINIMUM_SEC: i64 = 600;

/// How a supervised capture ended: the winning signal of the three-way
/// race.
#[derive(Debug, Clone, Copy, PartialEq, Eq, Structural)]
pub enum WaitOutcome {
    /// The process exited on its own; `success` is its exit status.
    Exited { success: bool },
    /// An explicit cancellation request won the race.
    CancelRequested,
    /// The watchdog timeout won the race.
    TimedOut,
}

/// Capture duration in seconds: the padded window
/// `(scheduled_end + end_padding) - (scheduled_start - start_padding)`.
pub fn compute_capture_duration(schedule: &Schedule) -> (r: i64)
    requires
        schedule.wf(),
    ensures
        r == schedule.spec_actual_end() - schedule.spec_actual_start(),
        r > 0,
{
    schedule.actual_end() - schedule.actual_start()
}

/// What the watchdog timeout must be for a capture of `duration`
/// seconds.
pub open spec fn spec_wait_timeout(duration: int) -> int {
    if duration + WAIT_SAFETY_MARGIN_SEC >= WAIT_MINIMUM_SEC {
        duration + WAIT_SAFETY_MARGIN_SEC
    } else {
        WAIT_MINIMUM_SEC as int
    }
}

/// Watchdog timeout: the duration plus a safety margin, never below the
/// fixed minimum bound.
pub fn compute_wait_timeout(duration: i64) -> (r: i64)
    requires
        0 <= duration <= 2 * crate::models::MAX_INSTANT,
    ensures
        r == spec_wait_timeout(duration as int),
{
    let padded = duration + WAIT_SAFETY_MARGIN_SEC;
    if padded >= WAIT_MINIMUM_SEC {
        padded
    } else {
        WAIT_MINIMUM_SEC
    }
}

/// The recording's terminal status for a given race outcome: a clean
/// exit completes it; any other ending is Partial when bytes reached the
/// disk and Failed when none did.
pub open spec fn spec_recording_outcome(outcome: WaitOutcome, bytes_on_disk: i64) -> RecordingStatus {
    match outcome {
        WaitOutcome::Exited { success: true } => RecordingStatus::Completed,
        _ => if bytes_on_disk > 0 {
            RecordingStatus::Partial
        } else {
            RecordingStatus::Failed
        },
    }
}

/// The schedule's terminal status for a given race outcome: Completed on
/// a clean exit, Canceled when cancellation won, Failed otherwise.
pub open spec fn spec_schedule_outcome(outcome: WaitOutcome) -> ScheduleStatus {
    match outcome {
        WaitOutcome::Exited { success: true } => ScheduleStatus::Completed,
        WaitOutcome::CancelRequested => ScheduleStatus::Canceled,
        _ => ScheduleStatus::Failed,
    }
}

/// Classifies how a capture ended into the terminal statuses of its
/// recording row and its schedule.
pub fn classify_outcome(outcome: WaitOutcome, bytes_on_disk: i64) -> (r: (
    RecordingStatus,
    ScheduleStatus,
))
    ensures
        r.0 == spec_recording_outcome(outcome, bytes_on_disk),
        r.1 == spec_schedule_outcome(outcome),
{
    let recording_status = match outcome {
        WaitOutcome::Exited { success: true } => RecordingStatus::Completed,
        _ => if bytes_on_disk > 0 {
            RecordingStatus::Partial
        } else {
            RecordingStatus::Failed
        },
    };
    let schedule_status = match outcome {
        WaitOutcome::Exited { success: true } => ScheduleStatus::Completed,
        WaitOutcome::CancelRequested => ScheduleStatus::Canceled,
        _ => ScheduleStatus::Failed,
    };
    (recording_status, schedule_status)
}

/// The last line of the diagnostic stream that holds any text.
pub open spec fn is_last_nonempty_line(lines: Seq<Seq<char>>, i: int) -> bool {
    &&& 0 <= i < lines.len()
    &&& lines[i].len() > 0
    &&& forall|j: int| i < j < lines.len() ==> (#[trigger] lines[j]).len() == 0
}

/// Picks the last non-empty line of a line-oriented diagnostic stream;
/// what the recording's error message is distilled from.
pub fn last_non_empty_line(diagnostics: &str) -> (r: Option<String>)
    ensures
        ({
            let lines = split_char(diagnostics@, '\n');
            match r {
                Some(line) => exists|i: int|
                    is_last_nonempty_line(lines, i) && line@ == lines[i],
                None => forall|j: int|
                    0 <= j < lines.len() ==> (#[trigger] lines[j]).len() == 0,
            }
        }),
{
    let parts = split_on_char(diagnostics, '\n');
    let ghost lines = parts@.map_values(|p: String| p@);
    let n = parts.len();
    let mut i: usize = n;
    while i > 0
        invariant
            lines == parts@.map_values(|p: String| p@),
            lines == split_char(diagnostics@, '\n'),
            n == lines.len(),
            n == parts@.len(),
            i <= n,
            forall|j: int| i <= j < n ==> (#[trigger] lines[j]).len() == 0,
        decreases i,
    {
        i -= 1;
        if parts[i].unicode_len() > 0 {
            let line = parts[i].clone();
            proof {
                assert(lines == split_char(diagnostics@, '\n'));
                assert(lines[i as int] == parts@[i as int]@);
                assert(line@ == split_char(diagnostics@, '\n')[i as int]);
                assert(is_last_nonempty_line(split_char(diagnostics@, '\n'), i as int));
            }
            return Some(line);
        }
    }
    None
}

/// The exact argument list the capture engine is invoked with: for live
/// HTTP-segment streams, start at the live edge without connection
/// reuse; then the stall timeout, the input, stream copy without
/// re-encoding, the bounded duration, immediate packet flush, and
/// overwrite of the output path.
pub open spec fn spec_capture_args(
    stream_url: Seq<char>,
    duration_secs: int,
    output_path: Seq<char>,
    is_hls: bool,
) -> Seq<Seq<char>> {
    let head = if is_hls {
        seq!["-live_start_index"@, "-1"@, "-http_persistent"@, "0"@]
    } else {
        Seq::<Seq<char>>::empty()
    };
    head + seq![
        "-timeout"@,
        "30000000"@,
        "-i"@,
        stream_url,
        "-c"@,
        "copy"@,
        "-t"@,
        dec_rep(duration_secs),
        "-fflags"@,
        "+flush_packets"@,
        "-y"@,
        output_path,
    ]
}

/// Builds the capture engine's argument list.
pub fn build_capture_args(
    stream_url: &str,
    duration_secs: i64,
    output_path: &str,
    is_hls: bool,
) -> (r: Vec<String>)
    requires
        0 <= duration_secs,
    ensures
        r@.map_values(|a: String| a@) == spec_capture_args(
            stream_url@,
            duration_secs as int,
            output_path@,
            is_hls,
        ),
{
    let mut args: Vec<String> = Vec::new();
    if is_hls {
        args.push(String::from_str("-live_start_index"));
        args.push(String::from_str("-1"));
        args.push(String::from_str("-http_persistent"));
        args.push(String::from_str("0"));
    }
    args.push(String::from_str("-timeout"));
    args.push(String::from_str("30000000"));
    args.push(String::from_str("-i"));
    args.push(String::from_str(stream_url));
    args.push(String::from_str("-c"));
    args.push(String::from_str("copy"));
    args.push(String::from_str("-t"));
    args.push(dec_string(duration_secs as u64));
    args.push(String::from_str("-fflags"));
    args.push(String::from_str("+flush_packets"));
    args.push(String::from_str("-y"));
    args.push(String::from_str(output_path));
    proof {
        assert(args@.map_values(|a: String| a@) =~= spec_capture_args(
            stream_url@,
            duration_secs as int,
            output_path@,
            is_hls,
        ));
    }
    args
}

/// A character as it may appear in a file name: path separators and
/// other reserved characters are replaced with an underscore.
pub open spec fn spec_safe_char(c: char) -> char {
    if c == '<' || c == '>' || c == ':' || c == '"' || c == '/' || c == '\\' || c == '|' || c
        == '?' || c == '*' {
        '_'
    } else {
        c
    }
}

/// The first `k` characters, made file-name safe.
pub open spec fn spec_sanitized(s: Seq<char>, k: int) -> Seq<char> {
    (if s.len() <= k {
        s
    } else {
        s.subrange(0, k)
    }).map_values(|c: char| spec_safe_char(c))
}

fn safe_char(c: char) -> (r: char)
    ensures
        r == spec_safe_char(c),
{
    match c {
        '<' | '>' | ':' | '"' | '/' | '\\' | '|' | '?' | '*' => '_',
        _ => c,
    }
}

/// Keeps the first `k` characters of a name, replacing characters that
/// file systems reserve.
fn sanitize_take(s: &str, k: usize) -> (r: String)
    ensures
        r@ == spec_sanitized(s@, k as int),
{
    let n = s.unicode_len();
    let limit = if n <= k {
        n
    } else {
        k
    };
    let mut out = String::new();
    let mut i: usize = 0;
    proof {
        assert(out@ =~= s@.subrange(0, 0).map_values(|c: char| spec_safe_char(c)));
    }
    while i < limit
        invariant
            n == s@.len(),
            limit <= n,
            limit == (if n <= k {
                n as int
            } else {
                k as int
            }),
            i <= limit,
            out@ == s@.subrange(0, i as int).map_values(|c: char| spec_safe_char(c)),
        decreases limit - i,
    {
        let c = s.get_char(i);
        out.push(safe_char(c));
        proof {
            assert(out@ =~= s@.subrange(0, i as int + 1).map_values(|c: char| spec_safe_char(c)));
        }
        i += 1;
    }
    proof {
        if n <= k {
            assert(s@.subrange(0, limit as int) =~= s@);
        }
    }
    out
}

/// The label a capture file's name carries for an instant.
pub uninterp spec fn timestamp_label_of(ts: i64) -> Seq<char>;

/// Relies on chrono's `DateTime::from_timestamp` and strftime-style
/// formatting for the calendar arithmetic: the label is a pure function
/// of the instant (UTC, locale-independent), year down to second
/// separated so it is safe in a file name, or `unknown` for an instant
/// chrono cannot represent.
#[verifier::external_body]
fn timestamp_label(ts: i64) -> (r: String)
    ensures
        r@ == timestamp_label_of(ts),
{
    match chrono::DateTime::from_timestamp(ts, 0) {
        Some(dt) => dt.format("%Y-%m-%dT%H-%M-%S").to_string(),
        None => "unknown".to_string(),
    }
}

/// The capture file's name: the start instant's label, the channel name
/// cut to 30 safe characters, the title cut to 50, and the stream-copy
/// container extension.
pub open spec fn spec_filename(s: Schedule) -> Seq<char> {
    timestamp_label_of(s.scheduled_start) + "_"@ + spec_sanitized(s.channel_name@, 30) + "_"@
        + spec_sanitized(s.program_title@, 50) + ".ts"@
}

/// Names the file a schedule's capture is written to.
pub fn generate_filename(schedule: &Schedule) -> (r: String)
    ensures
        r@ == spec_filename(*schedule),
{
    let mut out = timestamp_label(schedule.scheduled_start);
    out.append("_");
    let channel = sanitize_take(schedule.channel_name.as_str(), 30);
    out.append(channel.as_str());
    out.append("_");
    let title = sanitize_take(schedule.program_title.as_str(), 50);
    out.append(title.as_str());
    out.append(".ts");
    proof {
        assert(out@ =~= spec_filename(*schedule));
    }
    out
}

/// Names the preview image of a recording: its id with the image
/// extension.
pub fn thumbnail_filename(recording_id: i64) -> (r: String)
    requires
        0 <= recording_id,
    ensures
        r@ == dec_rep(recording_id as int) + ".jpg"@,
{
    let mut out = dec_string(recording_id as u64);
    out.append(".jpg");
    out
}

/// The argument list the frame extractor is invoked with: seek to the
/// fixed offset, read the capture file, extract a single high-quality
/// frame, and overwrite the preview path.
pub open spec fn spec_thumbnail_args(video_path: Seq<char>, thumbnail_path: Seq<char>) -> Seq<
    Seq<char>,
> {
    seq![
        "-ss"@,
        "5"@,
        "-i"@,
        video_path,
        "-vframes"@,
        "1"@,
        "-q:v"@,
        "2"@,
        "-y"@,
        thumbnail_path,
    ]
}

/// Builds the frame extractor's argument list.
pub fn build_thumbnail_args(video_path: &str, thumbnail_path: &str) -> (r: Vec<String>)
    ensures
        r@.map_values(|a: String| a@) == spec_thumbnail_args(video_path@, thumbnail_path@),
{
    let mut args: Vec<String> = Vec::new();
    args.push(String::from_str("-ss"));
    args.push(String::from_str("5"));
    args.push(String::from_str("-i"));
    args.push(String::from_str(video_path));
    args.push(String::from_str("-vframes"));
    args.push(String::from_str("1"));
    args.push(String::from_str("-q:v"));
    args.push(String::from_str("2"));
    args.push(String::from_str("-y"));
    args.push(String::from_str(thumbnail_path));
    proof {
        assert(args@.map_values(|a: String| a@) =~= spec_thumbnail_args(
            video_path@,
            thumbnail_path@,
        ));
    }
    args
}

/// Where capture files are written: the configured storage path, or the
/// given default when none is configured.
pub fn choose_storage_path(settings: &crate::models::DvrSettings, default_path: &str) -> (r:
    String)
    ensures
        r@ == (if settings.storage_path@.len() == 0 {
            default_path@
        } else {
            settings.storage_path@
        }),
{
    if settings.storage_path.as_str().unicode_len() == 0 {
        String::from_str(default_path)
    } else {
        settings.storage_path.clone()
    }
}

/// Whether a schedule's URL must be re-resolved moments before capture:
/// its pre-resolved URL is an HTTP-segment playlist, or its channel's
/// stored URL marks a session-token source.
pub open spec fn spec_needs_url_resolution(s: Schedule, chans: Seq<crate::store::ChannelUrl>) -> bool {
    ||| (s.stream_url is Some && crate::text::contains_sub(s.stream_url->0@, ".m3u8"@))
    ||| (crate::store::has_channel(chans, s.channel_id@) && crate::text::has_prefix(
        crate::store::channel_by_id(chans, s.channel_id@).direct_url@,
        "stalker_"@,
    ))
}

/// Decides whether capture must wait for a fresh URL resolution.
pub fn needs_url_resolution(schedule: &Schedule, store: &crate::store::ScheduleStore) -> (r: bool)
    requires
        store.wf(),
    ensures
        r == spec_needs_url_resolution(*schedule, store.channels()),
{
    let is_hls = match &schedule.stream_url {
        Some(url) => crate::text::str_contains_sub(url.as_str(), ".m3u8"),
        None => false,
    };
    if is_hls {
        return true;
    }
    match store.get_stored_url(schedule.channel_id.as_str()) {
        Some(url) => crate::text::str_starts_with(url.as_str(), "stalker_"),
        None => false,
    }
}

/// Why the registry refused an operation.
#[derive(Debug, Clone, Copy, PartialEq, Eq, Structural)]
pub enum SupervisorError {
    /// The schedule already has a job in the registry.
    AlreadyActive,
}

/// One capture job in flight: what the supervisor needs to stop it,
/// classify it, and report progress. The process handle is an opaque
/// token the application maps to the real child process; it is taken
/// out exactly once (take-and-clear), never read in place.
#[derive(Debug)]
pub struct ActiveJob {
    pub schedule_id: i64,
    pub recording_id: i64,
    pub channel_name: String,
    pub program_title: String,
    pub scheduled_start: i64,
    pub scheduled_end: i64,
    /// Monotonic instant (seconds) the capture started at.
    pub started_instant: i64,
    /// Token of the capture process, until taken for the kill.
    pub process: Option<u64>,
    /// Set by the first cancellation request; later requests are no-ops.
    pub cancel_requested: bool,
}

impl ActiveJob {
    pub open spec fn wf(self) -> bool {
        &&& 0 <= self.scheduled_start <= self.scheduled_end <= crate::models::MAX_INSTANT
        &&& 0 <= self.started_instant <= crate::models::MAX_INSTANT
    }
}

impl Clone for ActiveJob {
    fn clone(&self) -> (r: Self)
        ensures
            r == *self,
    {
        ActiveJob {
            schedule_id: self.schedule_id,
            recording_id: self.recording_id,
            channel_name: self.channel_name.clone(),
            program_title: self.program_title.clone(),
            scheduled_start: self.scheduled_start,
            scheduled_end: self.scheduled_end,
            started_instant: self.started_instant,
            process: self.process,
            cancel_requested: self.cancel_requested,
        }
    }
}

pub open spec fn job_ids_unique(s: Seq<ActiveJob>) -> bool {
    forall|i: int, j: int|
        0 <= i < s.len() && 0 <= j < s.len() && i != j ==> #[trigger] s[i].schedule_id
            != #[trigger] s[j].schedule_id
}

pub open spec fn jobs_wf(s: Seq<ActiveJob>) -> bool {
    forall|i: int| 0 <= i < s.len() ==> (#[trigger] s[i]).wf()
}

pub open spec fn has_job(s: Seq<ActiveJob>, schedule_id: i64) -> bool {
    exists|i: int| 0 <= i < s.len() && #[trigger] s[i].schedule_id == schedule_id
}

pub open spec fn job_by_id(s: Seq<ActiveJob>, schedule_id: i64) -> ActiveJob {
    s[choose|i: int| 0 <= i < s.len() && #[trigger] s[i].schedule_id == schedule_id]
}

pub proof fn lemma_job_by_id_is(s: Seq<ActiveJob>, i: int)
    requires
        job_ids_unique(s),
        0 <= i < s.len(),
    ensures
        has_job(s, s[i].schedule_id),
        job_by_id(s, s[i].schedule_id) == s[i],
{
    let id = s[i].schedule_id;
    assert(0 <= i < s.len() && s[i].schedule_id == id);
    let j = choose|j: int| 0 <= j < s.len() && #[trigger] s[j].schedule_id == id;
    if j != i {
        assert(s[i].schedule_id != s[j].schedule_id);
    }
}

/// A job once a stop has gone through it: cancellation signalled and the
/// process token gone.
pub open spec fn stopped_job(j: ActiveJob) -> ActiveJob {
    ActiveJob { process: None, cancel_requested: true, ..j }
}

/// The registry after a stop of one schedule's job.
pub open spec fn spec_stop_jobs(s: Seq<ActiveJob>, schedule_id: i64) -> Seq<ActiveJob> {
    s.map_values(
        |j: ActiveJob|
            if j.schedule_id == schedule_id {
                stopped_job(j)
            } else {
                j
            },
    )
}

/// The registry after a stop of every job.
pub open spec fn spec_stop_all_jobs(s: Seq<ActiveJob>) -> Seq<ActiveJob> {
    s.map_values(|j: ActiveJob| stopped_job(j))
}

/// Stopping a job twice kills at most once: after one stop the job holds
/// no process token, so nothing is left for a second stop to kill, and
/// the second stop is a no-op rather than an error.
pub proof fn lemma_stop_twice_no_double_kill(jobs: Seq<ActiveJob>, schedule_id: i64)
    requires
        job_ids_unique(jobs),
    ensures
        job_ids_unique(spec_stop_jobs(jobs, schedule_id)),
        has_job(spec_stop_jobs(jobs, schedule_id), schedule_id) ==> job_by_id(
            spec_stop_jobs(jobs, schedule_id),
            schedule_id,
        ).process is None,
        spec_stop_jobs(spec_stop_jobs(jobs, schedule_id), schedule_id) == spec_stop_jobs(
            jobs,
            schedule_id,
        ),
{
    let once = spec_stop_jobs(jobs, schedule_id);
    assert forall|i: int, j: int|
        0 <= i < once.len() && 0 <= j < once.len() && i != j implies #[trigger] once[i].schedule_id
        != #[trigger] once[j].schedule_id by {
        assert(jobs[i].schedule_id != jobs[j].schedule_id);
    }
    if has_job(once, schedule_id) {
        let w = choose|w: int| 0 <= w < once.len() && #[trigger] once[w].schedule_id == schedule_id;
        lemma_job_by_id_is(once, w);
        assert(jobs[w].schedule_id == schedule_id);
        assert(once[w] == stopped_job(jobs[w]));
    }
    assert(spec_stop_jobs(once, schedule_id) =~= once);
}

/// The jobs in flight, keyed by schedule id; the application holds one
/// registry per supervisor behind its own lock.
pub struct JobRegistry {
    jobs: Vec<ActiveJob>,
}

impl JobRegistry {
    pub closed spec fn jobs(self) -> Seq<ActiveJob> {
        self.jobs@
    }

    pub open spec fn wf(self) -> bool {
        job_ids_unique(self.jobs()) && jobs_wf(self.jobs())
    }

    /// An empty registry.
    pub fn new() -> (r: Self)
        ensures
            r.wf(),
            r.jobs() == Seq::<ActiveJob>::empty(),
    {
        let r = JobRegistry { jobs: Vec::new() };
        proof {
            assert(r.jobs() =~= Seq::<ActiveJob>::empty());
        }
        r
    }

    /// Admits a job; refused while the schedule already has one, so no
    /// schedule ever runs two captures at once.
    pub fn register(&mut self, job: ActiveJob) -> (r: Result<(), SupervisorError>)
        requires
            old(self).wf(),
            job.wf(),
        ensures
            final(self).wf(),
            has_job(old(self).jobs(), job.schedule_id) ==> r == Err::<(), SupervisorError>(
                SupervisorError::AlreadyActive,
            ) && *final(self) == *old(self),
            !has_job(old(self).jobs(), job.schedule_id) ==> r == Ok::<(), SupervisorError>(())
                && final(self).jobs() == old(self).jobs().push(job),
    {
        let n = self.jobs.len();
        let mut i: usize = 0;
        while i < n
            invariant
                self.wf(),
                n == self.jobs().len(),
                i <= n,
                forall|j: int| 0 <= j < i ==> #[trigger] self.jobs()[j].schedule_id != job.schedule_id,
            decreases n - i,
        {
            if self.jobs[i].schedule_id == job.schedule_id {
                return Err(SupervisorError::AlreadyActive);
            }
            i += 1;
        }
        let ghost old_jobs = self.jobs();
        self.jobs.push(job);
        proof {
            let s = self.jobs();
            assert forall|a: int, b: int|
                0 <= a < s.len() && 0 <= b < s.len() && a != b implies #[trigger] s[a].schedule_id
                != #[trigger] s[b].schedule_id by {
                if a < old_jobs.len() && b < old_jobs.len() {
                    assert(old_jobs[a].schedule_id != old_jobs[b].schedule_id);
                } else if a < old_jobs.len() {
                    assert(old_jobs[a].schedule_id != job.schedule_id);
                } else {
                    assert(old_jobs[b].schedule_id != job.schedule_id);
                }
            }
            assert forall|a: int| 0 <= a < s.len() implies (#[trigger] s[a]).wf() by {
                if a < old_jobs.len() {
                    assert(old_jobs[a].wf());
                }
            }
        }
        Ok(())
    }

    /// Signals cancellation for one job; returns whether this call was
    /// the first to signal it, so exactly one caller triggers the forced
    /// kill.
    pub fn request_cancel(&mut self, schedule_id: i64) -> (r: bool)
        requires
            old(self).wf(),
        ensures
            final(self).wf(),
            r == (has_job(old(self).jobs(), schedule_id) && !job_by_id(
                old(self).jobs(),
                schedule_id,
            ).cancel_requested),
            final(self).jobs().len() == old(self).jobs().len(),
            forall|i: int|
                0 <= i < old(self).jobs().len() ==> final(self).jobs()[i] == (
                if old(self).jobs()[i].schedule_id == schedule_id {
                    ActiveJob { cancel_requested: true, ..old(self).jobs()[i] }
                } else {
                    old(self).jobs()[i]
                }),
    {
        let n = self.jobs.len();
        let mut i: usize = 0;
        while i < n
            invariant
                *self == *old(self),
                self.wf(),
                n == self.jobs().len(),
                i <= n,
                forall|j: int| 0 <= j < i ==> #[trigger] self.jobs()[j].schedule_id != schedule_id,
            decreases n - i,
        {
            if self.jobs[i].schedule_id == schedule_id {
                proof {
                    lemma_job_by_id_is(self.jobs(), i as int);
                }
                let was_requested = self.jobs[i].cancel_requested;
                let updated = ActiveJob { cancel_requested: true, ..self.jobs[i].clone() };
                let ghost olds = self.jobs();
                self.jobs.set(i, updated);
                proof {
                    let s = self.jobs();
                    assert forall|a: int, b: int|
                        0 <= a < s.len() && 0 <= b < s.len() && a != b implies #[trigger] s[a].schedule_id
                        != #[trigger] s[b].schedule_id by {
                        assert(olds[a].schedule_id != olds[b].schedule_id);
                        assert(s[a].schedule_id == olds[a].schedule_id && s[b].schedule_id
                            == olds[b].schedule_id);
                    }
                    assert forall|a: int| 0 <= a < s.len() implies (#[trigger] s[a]).wf() by {
                        assert(olds[a].wf());
                    }
                    assert forall|a: int|
                        0 <= a < olds.len() implies s[a] == (if olds[a].schedule_id == schedule_id {
                        ActiveJob { cancel_requested: true, ..olds[a] }
                    } else {
                        olds[a]
                    }) by {
                        if a != i {
                            assert(olds[a].schedule_id != olds[i as int].schedule_id);
                        }
                    }
                }
                return !was_requested;
            }
            i += 1;
        }
        false
    }

    /// Takes the job's process token for killing; the token is cleared
    /// so no second caller can reach the same process.
    pub fn take_process(&mut self, schedule_id: i64) -> (r: Option<u64>)
        requires
            old(self).wf(),
        ensures
            final(self).wf(),
            r == (if has_job(old(self).jobs(), schedule_id) {
                job_by_id(old(self).jobs(), schedule_id).process
            } else {
                None
            }),
            final(self).jobs().len() == old(self).jobs().len(),
            forall|i: int|
                0 <= i < old(self).jobs().len() ==> final(self).jobs()[i] == (
                if old(self).jobs()[i].schedule_id == schedule_id {
                    ActiveJob { process: None, ..old(self).jobs()[i] }
                } else {
                    old(self).jobs()[i]
                }),
    {
        let n = self.jobs.len();
        let mut i: usize = 0;
        while i < n
            invariant
                *self == *old(self),
                self.wf(),
                n == self.jobs().len(),
                i <= n,
                forall|j: int| 0 <= j < i ==> #[trigger] self.jobs()[j].schedule_id != schedule_id,
            decreases n - i,
        {
            if self.jobs[i].schedule_id == schedule_id {
                proof {
                    lemma_job_by_id_is(self.jobs(), i as int);
                }
                let token = self.jobs[i].process;
                let updated = ActiveJob { process: None, ..self.jobs[i].clone() };
                let ghost olds = self.jobs();
                self.jobs.set(i, updated);
                proof {
                    let s = self.jobs();
                    assert forall|a: int, b: int|
                        0 <= a < s.len() && 0 <= b < s.len() && a != b implies #[trigger] s[a].schedule_id
                        != #[trigger] s[b].schedule_id by {
                        assert(olds[a].schedule_id != olds[b].schedule_id);
                        assert(s[a].schedule_id == olds[a].schedule_id && s[b].schedule_id
                            == olds[b].schedule_id);
                    }
                    assert forall|a: int| 0 <= a < s.len() implies (#[trigger] s[a]).wf() by {
                        assert(olds[a].wf());
                    }
                    assert forall|a: int|
                        0 <= a < olds.len() implies s[a] == (if olds[a].schedule_id == schedule_id {
                        ActiveJob { process: None, ..olds[a] }
                    } else {
                        olds[a]
                    }) by {
                        if a != i {
                            assert(olds[a].schedule_id != olds[i as int].schedule_id);
                        }
                    }
                }
                return token;
            }
            i += 1;
        }
        None
    }

    /// Stops one job: signals cancellation and takes the process token
    /// in a single step. Returns the token to kill, if the job still
    /// held one; a repeated or late call finds nothing and is a no-op.
    pub fn stop_recording(&mut self, schedule_id: i64) -> (r: Option<u64>)
        requires
            old(self).wf(),
        ensures
            final(self).wf(),
            r == (if has_job(old(self).jobs(), schedule_id) {
                job_by_id(old(self).jobs(), schedule_id).process
            } else {
                None
            }),
            final(self).jobs() == spec_stop_jobs(old(self).jobs(), schedule_id),
    {
        let n = self.jobs.len();
        let mut i: usize = 0;
        while i < n
            invariant
                *self == *old(self),
                self.wf(),
                n == self.jobs().len(),
                i <= n,
                forall|j: int| 0 <= j < i ==> #[trigger] self.jobs()[j].schedule_id != schedule_id,
            decreases n - i,
        {
            if self.jobs[i].schedule_id == schedule_id {
                proof {
                    lemma_job_by_id_is(self.jobs(), i as int);
                }
                let token = self.jobs[i].process;
                let updated = ActiveJob {
                    process: None,
                    cancel_requested: true,
                    ..self.jobs[i].clone()
                };
                let ghost olds = self.jobs();
                self.jobs.set(i, updated);
                proof {
                    let s = self.jobs();
                    assert forall|a: int, b: int|
                        0 <= a < s.len() && 0 <= b < s.len() && a != b implies #[trigger] s[a].schedule_id
                        != #[trigger] s[b].schedule_id by {
                        assert(olds[a].schedule_id != olds[b].schedule_id);
                        assert(s[a].schedule_id == olds[a].schedule_id && s[b].schedule_id
                            == olds[b].schedule_id);
                    }
                    assert forall|a: int| 0 <= a < s.len() implies (#[trigger] s[a]).wf() by {
                        assert(olds[a].wf());
                    }
                    assert forall|a: int|
                        0 <= a < olds.len() implies s[a] == spec_stop_jobs(olds, schedule_id)[a] by {
                        if a != i {
                            assert(olds[a].schedule_id != olds[i as int].schedule_id);
                        }
                    }
                    assert(s =~= spec_stop_jobs(olds, schedule_id));
                }
                return token;
            }
            i += 1;
        }
        proof {
            assert forall|a: int|
                0 <= a < self.jobs().len() implies self.jobs()[a] == spec_stop_jobs(
                self.jobs(),
                schedule_id,
            )[a] by {
                assert(self.jobs()[a].schedule_id != schedule_id);
            }
            assert(self.jobs() =~= spec_stop_jobs(self.jobs(), schedule_id));
        }
        None
    }

    /// Stops every job: signals cancellation on all of them and takes
    /// every process token. Returns each job's schedule id with the
    /// token to kill, in registry order, for the jobs that still held
    /// one.
    pub fn stop_all(&mut self) -> (r: Vec<(i64, u64)>)
        requires
            old(self).wf(),
        ensures
            final(self).wf(),
            final(self).jobs() == spec_stop_all_jobs(old(self).jobs()),
            r@ == old(self).jobs().filter(|j: ActiveJob| j.process is Some).map_values(
                |j: ActiveJob| (j.schedule_id, j.process->0),
            ),
    {
        let ghost pred = |j: ActiveJob| j.process is Some;
        let ghost f = |j: ActiveJob| (j.schedule_id, j.process->0);
        let n = self.jobs.len();
        let mut kills: Vec<(i64, u64)> = Vec::new();
        let mut i: usize = 0;
        proof {
            assert(old(self).jobs().subrange(0, 0).filter(pred) =~= Seq::<ActiveJob>::empty());
            assert(kills@ =~= old(self).jobs().subrange(0, 0).filter(pred).map_values(f));
        }
        while i < n
            invariant
                self.wf(),
                n == self.jobs().len(),
                n == old(self).jobs().len(),
                i <= n,
                pred == (|j: ActiveJob| j.process is Some),
                f == (|j: ActiveJob| (j.schedule_id, j.process->0)),
                forall|j: int| 0 <= j < i ==> self.jobs()[j] == stopped_job(#[trigger] old(self).jobs()[j]),
                forall|j: int| i <= j < n ==> self.jobs()[j] == #[trigger] old(self).jobs()[j],
                kills@ == old(self).jobs().subrange(0, i as int).filter(pred).map_values(f),
            decreases n - i,
        {
            let ghost prefix = old(self).jobs().subrange(0, i as int);
            proof {
                assert(old(self).jobs().subrange(0, i as int + 1) =~= prefix.push(
                    old(self).jobs()[i as int],
                ));
                crate::store::lemma_filter_push(prefix, pred, old(self).jobs()[i as int]);
            }
            let token = self.jobs[i].process;
            let updated = ActiveJob {
                process: None,
                cancel_requested: true,
                ..self.jobs[i].clone()
            };
            let ghost olds = self.jobs();
            self.jobs.set(i, updated);
            proof {
                let s = self.jobs();
                assert forall|a: int, b: int|
                    0 <= a < s.len() && 0 <= b < s.len() && a != b implies #[trigger] s[a].schedule_id
                    != #[trigger] s[b].schedule_id by {
                    assert(olds[a].schedule_id != olds[b].schedule_id);
                    assert(s[a].schedule_id == olds[a].schedule_id && s[b].schedule_id
                        == olds[b].schedule_id);
                }
                assert forall|a: int| 0 <= a < s.len() implies (#[trigger] s[a]).wf() by {
                    assert(olds[a].wf());
                }
            }
            match token {
                Some(t) => {
                    kills.push((self.jobs[i].schedule_id, t));
                    proof {
                        let fp = prefix.filter(pred);
                        assert(old(self).jobs().subrange(0, i as int + 1).filter(pred) == fp.push(
                            old(self).jobs()[i as int],
                        ));
                        assert(kills@ =~= fp.push(old(self).jobs()[i as int]).map_values(f));
                    }
                },
                None => {
                    proof {
                        assert(old(self).jobs().subrange(0, i as int + 1).filter(pred)
                            == prefix.filter(pred));
                    }
                },
            }
            i += 1;
        }
        proof {
            assert(old(self).jobs().subrange(0, n as int) =~= old(self).jobs());
            assert(self.jobs() =~= spec_stop_all_jobs(old(self).jobs()));
        }
        kills
    }

    /// Removes a finished job from the registry; safe to race with a
    /// concurrent stop, which finds no process left to kill.
    pub fn deregister(&mut self, schedule_id: i64) -> (r: Option<ActiveJob>)
        requires
            old(self).wf(),
        ensures
            final(self).wf(),
            !has_job(old(self).jobs(), schedule_id) ==> r is None && *final(self) == *old(self),
            has_job(old(self).jobs(), schedule_id) ==> {
                &&& r == Some(job_by_id(old(self).jobs(), schedule_id))
                &&& final(self).jobs().len() == old(self).jobs().len() - 1
                &&& final(self).jobs().to_multiset() == old(self).jobs().to_multiset().remove(
                    job_by_id(old(self).jobs(), schedule_id),
                )
                &&& !has_job(final(self).jobs(), schedule_id)
            },
    {
        let n = self.jobs.len();
        let mut i: usize = 0;
        while i < n
            invariant
                *self == *old(self),
                self.wf(),
                n == self.jobs().len(),
                i <= n,
                forall|j: int| 0 <= j < i ==> #[trigger] self.jobs()[j].schedule_id != schedule_id,
            decreases n - i,
        {
            if self.jobs[i].schedule_id == schedule_id {
                proof {
                    lemma_job_by_id_is(self.jobs(), i as int);
                }
                let ghost olds = self.jobs();
                let job = self.jobs.remove(i);
                proof {
                    vstd::seq_lib::to_multiset_remove(olds, i as int);
                    let s = self.jobs();
                    assert(forall|j: int|
                        0 <= j < s.len() ==> #[trigger] s[j] == (if j < i {
                            olds[j]
                        } else {
                            olds[j + 1]
                        }));
                    assert forall|a: int, b: int|
                        0 <= a < s.len() && 0 <= b < s.len() && a != b implies #[trigger] s[a].schedule_id
                        != #[trigger] s[b].schedule_id by {
                        let a0 = if a < i {
                            a
                        } else {
                            a + 1
                        };
                        let b0 = if b < i {
                            b
                        } else {
                            b + 1
                        };
                        assert(olds[a0].schedule_id != olds[b0].schedule_id);
                    }
                    assert forall|a: int| 0 <= a < s.len() implies (#[trigger] s[a]).wf() by {
                        let a0 = if a < i {
                            a
                        } else {
                            a + 1
                        };
                        assert(olds[a0].wf());
                    }
                    assert forall|a: int|
                        0 <= a < s.len() implies #[trigger] s[a].schedule_id != schedule_id by {
                        let a0 = if a < i {
                            a
                        } else {
                            a + 1
                        };
                        assert(olds[a0].schedule_id != olds[i as int].schedule_id);
                    }
                }
                return Some(job);
            }
            i += 1;
        }
        None
    }

    /// A progress snapshot of one job at the given monotonic instant.
    pub open spec fn spec_progress(j: ActiveJob, now_instant: i64) -> crate::models::RecordingProgress {
        crate::models::RecordingProgress {
            schedule_id: j.schedule_id,
            recording_id: j.recording_id,
            channel_name: j.channel_name,
            program_title: j.program_title,
            elapsed_seconds: (now_instant - j.started_instant) as i64,
            scheduled_duration: (j.scheduled_end - j.scheduled_start) as i64,
        }
    }

    /// Progress of every job in flight at the given monotonic instant.
    pub fn active_progress(&self, now_instant: i64) -> (r: Vec<crate::models::RecordingProgress>)
        requires
            self.wf(),
            0 <= now_instant <= crate::models::MAX_INSTANT,
        ensures
            r@.len() == self.jobs().len(),
            forall|i: int|
                0 <= i < self.jobs().len() ==> r@[i] == Self::spec_progress(
                    #[trigger] self.jobs()[i],
                    now_instant,
                ),
    {
        let n = self.jobs.len();
        let mut out: Vec<crate::models::RecordingProgress> = Vec::new();
        let mut i: usize = 0;
        while i < n
            invariant
                self.wf(),
                0 <= now_instant <= crate::models::MAX_INSTANT,
                n == self.jobs().len(),
                i <= n,
                out@.len() == i,
                forall|j: int|
                    0 <= j < i ==> out@[j] == Self::spec_progress(
                        #[trigger] self.jobs()[j],
                        now_instant,
                    ),
            decreases n - i,
        {
            let job = &self.jobs[i];
            proof {
                assert(self.jobs()[i as int].wf());
            }
            out.push(
                crate::models::RecordingProgress {
                    schedule_id: job.schedule_id,
                    recording_id: job.recording_id,
                    channel_name: job.channel_name.clone(),
                    program_title: job.program_title.clone(),
                    elapsed_seconds: now_instant - job.started_instant,
                    scheduled_duration: job.scheduled_end - job.scheduled_start,
                },
            );
            i += 1;
        }
        out
    }
}

/// What the human-readable reason for a failed capture must say:
/// fixed texts for a cancellation or a watchdog kill, and the last
/// non-empty diagnostic line (or a fixed fallback) for a process error.
pub open spec fn spec_failure_reason_matches(
    outcome: WaitOutcome,
    diagnostics: Seq<char>,
    msg: Seq<char>,
) -> bool {
    match outcome {
        WaitOutcome::CancelRequested => msg == "recording canceled"@,
        WaitOutcome::TimedOut => msg == "recording timed out"@,
        WaitOutcome::Exited { success } => !success && {
            let lines = split_char(diagnostics, '\n');
            ||| (exists|i: int| is_last_nonempty_line(lines, i) && msg == lines[i])
            ||| ((forall|j: int| 0 <= j < lines.len() ==> (#[trigger] lines[j]).len() == 0) && msg
                == "capture process failed"@)
        },
    }
}

/// Distills the reason a capture did not complete.
pub fn failure_reason(outcome: WaitOutcome, diagnostics: &str) -> (r: String)
    requires
        outcome != (WaitOutcome::Exited { success: true }),
    ensures
        spec_failure_reason_matches(outcome, diagnostics@, r@),
{
    match outcome {
        WaitOutcome::CancelRequested => String::from_str("recording canceled"),
        WaitOutcome::TimedOut => String::from_str("recording timed out"),
        WaitOutcome::Exited { success: _ } => {
            match last_non_empty_line(diagnostics) {
                Some(line) => line,
                None => String::from_str("capture process failed"),
            }
        },
    }
}

/// Settles a finished capture in one step: classifies the race outcome,
/// updates the recording row (status, measured size, distilled reason,
/// end instant) and the schedule's status, removes the job from the
/// registry, and hands back the single lifecycle event to emit — one
/// event for the one transition, never a second completion for the same
/// job.
pub fn finish_recording(
    store: &mut crate::store::ScheduleStore,
    registry: &mut JobRegistry,
    schedule: &Schedule,
    recording_id: i64,
    outcome: WaitOutcome,
    bytes_on_disk: i64,
    diagnostics: &str,
    now: i64,
) -> (r: Result<crate::models::RecordingEvent, crate::store::StoreError>)
    requires
        old(store).wf(),
        old(registry).wf(),
        0 <= bytes_on_disk,
        0 <= now <= crate::models::MAX_INSTANT,
    ensures
        final(store).wf(),
        final(registry).wf(),
        ({
            let old_recs = old(store).recordings();
            let old_scheds = old(store).schedules();
            let rs = spec_recording_outcome(outcome, bytes_on_disk);
            let ss = spec_schedule_outcome(outcome);
            let rec_fail = !crate::store::has_recording(old_recs, recording_id)
                || !crate::models::recording_transition_ok(
                crate::store::recording_by_id(old_recs, recording_id).status,
                rs,
            );
            let sched_fail = !crate::store::has_schedule(old_scheds, schedule.id)
                || !crate::models::schedule_transition_ok(
                crate::store::schedule_by_id(old_scheds, schedule.id).status,
                ss,
            );
            &&& (rec_fail ==> r is Err && *final(store) == *old(store) && *final(registry)
                == *old(registry))
            &&& (!crate::store::has_recording(old_recs, recording_id) ==> r == Err::<
                crate::models::RecordingEvent,
                crate::store::StoreError,
            >(crate::store::StoreError::NotFound))
            &&& (crate::store::has_recording(old_recs, recording_id)
                && !crate::models::recording_transition_ok(
                crate::store::recording_by_id(old_recs, recording_id).status,
                rs,
            ) ==> r == Err::<crate::models::RecordingEvent, crate::store::StoreError>(
                crate::store::StoreError::InvalidTransition,
            ))
            &&& (!rec_fail && !crate::store::has_schedule(old_scheds, schedule.id) ==> r == Err::<
                crate::models::RecordingEvent,
                crate::store::StoreError,
            >(crate::store::StoreError::NotFound))
            &&& (!rec_fail && crate::store::has_schedule(old_scheds, schedule.id)
                && !crate::models::schedule_transition_ok(
                crate::store::schedule_by_id(old_scheds, schedule.id).status,
                ss,
            ) ==> r == Err::<crate::models::RecordingEvent, crate::store::StoreError>(
                crate::store::StoreError::InvalidTransition,
            ))
            &&& (!rec_fail ==> {
                &&& final(store).recordings().len() == old_recs.len()
                &&& forall|i: int|
                    0 <= i < old_recs.len() ==> final(store).recordings()[i] == (
                    if old_recs[i].id == recording_id {
                        crate::store::recording_with_status(
                            old_recs[i],
                            rs,
                            Some(bytes_on_disk),
                            final(store).recordings()[i].error_message,
                            now,
                        )
                    } else {
                        old_recs[i]
                    })
                &&& (outcome == (WaitOutcome::Exited { success: true }) ==> crate::store::recording_by_id(
                    final(store).recordings(),
                    recording_id,
                ).error_message is None)
                &&& (outcome != (WaitOutcome::Exited { success: true }) ==> {
                    let stored = crate::store::recording_by_id(
                        final(store).recordings(),
                        recording_id,
                    ).error_message;
                    stored is Some && spec_failure_reason_matches(
                        outcome,
                        diagnostics@,
                        stored->0@,
                    )
                })
            })
            &&& (!rec_fail && sched_fail ==> r is Err && final(store).schedules() == old_scheds
                && *final(registry) == *old(registry))
            &&& (!rec_fail && !sched_fail ==> {
                &&& (!has_job(old(registry).jobs(), schedule.id) ==> *final(registry) == *old(
                    registry,
                ))
                &&& (has_job(old(registry).jobs(), schedule.id) ==> !has_job(
                    final(registry).jobs(),
                    schedule.id,
                ) && final(registry).jobs().to_multiset() == old(registry).jobs().to_multiset()
                    .remove(job_by_id(old(registry).jobs(), schedule.id)))
                &&& final(store).schedules().len() == old_scheds.len()
                &&& forall|i: int|
                    0 <= i < old_scheds.len() ==> final(store).schedules()[i] == (
                    if old_scheds[i].id == schedule.id {
                        crate::store::schedule_with_status(old_scheds[i], ss, now)
                    } else {
                        old_scheds[i]
                    })
                &&& r is Ok
                &&& {
                    let ev = r->Ok_0;
                    &&& ev.schedule_id == schedule.id
                    &&& ev.channel_name@ == schedule.channel_name@
                    &&& ev.program_title@ == schedule.program_title@
                    &&& (outcome == (WaitOutcome::Exited { success: true }) ==> ev.event_type@
                        == "completed"@ && ev.recording_id == Some(recording_id)
                        && ev.message is None)
                    &&& (outcome != (WaitOutcome::Exited { success: true }) ==> ev.event_type@
                        == "failed"@ && ev.recording_id is None && ev.message is Some
                        && spec_failure_reason_matches(outcome, diagnostics@, ev.message->0@))
                }
            })
        }),
{
    let (rec_status, sched_status) = classify_outcome(outcome, bytes_on_disk);
    let success = matches!(outcome, WaitOutcome::Exited { success: true });
    let error_message: Option<String> = if success {
        None
    } else {
        Some(failure_reason(outcome, diagnostics))
    };
    match store.update_recording_status(
        recording_id,
        rec_status,
        Some(bytes_on_disk),
        error_message,
        now,
    ) {
        Ok(()) => {},
        Err(e) => {
            return Err(e);
        },
    }
    proof {
        let idx = choose|i: int|
            0 <= i < old(store).recordings().len() && #[trigger] old(store).recordings()[i].id
                == recording_id;
        crate::store::lemma_recording_by_id_is(store.recordings(), idx);
    }
    match store.update_schedule_status(schedule.id, sched_status, now) {
        Ok(()) => {},
        Err(e) => {
            return Err(e);
        },
    }
    let _ = registry.deregister(schedule.id);
    if success {
        Ok(crate::models::RecordingEvent::completed(schedule, recording_id))
    } else {
        Ok(
            crate::models::RecordingEvent::failed(
                schedule,
                failure_reason(outcome, diagnostics),
            ),
        )
    }
}

/// Joins a directory and a file name with the path separator.
pub fn join_path(dir: &str, name: &str) -> (r: String)
    ensures
        r@ == dir@ + "/"@ + name@,
{
    let mut out = String::from_str(dir);
    out.append("/");
    out.append(name);
    proof {
        assert(out@ =~= dir@ + "/"@ + name@);
    }
    out
}

} // verus!
