//! The schedule store: schedule and recording records, settings, and the
//! per-source metadata the conflict checker reads.
//!
//! Every mutation is one logical transaction on the in-memory state; the
//! contracts pin the exact effect of each operation and the conditions
//! under which it fails. Status mutations are proved to follow the
//! transition relations of [`crate::models`], so no terminal record is
//! ever mutated.

use vstd::prelude::*;
use vstd::multiset::Multiset;
use vstd::pervasive::VecAdditionalExecFns;

use crate::models::{
    DvrSettings, DvrSettingsView, MAX_INSTANT, Recording, RecordingStatus, Schedule,
    ScheduleRequest, ScheduleStatus, recording_status_terminal, recording_transition_ok,
    schedule_transition_ok,
};
use crate::text::{parse_bounded_number, parses_to, str_eq};

verus! {

/// Why a store operation was refused.
#[derive(Debug, Clone, Copy, PartialEq, Eq, Structural)]
pub enum StoreError {
    /// The request's time range is empty or backwards.
    Validation,
    /// No record carries the given id.
    NotFound,
    /// The requested status change leaves a terminal status or skips a state.
    InvalidTransition,
    /// A recording with the same file path already exists.
    DuplicateFilePath,
    /// The schedule already has a recording in progress.
    ActiveRecordingExists,
    /// The store cannot assign another id.
    Persistence,
}

/// One settings row.
#[derive(Debug)]
pub struct Setting {
    pub key: String,
    pub value: String,
}

/// Connection-limit metadata of one source.
#[derive(Debug)]
pub struct SourceMeta {
    pub source_id: String,
    pub max_connections: Option<i32>,
}

/// The last known static capture URL of one channel, and the source it
/// belongs to.
#[derive(Debug)]
pub struct ChannelUrl {
    pub channel_id: String,
    pub source_id: String,
    pub direct_url: String,
}

pub open spec fn sched_ids_unique(s: Seq<Schedule>) -> bool {
    forall|i: int, j: int|
        0 <= i < s.len() && 0 <= j < s.len() && i != j ==> #[trigger] s[i].id != #[trigger] s[j].id
}

pub open spec fn rec_ids_unique(s: Seq<Recording>) -> bool {
    forall|i: int, j: int|
        0 <= i < s.len() && 0 <= j < s.len() && i != j ==> #[trigger] s[i].id != #[trigger] s[j].id
}

pub open spec fn rec_paths_unique(s: Seq<Recording>) -> bool {
    forall|i: int, j: int|
        0 <= i < s.len() && 0 <= j < s.len() && i != j ==> #[trigger] s[i].file_path@
            != #[trigger] s[j].file_path@
}

/// At most one recording is in progress per owning schedule.
pub open spec fn active_unique(s: Seq<Recording>) -> bool {
    forall|i: int, j: int|
        0 <= i < s.len() && 0 <= j < s.len() && i != j && #[trigger] s[i].status
            == RecordingStatus::Recording && #[trigger] s[j].status == RecordingStatus::Recording
            && s[i].schedule_id is Some ==> s[i].schedule_id != s[j].schedule_id
}

pub open spec fn schedules_wf(s: Seq<Schedule>) -> bool {
    forall|i: int| 0 <= i < s.len() ==> (#[trigger] s[i]).wf()
}

pub open spec fn schedule_ids_below(s: Seq<Schedule>, bound: i64) -> bool {
    forall|i: int| 0 <= i < s.len() ==> (#[trigger] s[i]).id < bound
}

pub open spec fn recordings_wf(s: Seq<Recording>) -> bool {
    forall|i: int| 0 <= i < s.len() ==> (#[trigger] s[i]).wf()
}

pub open spec fn recording_ids_below(s: Seq<Recording>, bound: i64) -> bool {
    forall|i: int| 0 <= i < s.len() ==> (#[trigger] s[i]).id < bound
}

pub open spec fn setting_keys_unique(s: Seq<Setting>) -> bool {
    forall|i: int, j: int|
        0 <= i < s.len() && 0 <= j < s.len() && i != j ==> #[trigger] s[i].key@
            != #[trigger] s[j].key@
}

pub open spec fn source_ids_unique(s: Seq<SourceMeta>) -> bool {
    forall|i: int, j: int|
        0 <= i < s.len() && 0 <= j < s.len() && i != j ==> #[trigger] s[i].source_id@
            != #[trigger] s[j].source_id@
}

pub open spec fn channel_ids_unique(s: Seq<ChannelUrl>) -> bool {
    forall|i: int, j: int|
        0 <= i < s.len() && 0 <= j < s.len() && i != j ==> #[trigger] s[i].channel_id@
            != #[trigger] s[j].channel_id@
}

pub open spec fn has_schedule(s: Seq<Schedule>, id: i64) -> bool {
    exists|i: int| 0 <= i < s.len() && #[trigger] s[i].id == id
}

/// The schedule carrying `id`; meaningful only when `has_schedule` holds
/// and ids are unique.
pub open spec fn schedule_by_id(s: Seq<Schedule>, id: i64) -> Schedule {
    s[choose|i: int| 0 <= i < s.len() && #[trigger] s[i].id == id]
}

pub open spec fn has_recording(s: Seq<Recording>, id: i64) -> bool {
    exists|i: int| 0 <= i < s.len() && #[trigger] s[i].id == id
}

pub open spec fn recording_by_id(s: Seq<Recording>, id: i64) -> Recording {
    s[choose|i: int| 0 <= i < s.len() && #[trigger] s[i].id == id]
}

pub proof fn lemma_schedule_by_id_is(s: Seq<Schedule>, i: int)
    requires
        sched_ids_unique(s),
        0 <= i < s.len(),
    ensures
        has_schedule(s, s[i].id),
        schedule_by_id(s, s[i].id) == s[i],
{
    let id = s[i].id;
    assert(0 <= i < s.len() && s[i].id == id);
    let j = choose|j: int| 0 <= j < s.len() && #[trigger] s[j].id == id;
    if j != i {
        assert(s[i].id != s[j].id);
    }
}

pub proof fn lemma_recording_by_id_is(s: Seq<Recording>, i: int)
    requires
        rec_ids_unique(s),
        0 <= i < s.len(),
    ensures
        has_recording(s, s[i].id),
        recording_by_id(s, s[i].id) == s[i],
{
    let id = s[i].id;
    assert(0 <= i < s.len() && s[i].id == id);
    let j = choose|j: int| 0 <= j < s.len() && #[trigger] s[j].id == id;
    if j != i {
        assert(s[i].id != s[j].id);
    }
}

/// The schedule a just-accepted request persists as.
pub open spec fn schedule_of_request(req: ScheduleRequest, id: i64, now: i64) -> Schedule {
    Schedule {
        id,
        source_id: req.source_id,
        channel_id: req.channel_id,
        channel_name: req.channel_name,
        program_title: req.program_title,
        scheduled_start: req.scheduled_start,
        scheduled_end: req.scheduled_end,
        start_padding_sec: req.start_padding_sec,
        end_padding_sec: req.end_padding_sec,
        status: ScheduleStatus::Scheduled,
        series_match_title: req.series_match_title,
        recurrence: req.recurrence,
        created_at: now,
        started_at: None,
        stream_url: req.stream_url,
    }
}

/// A schedule after a status change: moving to Recording stamps
/// `started_at`; every other move keeps the prior fields.
pub open spec fn schedule_with_status(s: Schedule, st: ScheduleStatus, now: i64) -> Schedule {
    Schedule {
        status: st,
        started_at: if st == ScheduleStatus::Recording {
            Some(now)
        } else {
            s.started_at
        },
        ..s
    }
}

/// When a schedule is due at `now`: it is still Scheduled and either its
/// padded start falls within the lookahead window around `now`, or its
/// nominal start was missed no longer than `grace` seconds ago and the
/// capture never started.
pub open spec fn is_due(s: Schedule, now: i64, window: i64, grace: i64) -> bool {
    s.status == ScheduleStatus::Scheduled && ((now - window <= s.spec_actual_start()
        && s.spec_actual_start() <= now + window) || (s.started_at is None && now - grace
        <= s.scheduled_start && s.scheduled_start <= now))
}

pub open spec fn sorted_by_start(s: Seq<Schedule>) -> bool {
    forall|i: int, j: int|
        0 <= i < j < s.len() ==> #[trigger] s[i].scheduled_start <= #[trigger] s[j].scheduled_start
}

/// Filtering a sequence extended by one element keeps the filtered prefix
/// and appends the element exactly when it matches.
pub proof fn lemma_filter_push<A>(s: Seq<A>, pred: spec_fn(A) -> bool, x: A)
    ensures
        s.push(x).filter(pred) == if pred(x) {
            s.filter(pred).push(x)
        } else {
            s.filter(pred)
        },
{
    reveal(Seq::filter);
    assert(s.push(x).drop_last() =~= s);
    assert(s.push(x).last() == x);
}

pub open spec fn has_recording_path(s: Seq<Recording>, path: Seq<char>) -> bool {
    exists|i: int| 0 <= i < s.len() && #[trigger] s[i].file_path@ == path
}

/// Whether some recording is still in progress for the schedule.
pub open spec fn has_active_recording_for(s: Seq<Recording>, schedule_id: i64) -> bool {
    exists|i: int|
        0 <= i < s.len() && (#[trigger] s[i]).status == RecordingStatus::Recording
            && s[i].schedule_id == Some(schedule_id)
}

/// The recording row persisted before a capture process is spawned:
/// in progress, started now, size and end unknown, default retention.
pub open spec fn is_new_recording(
    e: Recording,
    id: i64,
    schedule_id: i64,
    file_path: String,
    filename: String,
    channel_name: String,
    program_title: String,
    scheduled_start: i64,
    scheduled_end: i64,
    now: i64,
) -> bool {
    &&& e.id == id
    &&& e.schedule_id == Some(schedule_id)
    &&& e.file_path == file_path
    &&& e.filename == filename
    &&& e.channel_name == channel_name
    &&& e.program_title == program_title
    &&& e.size_bytes is None
    &&& e.scheduled_start == scheduled_start
    &&& e.scheduled_end == scheduled_end
    &&& e.actual_start == Some(now)
    &&& e.actual_end is None
    &&& e.status == RecordingStatus::Recording
    &&& e.error_message is None
    &&& e.auto_delete_policy@ == "space_needed"@
    &&& e.created_at == now
    &&& e.thumbnail_path is None
}

/// A recording after its terminal classification: the new status, the
/// size when one was measured, the diagnostic message, and the end
/// stamped `now`.
pub open spec fn recording_with_status(
    r: Recording,
    st: RecordingStatus,
    size_bytes: Option<i64>,
    error_message: Option<String>,
    now: i64,
) -> Recording {
    Recording {
        status: st,
        size_bytes: if size_bytes is Some {
            size_bytes
        } else {
            r.size_bytes
        },
        error_message,
        actual_end: if recording_status_terminal(st) {
            Some(now)
        } else {
            r.actual_end
        },
        ..r
    }
}

/// The recordings that cleanup and listings consider: those that left a
/// file behind, complete or partial.
pub open spec fn is_kept_recording(r: Recording) -> bool {
    r.status == RecordingStatus::Completed || r.status == RecordingStatus::Partial
}

pub open spec fn sorted_by_effective_end(s: Seq<Recording>) -> bool {
    forall|i: int, j: int|
        0 <= i < j < s.len() ==> #[trigger] s[i].spec_effective_end()
            <= #[trigger] s[j].spec_effective_end()
}

pub open spec fn sorted_by_effective_end_desc(s: Seq<Recording>) -> bool {
    forall|i: int, j: int|
        0 <= i < j < s.len() ==> #[trigger] s[i].spec_effective_end()
            >= #[trigger] s[j].spec_effective_end()
}

/// The settings a store with no rows yields.
pub open spec fn default_settings_view() -> DvrSettingsView {
    DvrSettingsView {
        storage_path: Seq::empty(),
        max_disk_usage_percent: 80,
        auto_cleanup_enabled: true,
        default_start_padding_sec: 60,
        default_end_padding_sec: 300,
        keep_recordings_days: Some(30i32),
    }
}

/// How one settings row changes the settings: a recognised key replaces
/// its field (numbers only when they parse in range); an unknown key or
/// an unparseable number changes nothing.
pub open spec fn apply_setting(v: DvrSettingsView, key: Seq<char>, value: Seq<char>) -> DvrSettingsView {
    if key == "storage_path"@ {
        DvrSettingsView { storage_path: value, ..v }
    } else if key == "max_disk_usage_percent"@ {
        match parses_to(value, u8::MAX as int) {
            Some(x) => DvrSettingsView { max_disk_usage_percent: x as u8, ..v },
            None => v,
        }
    } else if key == "auto_cleanup_enabled"@ {
        DvrSettingsView { auto_cleanup_enabled: value == "true"@ || value == "1"@, ..v }
    } else if key == "default_start_padding_sec"@ {
        match parses_to(value, i32::MAX as int) {
            Some(x) => DvrSettingsView { default_start_padding_sec: x as i32, ..v },
            None => v,
        }
    } else if key == "default_end_padding_sec"@ {
        match parses_to(value, i32::MAX as int) {
            Some(x) => DvrSettingsView { default_end_padding_sec: x as i32, ..v },
            None => v,
        }
    } else if key == "keep_recordings_days"@ {
        match parses_to(value, i32::MAX as int) {
            Some(x) => DvrSettingsView { keep_recordings_days: Some(x as i32), ..v },
            None => v,
        }
    } else {
        v
    }
}

/// The settings the stored rows denote, row by row over the defaults.
pub open spec fn settings_view_of(entries: Seq<Setting>) -> DvrSettingsView
    decreases entries.len(),
{
    if entries.len() == 0 {
        default_settings_view()
    } else {
        apply_setting(
            settings_view_of(entries.drop_last()),
            entries.last().key@,
            entries.last().value@,
        )
    }
}

pub open spec fn has_setting(s: Seq<Setting>, key: Seq<char>) -> bool {
    exists|i: int| 0 <= i < s.len() && #[trigger] s[i].key@ == key
}

pub open spec fn has_source(s: Seq<SourceMeta>, source_id: Seq<char>) -> bool {
    exists|i: int| 0 <= i < s.len() && #[trigger] s[i].source_id@ == source_id
}

pub open spec fn source_by_id(s: Seq<SourceMeta>, source_id: Seq<char>) -> SourceMeta {
    s[choose|i: int| 0 <= i < s.len() && #[trigger] s[i].source_id@ == source_id]
}

/// The earliest channel row of a source; the row URL regeneration uses.
pub open spec fn is_first_channel_of_source(s: Seq<ChannelUrl>, source_id: Seq<char>, i: int) -> bool {
    &&& 0 <= i < s.len()
    &&& s[i].source_id@ == source_id
    &&& forall|j: int| 0 <= j < i ==> #[trigger] s[j].source_id@ != source_id
}

pub open spec fn has_channel(s: Seq<ChannelUrl>, channel_id: Seq<char>) -> bool {
    exists|i: int| 0 <= i < s.len() && #[trigger] s[i].channel_id@ == channel_id
}

pub open spec fn channel_by_id(s: Seq<ChannelUrl>, channel_id: Seq<char>) -> ChannelUrl {
    s[choose|i: int| 0 <= i < s.len() && #[trigger] s[i].channel_id@ == channel_id]
}

/// The connection limit the store knows for a source, if the source is
/// known at all.
pub open spec fn spec_max_connections(s: Seq<SourceMeta>, source_id: Seq<char>) -> Option<i32> {
    if has_source(s, source_id) {
        source_by_id(s, source_id).max_connections
    } else {
        None
    }
}

/// A schedule that competes with the window `[start, end)` on the same
/// source: still pending or capturing, and its interval intersects.
pub open spec fn conflicts_with(s: Schedule, source_id: Seq<char>, start: i64, end: i64) -> bool {
    &&& s.source_id@ == source_id
    &&& (s.status == ScheduleStatus::Scheduled || s.status == ScheduleStatus::Recording)
    &&& !(s.scheduled_end <= start || s.scheduled_start >= end)
}

/// A filter over elements none of which satisfy the predicate keeps
/// nothing.
pub proof fn lemma_filter_empty<A>(s: Seq<A>, pred: spec_fn(A) -> bool)
    requires
        forall|i: int| 0 <= i < s.len() ==> !pred(#[trigger] s[i]),
    ensures
        s.filter(pred) == Seq::<A>::empty(),
    decreases s.len(),
{
    reveal(Seq::filter);
    if s.len() > 0 {
        assert(forall|i: int| 0 <= i < s.drop_last().len() ==> s.drop_last()[i] == #[trigger] s[i]);
        lemma_filter_empty(s.drop_last(), pred);
        assert(!pred(s.last()));
    }
}

/// Durable state for schedules, recordings, settings, and source metadata.
pub struct ScheduleStore {
    schedules: Vec<Schedule>,
    recordings: Vec<Recording>,
    settings: Vec<Setting>,
    sources: Vec<SourceMeta>,
    channels: Vec<ChannelUrl>,
    next_schedule_id: i64,
    next_recording_id: i64,
}

impl ScheduleStore {
    pub closed spec fn schedules(self) -> Seq<Schedule> {
        self.schedules@
    }

    pub closed spec fn recordings(self) -> Seq<Recording> {
        self.recordings@
    }

    pub closed spec fn settings(self) -> Seq<Setting> {
        self.settings@
    }

    pub closed spec fn sources(self) -> Seq<SourceMeta> {
        self.sources@
    }

    pub closed spec fn channels(self) -> Seq<ChannelUrl> {
        self.channels@
    }

    pub closed spec fn next_schedule_id_spec(self) -> i64 {
        self.next_schedule_id
    }

    pub closed spec fn next_recording_id_spec(self) -> i64 {
        self.next_recording_id
    }

    /// The store's invariant: well-formed records, unique ids and file
    /// paths, fresh id counters, at most one in-progress recording per
    /// schedule, and unique settings keys and source/channel ids.
    pub open spec fn wf(self) -> bool {
        &&& 0 < self.next_schedule_id_spec()
        &&& 0 < self.next_recording_id_spec()
        &&& schedules_wf(self.schedules())
        &&& schedule_ids_below(self.schedules(), self.next_schedule_id_spec())
        &&& sched_ids_unique(self.schedules())
        &&& recordings_wf(self.recordings())
        &&& recording_ids_below(self.recordings(), self.next_recording_id_spec())
        &&& rec_ids_unique(self.recordings())
        &&& rec_paths_unique(self.recordings())
        &&& active_unique(self.recordings())
        &&& setting_keys_unique(self.settings())
        &&& source_ids_unique(self.sources())
        &&& channel_ids_unique(self.channels())
    }

    /// The parts untouched by schedule mutations.
    pub open spec fn same_but_schedules(self, other: Self) -> bool {
        &&& self.recordings() == other.recordings()
        &&& self.settings() == other.settings()
        &&& self.sources() == other.sources()
        &&& self.channels() == other.channels()
        &&& self.next_recording_id_spec() == other.next_recording_id_spec()
    }

    /// The parts untouched by recording mutations.
    pub open spec fn same_but_recordings(self, other: Self) -> bool {
        &&& self.schedules() == other.schedules()
        &&& self.settings() == other.settings()
        &&& self.sources() == other.sources()
        &&& self.channels() == other.channels()
        &&& self.next_schedule_id_spec() == other.next_schedule_id_spec()
    }

    /// An empty store.
    pub fn new() -> (r: Self)
        ensures
            r.wf(),
            r.schedules() == Seq::<Schedule>::empty(),
            r.recordings() == Seq::<Recording>::empty(),
            r.settings() == Seq::<Setting>::empty(),
            r.sources() == Seq::<SourceMeta>::empty(),
            r.channels() == Seq::<ChannelUrl>::empty(),
            r.next_schedule_id_spec() == 1,
            r.next_recording_id_spec() == 1,
    {
        let r = ScheduleStore {
            schedules: Vec::new(),
            recordings: Vec::new(),
            settings: Vec::new(),
            sources: Vec::new(),
            channels: Vec::new(),
            next_schedule_id: 1,
            next_recording_id: 1,
        };
        proof {
            assert(r.schedules() =~= Seq::<Schedule>::empty());
            assert(r.recordings() =~= Seq::<Recording>::empty());
            assert(r.settings() =~= Seq::<Setting>::empty());
            assert(r.sources() =~= Seq::<SourceMeta>::empty());
            assert(r.channels() =~= Seq::<ChannelUrl>::empty());
        }
        r
    }

    /// Accepts a schedule request: rejects an empty or backwards time
    /// range, otherwise persists the request with status Scheduled and
    /// `created_at = now`, and returns the new id.
    pub fn add_schedule(&mut self, request: ScheduleRequest, now: i64) -> (r: Result<
        i64,
        StoreError,
    >)
        requires
            old(self).wf(),
            0 <= request.scheduled_start <= MAX_INSTANT,
            0 <= request.scheduled_end <= MAX_INSTANT,
            0 <= request.start_padding_sec,
            0 <= request.end_padding_sec,
            0 <= now <= MAX_INSTANT,
        ensures
            final(self).wf(),
            request.scheduled_end <= request.scheduled_start ==> r == Err::<i64, StoreError>(
                StoreError::Validation,
            ) && *final(self) == *old(self),
            request.scheduled_start < request.scheduled_end && old(self).next_schedule_id_spec()
                == i64::MAX ==> r == Err::<i64, StoreError>(StoreError::Persistence) && *final(self)
                == *old(self),
            request.scheduled_start < request.scheduled_end && old(self).next_schedule_id_spec()
                < i64::MAX ==> {
                &&& r == Ok::<i64, StoreError>(old(self).next_schedule_id_spec())
                &&& final(self).schedules() == old(self).schedules().push(
                    schedule_of_request(request, old(self).next_schedule_id_spec(), now),
                )
                &&& final(self).next_schedule_id_spec() == old(self).next_schedule_id_spec() + 1
                &&& old(self).same_but_schedules(*final(self))
            },
    {
        if request.scheduled_end <= request.scheduled_start {
            return Err(StoreError::Validation);
        }
        if self.next_schedule_id == i64::MAX {
            return Err(StoreError::Persistence);
        }
        let id = self.next_schedule_id;
        let entry = Schedule {
            id,
            source_id: request.source_id,
            channel_id: request.channel_id,
            channel_name: request.channel_name,
            program_title: request.program_title,
            scheduled_start: request.scheduled_start,
            scheduled_end: request.scheduled_end,
            start_padding_sec: request.start_padding_sec,
            end_padding_sec: request.end_padding_sec,
            status: ScheduleStatus::Scheduled,
            series_match_title: request.series_match_title,
            recurrence: request.recurrence,
            created_at: now,
            started_at: None,
            stream_url: request.stream_url,
        };
        self.schedules.push(entry);
        self.next_schedule_id = id + 1;
        proof {
            let olds = old(self).schedules();
            let s = self.schedules();
            let n = olds.len() as int;
            assert(s == olds.push(schedule_of_request(request, id, now)));
            assert forall|i: int, j: int|
                0 <= i < s.len() && 0 <= j < s.len() && i != j implies #[trigger] s[i].id
                != #[trigger] s[j].id by {
                if i < n && j < n {
                    assert(olds[i].id != olds[j].id);
                } else if i < n {
                    assert(olds[i].id < id);
                } else {
                    assert(olds[j].id < id);
                }
            }
            assert forall|i: int| 0 <= i < s.len() implies (#[trigger] s[i]).wf() by {
                if i < n {
                    assert(olds[i].wf());
                }
            }
            assert forall|i: int|
                0 <= i < s.len() implies (#[trigger] s[i]).id < self.next_schedule_id_spec() by {
                if i < n {
                    assert(olds[i].id < old(self).next_schedule_id_spec());
                }
            }
        }
        Ok(id)
    }

    /// Index of the schedule carrying `id`.
    fn find_schedule_index(&self, id: i64) -> (r: Option<usize>)
        requires
            self.wf(),
        ensures
            match r {
                Some(i) => 0 <= i < self.schedules().len() && self.schedules()[i as int].id == id
                    && has_schedule(self.schedules(), id) && schedule_by_id(self.schedules(), id)
                    == self.schedules()[i as int],
                None => !has_schedule(self.schedules(), id),
            },
    {
        let n = self.schedules.len();
        let mut i: usize = 0;
        while i < n
            invariant
                self.wf(),
                n == self.schedules().len(),
                i <= n,
                forall|j: int| 0 <= j < i ==> #[trigger] self.schedules()[j].id != id,
            decreases n - i,
        {
            if self.schedules[i].id == id {
                proof {
                    lemma_schedule_by_id_is(self.schedules(), i as int);
                }
                return Some(i);
            }
            i += 1;
        }
        None
    }

    /// Replaces the schedule at `i` and re-establishes the invariant,
    /// provided the replacement keeps the id and is well formed.
    fn set_schedule_at(&mut self, i: usize, entry: Schedule)
        requires
            old(self).wf(),
            i < old(self).schedules().len(),
            entry.wf(),
            entry.id == old(self).schedules()[i as int].id,
        ensures
            final(self).wf(),
            final(self).schedules() == old(self).schedules().update(i as int, entry),
            old(self).same_but_schedules(*final(self)),
            final(self).next_schedule_id_spec() == old(self).next_schedule_id_spec(),
    {
        self.schedules.set(i, entry);
        proof {
            let olds = old(self).schedules();
            let s = self.schedules();
            assert forall|a: int, b: int|
                0 <= a < s.len() && 0 <= b < s.len() && a != b implies #[trigger] s[a].id
                != #[trigger] s[b].id by {
                assert(olds[a].id != olds[b].id);
                assert(s[a].id == olds[a].id && s[b].id == olds[b].id);
            }
            assert forall|a: int| 0 <= a < s.len() implies (#[trigger] s[a]).wf() by {
                if a != i {
                    assert(olds[a].wf());
                }
            }
            assert forall|a: int|
                0 <= a < s.len() implies (#[trigger] s[a]).id < self.next_schedule_id_spec() by {
                assert(olds[a].id < old(self).next_schedule_id_spec());
                assert(s[a].id == olds[a].id);
            }
        }
    }

    /// Changes a schedule's status. The change must follow the transition
    /// relation; moving to Recording stamps `started_at = now`, and every
    /// other field is left untouched.
    pub fn update_schedule_status(&mut self, id: i64, status: ScheduleStatus, now: i64) -> (r:
        Result<(), StoreError>)
        requires
            old(self).wf(),
            0 <= now <= MAX_INSTANT,
        ensures
            final(self).wf(),
            !has_schedule(old(self).schedules(), id) ==> r == Err::<(), StoreError>(
                StoreError::NotFound,
            ) && *final(self) == *old(self),
            has_schedule(old(self).schedules(), id) && !schedule_transition_ok(
                schedule_by_id(old(self).schedules(), id).status,
                status,
            ) ==> r == Err::<(), StoreError>(StoreError::InvalidTransition) && *final(self) == *old(
                self,
            ),
            has_schedule(old(self).schedules(), id) && schedule_transition_ok(
                schedule_by_id(old(self).schedules(), id).status,
                status,
            ) ==> {
                &&& r == Ok::<(), StoreError>(())
                &&& final(self).schedules().len() == old(self).schedules().len()
                &&& forall|i: int|
                    0 <= i < old(self).schedules().len() ==> final(self).schedules()[i] == (
                    if old(self).schedules()[i].id == id {
                        schedule_with_status(old(self).schedules()[i], status, now)
                    } else {
                        old(self).schedules()[i]
                    })
                &&& old(self).same_but_schedules(*final(self))
                &&& final(self).next_schedule_id_spec() == old(self).next_schedule_id_spec()
            },
    {
        let idx = match self.find_schedule_index(id) {
            Some(i) => i,
            None => {
                return Err(StoreError::NotFound);
            },
        };
        let current = self.schedules[idx].status;
        if !crate::models::schedule_transition_allowed(current, status) {
            return Err(StoreError::InvalidTransition);
        }
        let entry = self.schedules[idx].clone();
        let updated = Schedule {
            status,
            started_at: if matches!(status, ScheduleStatus::Recording) {
                Some(now)
            } else {
                entry.started_at
            },
            ..entry
        };
        proof {
            let olds = old(self).schedules();
            assert(updated == schedule_with_status(olds[idx as int], status, now));
            assert(olds[idx as int].wf());
        }
        self.set_schedule_at(idx, updated);
        proof {
            let olds = old(self).schedules();
            let s = self.schedules();
            assert forall|i: int|
                0 <= i < olds.len() implies s[i] == (if olds[i].id == id {
                schedule_with_status(olds[i], status, now)
            } else {
                olds[i]
            }) by {
                if i != idx {
                    assert(olds[i].id != olds[idx as int].id);
                }
            }
        }
        Ok(())
    }

    /// Cancels a schedule; succeeds only while its status is still
    /// Scheduled.
    pub fn cancel_schedule(&mut self, id: i64) -> (r: Result<(), StoreError>)
        requires
            old(self).wf(),
        ensures
            final(self).wf(),
            !has_schedule(old(self).schedules(), id) ==> r == Err::<(), StoreError>(
                StoreError::NotFound,
            ) && *final(self) == *old(self),
            has_schedule(old(self).schedules(), id) && schedule_by_id(old(self).schedules(), id)
                .status != ScheduleStatus::Scheduled ==> r == Err::<(), StoreError>(
                StoreError::InvalidTransition,
            ) && *final(self) == *old(self),
            has_schedule(old(self).schedules(), id) && schedule_by_id(old(self).schedules(), id)
                .status == ScheduleStatus::Scheduled ==> {
                &&& r == Ok::<(), StoreError>(())
                &&& final(self).schedules().len() == old(self).schedules().len()
                &&& forall|i: int|
                    0 <= i < old(self).schedules().len() ==> final(self).schedules()[i] == (
                    if old(self).schedules()[i].id == id {
                        schedule_with_status(old(self).schedules()[i], ScheduleStatus::Canceled, 0)
                    } else {
                        old(self).schedules()[i]
                    })
                &&& old(self).same_but_schedules(*final(self))
                &&& final(self).next_schedule_id_spec() == old(self).next_schedule_id_spec()
            },
    {
        let idx = match self.find_schedule_index(id) {
            Some(i) => i,
            None => {
                return Err(StoreError::NotFound);
            },
        };
        if !matches!(self.schedules[idx].status, ScheduleStatus::Scheduled) {
            return Err(StoreError::InvalidTransition);
        }
        let entry = self.schedules[idx].clone();
        let updated = Schedule { status: ScheduleStatus::Canceled, ..entry };
        proof {
            let olds = old(self).schedules();
            assert(updated == schedule_with_status(olds[idx as int], ScheduleStatus::Canceled, 0));
            assert(olds[idx as int].wf());
        }
        self.set_schedule_at(idx, updated);
        proof {
            let olds = old(self).schedules();
            let s = self.schedules();
            assert forall|i: int|
                0 <= i < olds.len() implies s[i] == (if olds[i].id == id {
                schedule_with_status(olds[i], ScheduleStatus::Canceled, 0)
            } else {
                olds[i]
            }) by {
                if i != idx {
                    assert(olds[i].id != olds[idx as int].id);
                }
            }
        }
        Ok(())
    }

    /// Stores a freshly resolved capture URL on a schedule that has not
    /// reached a terminal status.
    pub fn update_schedule_stream_url(&mut self, id: i64, stream_url: String) -> (r: Result<
        (),
        StoreError,
    >)
        requires
            old(self).wf(),
        ensures
            final(self).wf(),
            !has_schedule(old(self).schedules(), id) ==> r == Err::<(), StoreError>(
                StoreError::NotFound,
            ) && *final(self) == *old(self),
            has_schedule(old(self).schedules(), id) && crate::models::schedule_status_terminal(
                schedule_by_id(old(self).schedules(), id).status,
            ) ==> r == Err::<(), StoreError>(StoreError::InvalidTransition) && *final(self) == *old(
                self,
            ),
            has_schedule(old(self).schedules(), id) && !crate::models::schedule_status_terminal(
                schedule_by_id(old(self).schedules(), id).status,
            ) ==> {
                &&& r == Ok::<(), StoreError>(())
                &&& final(self).schedules().len() == old(self).schedules().len()
                &&& forall|i: int|
                    0 <= i < old(self).schedules().len() ==> final(self).schedules()[i] == (
                    if old(self).schedules()[i].id == id {
                        Schedule { stream_url: Some(stream_url), ..old(self).schedules()[i] }
                    } else {
                        old(self).schedules()[i]
                    })
                &&& old(self).same_but_schedules(*final(self))
                &&& final(self).next_schedule_id_spec() == old(self).next_schedule_id_spec()
            },
    {
        let idx = match self.find_schedule_index(id) {
            Some(i) => i,
            None => {
                return Err(StoreError::NotFound);
            },
        };
        if matches!(
            self.schedules[idx].status,
            ScheduleStatus::Completed | ScheduleStatus::Failed | ScheduleStatus::Canceled
        ) {
            return Err(StoreError::InvalidTransition);
        }
        let entry = self.schedules[idx].clone();
        let updated = Schedule { stream_url: Some(stream_url), ..entry };
        proof {
            assert(old(self).schedules()[idx as int].wf());
        }
        self.set_schedule_at(idx, updated);
        proof {
            let olds = old(self).schedules();
            let s = self.schedules();
            assert forall|i: int|
                0 <= i < olds.len() implies s[i] == (if olds[i].id == id {
                Schedule { stream_url: Some(stream_url), ..olds[i] }
            } else {
                olds[i]
            }) by {
                if i != idx {
                    assert(olds[i].id != olds[idx as int].id);
                }
            }
        }
        Ok(())
    }

    /// Changes a schedule's paddings; refused once the schedule is
    /// terminal.
    pub fn update_schedule_paddings(&mut self, id: i64, start_padding_sec: i32, end_padding_sec:
        i32) -> (r: Result<(), StoreError>)
        requires
            old(self).wf(),
            0 <= start_padding_sec,
            0 <= end_padding_sec,
        ensures
            final(self).wf(),
            !has_schedule(old(self).schedules(), id) ==> r == Err::<(), StoreError>(
                StoreError::NotFound,
            ) && *final(self) == *old(self),
            has_schedule(old(self).schedules(), id) && crate::models::schedule_status_terminal(
                schedule_by_id(old(self).schedules(), id).status,
            ) ==> r == Err::<(), StoreError>(StoreError::InvalidTransition) && *final(self) == *old(
                self,
            ),
            has_schedule(old(self).schedules(), id) && !crate::models::schedule_status_terminal(
                schedule_by_id(old(self).schedules(), id).status,
            ) ==> {
                &&& r == Ok::<(), StoreError>(())
                &&& final(self).schedules().len() == old(self).schedules().len()
                &&& forall|i: int|
                    0 <= i < old(self).schedules().len() ==> final(self).schedules()[i] == (
                    if old(self).schedules()[i].id == id {
                        Schedule {
                            start_padding_sec,
                            end_padding_sec,
                            ..old(self).schedules()[i]
                        }
                    } else {
                        old(self).schedules()[i]
                    })
                &&& old(self).same_but_schedules(*final(self))
                &&& final(self).next_schedule_id_spec() == old(self).next_schedule_id_spec()
            },
    {
        let idx = match self.find_schedule_index(id) {
            Some(i) => i,
            None => {
                return Err(StoreError::NotFound);
            },
        };
        if matches!(
            self.schedules[idx].status,
            ScheduleStatus::Completed | ScheduleStatus::Failed | ScheduleStatus::Canceled
        ) {
            return Err(StoreError::InvalidTransition);
        }
        let entry = self.schedules[idx].clone();
        let updated = Schedule { start_padding_sec, end_padding_sec, ..entry };
        proof {
            assert(old(self).schedules()[idx as int].wf());
        }
        self.set_schedule_at(idx, updated);
        proof {
            let olds = old(self).schedules();
            let s = self.schedules();
            assert forall|i: int|
                0 <= i < olds.len() implies s[i] == (if olds[i].id == id {
                Schedule { start_padding_sec, end_padding_sec, ..olds[i] }
            } else {
                olds[i]
            }) by {
                if i != idx {
                    assert(olds[i].id != olds[idx as int].id);
                }
            }
        }
        Ok(())
    }

    /// Decides `is_due` for one schedule.
    fn schedule_is_due(s: &Schedule, now: i64, window: i64, grace: i64) -> (r: bool)
        requires
            s.wf(),
            0 <= now <= MAX_INSTANT,
            0 <= window <= MAX_INSTANT,
            0 <= grace <= MAX_INSTANT,
        ensures
            r == is_due(*s, now, window, grace),
    {
        if !matches!(s.status, ScheduleStatus::Scheduled) {
            return false;
        }
        let padded_start = s.scheduled_start - s.start_padding_sec as i64;
        let upcoming = now - window <= padded_start && padded_start <= now + window;
        let missed = s.started_at.is_none() && now - grace <= s.scheduled_start
            && s.scheduled_start <= now;
        upcoming || missed
    }

    /// Sorts schedules by nominal start, ascending; the result is a
    /// permutation of the input.
    fn sort_schedules_by_start(input: Vec<Schedule>) -> (r: Vec<Schedule>)
        ensures
            r@.to_multiset() == input@.to_multiset(),
            sorted_by_start(r@),
            r@.len() == input@.len(),
    {
        broadcast use vstd::seq_lib::group_to_multiset_ensures;
        broadcast use vstd::multiset::group_multiset_axioms;

        let mut work = input;
        let mut out: Vec<Schedule> = Vec::new();
        proof {
            assert(out@.to_multiset().add(work@.to_multiset()) =~= input@.to_multiset());
        }
        while work.len() > 0
            invariant
                out@.to_multiset().add(work@.to_multiset()) == input@.to_multiset(),
                out@.len() + work@.len() == input@.len(),
                sorted_by_start(out@),
                forall|i: int, j: int|
                    0 <= i < out@.len() && 0 <= j < work@.len()
                        ==> #[trigger] out@[i].scheduled_start
                        <= #[trigger] work@[j].scheduled_start,
            decreases work.len(),
        {
            let mut m: usize = 0;
            let mut k: usize = 1;
            while k < work.len()
                invariant
                    0 < work@.len(),
                    m < k,
                    k <= work@.len(),
                    forall|j: int|
                        0 <= j < k ==> work@[m as int].scheduled_start
                            <= #[trigger] work@[j].scheduled_start,
                decreases work@.len() - k,
            {
                if work[k].scheduled_start < work[m].scheduled_start {
                    m = k;
                }
                k += 1;
            }
            let ghost old_work = work@;
            let ghost old_out = out@;
            let x = work.remove(m);
            out.push(x);
            proof {
                vstd::seq_lib::to_multiset_remove(old_work, m as int);
                vstd::seq_lib::to_multiset_build(old_out, x);
                vstd::seq_lib::to_multiset_contains(old_work, x);
                assert(work@.to_multiset() == old_work.to_multiset().remove(x));
                assert(out@.to_multiset() =~= old_out.to_multiset().insert(x));
                assert(old_work.contains(x));
                assert(old_work.to_multiset().count(x) > 0);
                assert(out@.to_multiset().add(work@.to_multiset()) =~= old_out.to_multiset().add(
                    old_work.to_multiset(),
                ));
                assert(forall|j: int|
                    0 <= j < work@.len() ==> #[trigger] work@[j] == (if j < m {
                        old_work[j]
                    } else {
                        old_work[j + 1]
                    }));
                assert forall|i: int, j: int|
                    0 <= i < out@.len() && 0 <= j < work@.len() implies #[trigger] out@[i].scheduled_start
                    <= #[trigger] work@[j].scheduled_start by {
                    if i < old_out.len() {
                        assert(old_out[i].scheduled_start <= x.scheduled_start);
                    }
                    if j < m {
                        assert(old_work[m as int].scheduled_start <= old_work[j].scheduled_start);
                    } else {
                        assert(old_work[m as int].scheduled_start <= old_work[j + 1].scheduled_start);
                    }
                }
            }
        }
        proof {
            assert(work@.to_multiset() =~= Multiset::<Schedule>::empty());
            assert(out@.to_multiset().add(Multiset::<Schedule>::empty()) =~= out@.to_multiset());
        }
        out
    }

    /// The schedules due at `now`, ascending by nominal start: exactly the
    /// Scheduled entries whose padded start lies within the lookahead
    /// window, plus missed ones still inside the grace period.
    pub fn get_due_schedules(&self, now: i64, window: i64, grace: i64) -> (r: Vec<Schedule>)
        requires
            self.wf(),
            0 <= now <= MAX_INSTANT,
            0 <= window <= MAX_INSTANT,
            0 <= grace <= MAX_INSTANT,
        ensures
            r@.to_multiset() == self.schedules().filter(
                |s: Schedule| is_due(s, now, window, grace),
            ).to_multiset(),
            sorted_by_start(r@),
    {
        let ghost pred = |s: Schedule| is_due(s, now, window, grace);
        let n = self.schedules.len();
        let mut picked: Vec<Schedule> = Vec::new();
        let mut i: usize = 0;
        proof {
            assert(self.schedules().subrange(0, 0).filter(pred) =~= Seq::<Schedule>::empty());
        }
        while i < n
            invariant
                self.wf(),
                n == self.schedules().len(),
                i <= n,
                0 <= now <= MAX_INSTANT,
                0 <= window <= MAX_INSTANT,
                0 <= grace <= MAX_INSTANT,
                pred == (|s: Schedule| is_due(s, now, window, grace)),
                picked@ == self.schedules().subrange(0, i as int).filter(pred),
            decreases n - i,
        {
            let ghost prefix = self.schedules().subrange(0, i as int);
            proof {
                assert(self.schedules().subrange(0, i as int + 1) =~= prefix.push(
                    self.schedules()[i as int],
                ));
                lemma_filter_push(prefix, pred, self.schedules()[i as int]);
            }
            if Self::schedule_is_due(&self.schedules[i], now, window, grace) {
                picked.push(self.schedules[i].clone());
            }
            i += 1;
        }
        proof {
            assert(self.schedules().subrange(0, n as int) =~= self.schedules());
        }
        Self::sort_schedules_by_start(picked)
    }

    /// How many schedules are still waiting to record.
    pub fn count_scheduled(&self) -> (r: usize)
        requires
            self.wf(),
        ensures
            r == self.schedules().filter(
                |s: Schedule| s.status == ScheduleStatus::Scheduled,
            ).len(),
    {
        let ghost pred = |s: Schedule| s.status == ScheduleStatus::Scheduled;
        let n = self.schedules.len();
        let mut count: usize = 0;
        let mut i: usize = 0;
        proof {
            assert(self.schedules().subrange(0, 0).filter(pred) =~= Seq::<Schedule>::empty());
        }
        while i < n
            invariant
                self.wf(),
                n == self.schedules().len(),
                i <= n,
                pred == (|s: Schedule| s.status == ScheduleStatus::Scheduled),
                count == self.schedules().subrange(0, i as int).filter(pred).len(),
                count <= i,
            decreases n - i,
        {
            let ghost prefix = self.schedules().subrange(0, i as int);
            proof {
                assert(self.schedules().subrange(0, i as int + 1) =~= prefix.push(
                    self.schedules()[i as int],
                ));
                lemma_filter_push(prefix, pred, self.schedules()[i as int]);
            }
            if matches!(self.schedules[i].status, ScheduleStatus::Scheduled) {
                count += 1;
            }
            i += 1;
        }
        proof {
            assert(self.schedules().subrange(0, n as int) =~= self.schedules());
        }
        count
    }

    /// Index of the recording carrying `id`.
    fn find_recording_index(&self, id: i64) -> (r: Option<usize>)
        requires
            self.wf(),
        ensures
            match r {
                Some(i) => 0 <= i < self.recordings().len() && self.recordings()[i as int].id == id
                    && has_recording(self.recordings(), id) && recording_by_id(
                    self.recordings(),
                    id,
                ) == self.recordings()[i as int],
                None => !has_recording(self.recordings(), id),
            },
    {
        let n = self.recordings.len();
        let mut i: usize = 0;
        while i < n
            invariant
                self.wf(),
                n == self.recordings().len(),
                i <= n,
                forall|j: int| 0 <= j < i ==> #[trigger] self.recordings()[j].id != id,
            decreases n - i,
        {
            if self.recordings[i].id == id {
                proof {
                    lemma_recording_by_id_is(self.recordings(), i as int);
                }
                return Some(i);
            }
            i += 1;
        }
        None
    }

    /// Replaces the recording at `i` and re-establishes the invariant.
    /// The replacement keeps the id and file path; it may stay in
    /// progress only if the old entry was, for the same schedule.
    fn set_recording_at(&mut self, i: usize, entry: Recording)
        requires
            old(self).wf(),
            i < old(self).recordings().len(),
            entry.wf(),
            entry.id == old(self).recordings()[i as int].id,
            entry.file_path@ == old(self).recordings()[i as int].file_path@,
            entry.status == RecordingStatus::Recording ==> old(self).recordings()[i as int].status
                == RecordingStatus::Recording && entry.schedule_id == old(self).recordings()[
                i as int
            ].schedule_id,
        ensures
            final(self).wf(),
            final(self).recordings() == old(self).recordings().update(i as int, entry),
            old(self).same_but_recordings(*final(self)),
            final(self).next_recording_id_spec() == old(self).next_recording_id_spec(),
    {
        self.recordings.set(i, entry);
        proof {
            let olds = old(self).recordings();
            let s = self.recordings();
            assert forall|a: int, b: int|
                0 <= a < s.len() && 0 <= b < s.len() && a != b implies #[trigger] s[a].id
                != #[trigger] s[b].id by {
                assert(olds[a].id != olds[b].id);
                assert(s[a].id == olds[a].id && s[b].id == olds[b].id);
            }
            assert forall|a: int, b: int|
                0 <= a < s.len() && 0 <= b < s.len() && a != b implies #[trigger] s[a].file_path@
                != #[trigger] s[b].file_path@ by {
                assert(olds[a].file_path@ != olds[b].file_path@);
                assert(s[a].file_path@ == olds[a].file_path@ && s[b].file_path@
                    == olds[b].file_path@);
            }
            assert forall|a: int| 0 <= a < s.len() implies (#[trigger] s[a]).wf() by {
                if a != i {
                    assert(olds[a].wf());
                }
            }
            assert forall|a: int|
                0 <= a < s.len() implies (#[trigger] s[a]).id < self.next_recording_id_spec() by {
                assert(olds[a].id < old(self).next_recording_id_spec());
                assert(s[a].id == olds[a].id);
            }
            assert forall|a: int, b: int|
                0 <= a < s.len() && 0 <= b < s.len() && a != b && #[trigger] s[a].status
                    == RecordingStatus::Recording && #[trigger] s[b].status
                    == RecordingStatus::Recording && s[a].schedule_id is Some implies s[a].schedule_id
                != s[b].schedule_id by {
                assert(olds[a].status == RecordingStatus::Recording || a == i);
                assert(olds[b].status == RecordingStatus::Recording || b == i);
            }
        }
    }

    /// Persists a recording row for a schedule about to be captured,
    /// before any process is spawned. Refused when the file path is
    /// already taken or the schedule already has a capture in progress.
    pub fn add_recording(
        &mut self,
        schedule_id: i64,
        file_path: String,
        filename: String,
        channel_name: String,
        program_title: String,
        scheduled_start: i64,
        scheduled_end: i64,
        now: i64,
    ) -> (r: Result<i64, StoreError>)
        requires
            old(self).wf(),
            0 <= now <= MAX_INSTANT,
        ensures
            final(self).wf(),
            has_recording_path(old(self).recordings(), file_path@) ==> r == Err::<i64, StoreError>(
                StoreError::DuplicateFilePath,
            ) && *final(self) == *old(self),
            !has_recording_path(old(self).recordings(), file_path@) && has_active_recording_for(
                old(self).recordings(),
                schedule_id,
            ) ==> r == Err::<i64, StoreError>(StoreError::ActiveRecordingExists) && *final(self)
                == *old(self),
            !has_recording_path(old(self).recordings(), file_path@) && !has_active_recording_for(
                old(self).recordings(),
                schedule_id,
            ) && old(self).next_recording_id_spec() == i64::MAX ==> r == Err::<i64, StoreError>(
                StoreError::Persistence,
            ) && *final(self) == *old(self),
            !has_recording_path(old(self).recordings(), file_path@) && !has_active_recording_for(
                old(self).recordings(),
                schedule_id,
            ) && old(self).next_recording_id_spec() < i64::MAX ==> {
                &&& r == Ok::<i64, StoreError>(old(self).next_recording_id_spec())
                &&& final(self).recordings().len() == old(self).recordings().len() + 1
                &&& final(self).recordings() == old(self).recordings().push(
                    final(self).recordings().last(),
                )
                &&& is_new_recording(
                    final(self).recordings().last(),
                    old(self).next_recording_id_spec(),
                    schedule_id,
                    file_path,
                    filename,
                    channel_name,
                    program_title,
                    scheduled_start,
                    scheduled_end,
                    now,
                )
                &&& final(self).next_recording_id_spec() == old(self).next_recording_id_spec() + 1
                &&& old(self).same_but_recordings(*final(self))
            },
    {
        let n = self.recordings.len();
        let mut i: usize = 0;
        while i < n
            invariant
                self.wf(),
                n == self.recordings().len(),
                i <= n,
                forall|j: int| 0 <= j < i ==> #[trigger] self.recordings()[j].file_path@ != file_path@,
            decreases n - i,
        {
            if str_eq(self.recordings[i].file_path.as_str(), file_path.as_str()) {
                return Err(StoreError::DuplicateFilePath);
            }
            i += 1;
        }
        let mut k: usize = 0;
        while k < n
            invariant
                self.wf(),
                n == self.recordings().len(),
                k <= n,
                forall|j: int| 0 <= j < n ==> #[trigger] self.recordings()[j].file_path@ != file_path@,
                forall|j: int|
                    0 <= j < k ==> !((#[trigger] self.recordings()[j]).status
                        == RecordingStatus::Recording && self.recordings()[j].schedule_id == Some(
                        schedule_id,
                    )),
            decreases n - k,
        {
            let is_active = matches!(self.recordings[k].status, RecordingStatus::Recording);
            let same_schedule = match self.recordings[k].schedule_id {
                Some(sid) => sid == schedule_id,
                None => false,
            };
            if is_active && same_schedule {
                return Err(StoreError::ActiveRecordingExists);
            }
            k += 1;
        }
        if self.next_recording_id == i64::MAX {
            return Err(StoreError::Persistence);
        }
        let id = self.next_recording_id;
        let entry = Recording {
            id,
            schedule_id: Some(schedule_id),
            file_path,
            filename,
            channel_name,
            program_title,
            size_bytes: None,
            scheduled_start,
            scheduled_end,
            actual_start: Some(now),
            actual_end: None,
            status: RecordingStatus::Recording,
            error_message: None,
            auto_delete_policy: String::from_str("space_needed"),
            created_at: now,
            thumbnail_path: None,
        };
        self.recordings.push(entry);
        self.next_recording_id = id + 1;
        proof {
            let olds = old(self).recordings();
            let s = self.recordings();
            let m = olds.len() as int;
            assert forall|a: int, b: int|
                0 <= a < s.len() && 0 <= b < s.len() && a != b implies #[trigger] s[a].id
                != #[trigger] s[b].id by {
                if a < m && b < m {
                    assert(olds[a].id != olds[b].id);
                } else if a < m {
                    assert(olds[a].id < id);
                } else {
                    assert(olds[b].id < id);
                }
            }
            assert forall|a: int, b: int|
                0 <= a < s.len() && 0 <= b < s.len() && a != b implies #[trigger] s[a].file_path@
                != #[trigger] s[b].file_path@ by {
                if a < m && b < m {
                    assert(olds[a].file_path@ != olds[b].file_path@);
                } else if a < m {
                    assert(olds[a].file_path@ != file_path@);
                } else {
                    assert(olds[b].file_path@ != file_path@);
                }
            }
            assert forall|a: int| 0 <= a < s.len() implies (#[trigger] s[a]).wf() by {
                if a < m {
                    assert(olds[a].wf());
                }
            }
            assert forall|a: int|
                0 <= a < s.len() implies (#[trigger] s[a]).id < self.next_recording_id_spec() by {
                if a < m {
                    assert(olds[a].id < old(self).next_recording_id_spec());
                }
            }
            assert forall|a: int, b: int|
                0 <= a < s.len() && 0 <= b < s.len() && a != b && #[trigger] s[a].status
                    == RecordingStatus::Recording && #[trigger] s[b].status
                    == RecordingStatus::Recording && s[a].schedule_id is Some implies s[a].schedule_id
                != s[b].schedule_id by {
                if a < m && b < m {
                } else if a < m {
                    assert(!(olds[a].status == RecordingStatus::Recording && olds[a].schedule_id
                        == Some(schedule_id)));
                } else {
                    assert(!(olds[b].status == RecordingStatus::Recording && olds[b].schedule_id
                        == Some(schedule_id)));
                }
            }
        }
        Ok(id)
    }

    /// Classifies a recording: moves it from in-progress to a terminal
    /// status, keeps the stored size when no new one is given, records the
    /// diagnostic message, and stamps the end instant.
    pub fn update_recording_status(
        &mut self,
        id: i64,
        status: RecordingStatus,
        size_bytes: Option<i64>,
        error_message: Option<String>,
        now: i64,
    ) -> (r: Result<(), StoreError>)
        requires
            old(self).wf(),
            0 <= now <= MAX_INSTANT,
            size_bytes is Some ==> 0 <= size_bytes->0,
        ensures
            final(self).wf(),
            !has_recording(old(self).recordings(), id) ==> r == Err::<(), StoreError>(
                StoreError::NotFound,
            ) && *final(self) == *old(self),
            has_recording(old(self).recordings(), id) && !recording_transition_ok(
                recording_by_id(old(self).recordings(), id).status,
                status,
            ) ==> r == Err::<(), StoreError>(StoreError::InvalidTransition) && *final(self) == *old(
                self,
            ),
            has_recording(old(self).recordings(), id) && recording_transition_ok(
                recording_by_id(old(self).recordings(), id).status,
                status,
            ) ==> {
                &&& r == Ok::<(), StoreError>(())
                &&& final(self).recordings().len() == old(self).recordings().len()
                &&& forall|i: int|
                    0 <= i < old(self).recordings().len() ==> final(self).recordings()[i] == (
                    if old(self).recordings()[i].id == id {
                        recording_with_status(
                            old(self).recordings()[i],
                            status,
                            size_bytes,
                            error_message,
                            now,
                        )
                    } else {
                        old(self).recordings()[i]
                    })
                &&& old(self).same_but_recordings(*final(self))
                &&& final(self).next_recording_id_spec() == old(self).next_recording_id_spec()
            },
    {
        let idx = match self.find_recording_index(id) {
            Some(i) => i,
            None => {
                return Err(StoreError::NotFound);
            },
        };
        let current = self.recordings[idx].status;
        if !crate::models::recording_transition_allowed(current, status) {
            return Err(StoreError::InvalidTransition);
        }
        let entry = self.recordings[idx].clone();
        let updated = Recording {
            status,
            size_bytes: match size_bytes {
                Some(s) => Some(s),
                None => entry.size_bytes,
            },
            error_message,
            actual_end: Some(now),
            ..entry
        };
        proof {
            let olds = old(self).recordings();
            assert(recording_status_terminal(status));
            assert(updated == recording_with_status(
                olds[idx as int],
                status,
                size_bytes,
                error_message,
                now,
            ));
            assert(olds[idx as int].wf());
        }
        self.set_recording_at(idx, updated);
        proof {
            let olds = old(self).recordings();
            let s = self.recordings();
            assert forall|i: int|
                0 <= i < olds.len() implies s[i] == (if olds[i].id == id {
                recording_with_status(olds[i], status, size_bytes, error_message, now)
            } else {
                olds[i]
            }) by {
                if i != idx {
                    assert(olds[i].id != olds[idx as int].id);
                }
            }
        }
        Ok(())
    }

    /// Reconciles a recording's stored size with the measured one.
    pub fn update_recording_size(&mut self, id: i64, size_bytes: i64) -> (r: Result<
        (),
        StoreError,
    >)
        requires
            old(self).wf(),
            0 <= size_bytes,
        ensures
            final(self).wf(),
            !has_recording(old(self).recordings(), id) ==> r == Err::<(), StoreError>(
                StoreError::NotFound,
            ) && *final(self) == *old(self),
            has_recording(old(self).recordings(), id) ==> {
                &&& r == Ok::<(), StoreError>(())
                &&& final(self).recordings().len() == old(self).recordings().len()
                &&& forall|i: int|
                    0 <= i < old(self).recordings().len() ==> final(self).recordings()[i] == (
                    if old(self).recordings()[i].id == id {
                        Recording { size_bytes: Some(size_bytes), ..old(self).recordings()[i] }
                    } else {
                        old(self).recordings()[i]
                    })
                &&& old(self).same_but_recordings(*final(self))
                &&& final(self).next_recording_id_spec() == old(self).next_recording_id_spec()
            },
    {
        let idx = match self.find_recording_index(id) {
            Some(i) => i,
            None => {
                return Err(StoreError::NotFound);
            },
        };
        let entry = self.recordings[idx].clone();
        let updated = Recording { size_bytes: Some(size_bytes), ..entry };
        proof {
            assert(old(self).recordings()[idx as int].wf());
        }
        self.set_recording_at(idx, updated);
        proof {
            let olds = old(self).recordings();
            let s = self.recordings();
            assert forall|i: int|
                0 <= i < olds.len() implies s[i] == (if olds[i].id == id {
                Recording { size_bytes: Some(size_bytes), ..olds[i] }
            } else {
                olds[i]
            }) by {
                if i != idx {
                    assert(olds[i].id != olds[idx as int].id);
                }
            }
        }
        Ok(())
    }

    /// Stores the path of a freshly extracted thumbnail.
    pub fn update_recording_thumbnail(&mut self, id: i64, thumbnail_path: String) -> (r: Result<
        (),
        StoreError,
    >)
        requires
            old(self).wf(),
        ensures
            final(self).wf(),
            !has_recording(old(self).recordings(), id) ==> r == Err::<(), StoreError>(
                StoreError::NotFound,
            ) && *final(self) == *old(self),
            has_recording(old(self).recordings(), id) ==> {
                &&& r == Ok::<(), StoreError>(())
                &&& final(self).recordings().len() == old(self).recordings().len()
                &&& forall|i: int|
                    0 <= i < old(self).recordings().len() ==> final(self).recordings()[i] == (
                    if old(self).recordings()[i].id == id {
                        Recording {
                            thumbnail_path: Some(thumbnail_path),
                            ..old(self).recordings()[i]
                        }
                    } else {
                        old(self).recordings()[i]
                    })
                &&& old(self).same_but_recordings(*final(self))
                &&& final(self).next_recording_id_spec() == old(self).next_recording_id_spec()
            },
    {
        let idx = match self.find_recording_index(id) {
            Some(i) => i,
            None => {
                return Err(StoreError::NotFound);
            },
        };
        let entry = self.recordings[idx].clone();
        let updated = Recording { thumbnail_path: Some(thumbnail_path), ..entry };
        proof {
            assert(old(self).recordings()[idx as int].wf());
        }
        self.set_recording_at(idx, updated);
        proof {
            let olds = old(self).recordings();
            let s = self.recordings();
            assert forall|i: int|
                0 <= i < olds.len() implies s[i] == (if olds[i].id == id {
                Recording { thumbnail_path: Some(thumbnail_path), ..olds[i] }
            } else {
                olds[i]
            }) by {
                if i != idx {
                    assert(olds[i].id != olds[idx as int].id);
                }
            }
        }
        Ok(())
    }

    /// Looks a recording up by id.
    pub fn get_recording(&self, id: i64) -> (r: Option<Recording>)
        requires
            self.wf(),
        ensures
            match r {
                Some(rec) => has_recording(self.recordings(), id) && rec == recording_by_id(
                    self.recordings(),
                    id,
                ) && rec.id == id,
                None => !has_recording(self.recordings(), id),
            },
    {
        match self.find_recording_index(id) {
            Some(i) => Some(self.recordings[i].clone()),
            None => None,
        }
    }

    /// Removes a recording row and hands back its file and thumbnail
    /// paths so the caller can delete the media afterwards.
    pub fn delete_recording(&mut self, id: i64) -> (r: Option<(String, Option<String>)>)
        requires
            old(self).wf(),
        ensures
            final(self).wf(),
            !has_recording(old(self).recordings(), id) ==> r is None && *final(self) == *old(self),
            has_recording(old(self).recordings(), id) ==> {
                &&& r == Some(
                    (
                        recording_by_id(old(self).recordings(), id).file_path,
                        recording_by_id(old(self).recordings(), id).thumbnail_path,
                    ),
                )
                &&& final(self).recordings().len() == old(self).recordings().len() - 1
                &&& final(self).recordings().to_multiset() == old(self).recordings().to_multiset()
                    .remove(recording_by_id(old(self).recordings(), id))
                &&& !has_recording(final(self).recordings(), id)
                &&& old(self).same_but_recordings(*final(self))
                &&& final(self).next_recording_id_spec() == old(self).next_recording_id_spec()
            },
    {
        let idx = match self.find_recording_index(id) {
            Some(i) => i,
            None => {
                return None;
            },
        };
        let entry = self.recordings.remove(idx);
        proof {
            let olds = old(self).recordings();
            let s = self.recordings();
            vstd::seq_lib::to_multiset_remove(olds, idx as int);
            assert(forall|j: int|
                0 <= j < s.len() ==> #[trigger] s[j] == (if j < idx {
                    olds[j]
                } else {
                    olds[j + 1]
                }));
            assert forall|a: int, b: int|
                0 <= a < s.len() && 0 <= b < s.len() && a != b implies #[trigger] s[a].id
                != #[trigger] s[b].id by {
                let a0 = if a < idx { a } else { a + 1 };
                let b0 = if b < idx { b } else { b + 1 };
                assert(olds[a0].id != olds[b0].id);
            }
            assert forall|a: int, b: int|
                0 <= a < s.len() && 0 <= b < s.len() && a != b implies #[trigger] s[a].file_path@
                != #[trigger] s[b].file_path@ by {
                let a0 = if a < idx { a } else { a + 1 };
                let b0 = if b < idx { b } else { b + 1 };
                assert(olds[a0].file_path@ != olds[b0].file_path@);
            }
            assert forall|a: int| 0 <= a < s.len() implies (#[trigger] s[a]).wf() by {
                let a0 = if a < idx { a } else { a + 1 };
                assert(olds[a0].wf());
            }
            assert forall|a: int|
                0 <= a < s.len() implies (#[trigger] s[a]).id < self.next_recording_id_spec() by {
                let a0 = if a < idx { a } else { a + 1 };
                assert(olds[a0].id < old(self).next_recording_id_spec());
            }
            assert forall|a: int, b: int|
                0 <= a < s.len() && 0 <= b < s.len() && a != b && #[trigger] s[a].status
                    == RecordingStatus::Recording && #[trigger] s[b].status
                    == RecordingStatus::Recording && s[a].schedule_id is Some implies s[a].schedule_id
                != s[b].schedule_id by {
                let a0 = if a < idx { a } else { a + 1 };
                let b0 = if b < idx { b } else { b + 1 };
                assert(!(olds[a0].status == RecordingStatus::Recording && olds[b0].status
                    == RecordingStatus::Recording && olds[a0].schedule_id is Some
                    && olds[a0].schedule_id == olds[b0].schedule_id));
            }
            assert forall|a: int| 0 <= a < s.len() implies #[trigger] s[a].id != id by {
                let a0 = if a < idx { a } else { a + 1 };
                assert(olds[a0].id != olds[idx as int].id);
            }
        }
        Some((entry.file_path, entry.thumbnail_path))
    }

    /// One poll tick's store work: snapshots the due schedules, marks
    /// each of them Recording with `started_at = now`, and returns the
    /// snapshot, ascending by nominal start, for dispatch.
    pub fn take_due_for_dispatch(&mut self, now: i64, window: i64, grace: i64) -> (r: Vec<
        Schedule,
    >)
        requires
            old(self).wf(),
            0 <= now <= MAX_INSTANT,
            0 <= window <= MAX_INSTANT,
            0 <= grace <= MAX_INSTANT,
        ensures
            final(self).wf(),
            r@.to_multiset() == old(self).schedules().filter(
                |s: Schedule| is_due(s, now, window, grace),
            ).to_multiset(),
            sorted_by_start(r@),
            final(self).schedules().len() == old(self).schedules().len(),
            forall|i: int|
                0 <= i < old(self).schedules().len() ==> final(self).schedules()[i] == (
                if is_due(old(self).schedules()[i], now, window, grace) {
                    schedule_with_status(old(self).schedules()[i], ScheduleStatus::Recording, now)
                } else {
                    old(self).schedules()[i]
                }),
            old(self).same_but_schedules(*final(self)),
            final(self).next_schedule_id_spec() == old(self).next_schedule_id_spec(),
    {
        let due = self.get_due_schedules(now, window, grace);
        let n = self.schedules.len();
        let mut i: usize = 0;
        while i < n
            invariant
                self.wf(),
                0 <= now <= MAX_INSTANT,
                0 <= window <= MAX_INSTANT,
                0 <= grace <= MAX_INSTANT,
                n == self.schedules().len(),
                n == old(self).schedules().len(),
                i <= n,
                forall|j: int|
                    0 <= j < i ==> self.schedules()[j] == (if is_due(
                        #[trigger] old(self).schedules()[j],
                        now,
                        window,
                        grace,
                    ) {
                        schedule_with_status(
                            old(self).schedules()[j],
                            ScheduleStatus::Recording,
                            now,
                        )
                    } else {
                        old(self).schedules()[j]
                    }),
                forall|j: int| i <= j < n ==> self.schedules()[j] == #[trigger] old(self).schedules()[j],
                old(self).same_but_schedules(*self),
                self.next_schedule_id_spec() == old(self).next_schedule_id_spec(),
            decreases n - i,
        {
            if Self::schedule_is_due(&self.schedules[i], now, window, grace) {
                let entry = self.schedules[i].clone();
                let updated = Schedule {
                    status: ScheduleStatus::Recording,
                    started_at: Some(now),
                    ..entry
                };
                proof {
                    assert(old(self).schedules()[i as int].wf());
                    assert(updated == schedule_with_status(
                        old(self).schedules()[i as int],
                        ScheduleStatus::Recording,
                        now,
                    ));
                }
                self.set_schedule_at(i, updated);
            }
            i += 1;
        }
        due
    }

    /// Looks a schedule up by id.
    pub fn get_schedule(&self, id: i64) -> (r: Option<Schedule>)
        requires
            self.wf(),
        ensures
            match r {
                Some(s) => has_schedule(self.schedules(), id) && s == schedule_by_id(
                    self.schedules(),
                    id,
                ) && s.id == id,
                None => !has_schedule(self.schedules(), id),
            },
    {
        let n = self.schedules.len();
        let mut i: usize = 0;
        while i < n
            invariant
                self.wf(),
                n == self.schedules().len(),
                i <= n,
                forall|j: int| 0 <= j < i ==> #[trigger] self.schedules()[j].id != id,
            decreases n - i,
        {
            if self.schedules[i].id == id {
                proof {
                    lemma_schedule_by_id_is(self.schedules(), i as int);
                }
                return Some(self.schedules[i].clone());
            }
            i += 1;
        }
        None
    }

    /// The recordings that left a file behind, newest effective end
    /// first.
    pub fn get_completed_recordings(&self) -> (r: Vec<Recording>)
        requires
            self.wf(),
        ensures
            r@.to_multiset() == self.recordings().filter(
                |rec: Recording| is_kept_recording(rec),
            ).to_multiset(),
            sorted_by_effective_end_desc(r@),
    {
        let picked = self.collect_kept_recordings();
        sort_recordings_newest_first(picked)
    }

    /// The recordings that left a file behind, oldest effective end
    /// first: the order every eviction pass walks them in.
    pub fn completed_recordings_oldest_first(&self) -> (r: Vec<Recording>)
        requires
            self.wf(),
        ensures
            r@.to_multiset() == self.recordings().filter(
                |rec: Recording| is_kept_recording(rec),
            ).to_multiset(),
            sorted_by_effective_end(r@),
    {
        let picked = self.collect_kept_recordings();
        sort_recordings_oldest_first(picked)
    }

    fn collect_kept_recordings(&self) -> (r: Vec<Recording>)
        requires
            self.wf(),
        ensures
            r@ == self.recordings().filter(|rec: Recording| is_kept_recording(rec)),
    {
        let ghost pred = |rec: Recording| is_kept_recording(rec);
        let n = self.recordings.len();
        let mut picked: Vec<Recording> = Vec::new();
        let mut i: usize = 0;
        proof {
            assert(self.recordings().subrange(0, 0).filter(pred) =~= Seq::<Recording>::empty());
        }
        while i < n
            invariant
                self.wf(),
                n == self.recordings().len(),
                i <= n,
                pred == (|rec: Recording| is_kept_recording(rec)),
                picked@ == self.recordings().subrange(0, i as int).filter(pred),
            decreases n - i,
        {
            let ghost prefix = self.recordings().subrange(0, i as int);
            proof {
                assert(self.recordings().subrange(0, i as int + 1) =~= prefix.push(
                    self.recordings()[i as int],
                ));
                lemma_filter_push(prefix, pred, self.recordings()[i as int]);
            }
            if matches!(
                self.recordings[i].status,
                RecordingStatus::Completed | RecordingStatus::Partial
            ) {
                picked.push(self.recordings[i].clone());
            }
            i += 1;
        }
        proof {
            assert(self.recordings().subrange(0, n as int) =~= self.recordings());
        }
        picked
    }

    /// The settings the stored rows denote; absent keys keep their
    /// defaults, unparseable numbers are ignored.
    pub fn get_settings(&self) -> (r: DvrSettings)
        requires
            self.wf(),
        ensures
            r@ == settings_view_of(self.settings()),
    {
        let n = self.settings.len();
        let mut current = DvrSettings::default();
        let mut i: usize = 0;
        proof {
            assert(self.settings().subrange(0, 0) =~= Seq::<Setting>::empty());
            assert(current@ == settings_view_of(self.settings().subrange(0, 0)));
        }
        while i < n
            invariant
                self.wf(),
                n == self.settings().len(),
                i <= n,
                current@ == settings_view_of(self.settings().subrange(0, i as int)),
            decreases n - i,
        {
            let ghost prefix = self.settings().subrange(0, i as int);
            proof {
                let ext = self.settings().subrange(0, i as int + 1);
                assert(ext.drop_last() =~= prefix);
                assert(ext.last() == self.settings()[i as int]);
            }
            let entry = &self.settings[i];
            if str_eq(entry.key.as_str(), "storage_path") {
                current.storage_path = entry.value.clone();
            } else if str_eq(entry.key.as_str(), "max_disk_usage_percent") {
                match parse_bounded_number(entry.value.as_str(), 255) {
                    Some(x) => {
                        current.max_disk_usage_percent = x as u8;
                    },
                    None => {},
                }
            } else if str_eq(entry.key.as_str(), "auto_cleanup_enabled") {
                current.auto_cleanup_enabled = str_eq(entry.value.as_str(), "true") || str_eq(
                    entry.value.as_str(),
                    "1",
                );
            } else if str_eq(entry.key.as_str(), "default_start_padding_sec") {
                match parse_bounded_number(entry.value.as_str(), i32::MAX as u32) {
                    Some(x) => {
                        current.default_start_padding_sec = x as i32;
                    },
                    None => {},
                }
            } else if str_eq(entry.key.as_str(), "default_end_padding_sec") {
                match parse_bounded_number(entry.value.as_str(), i32::MAX as u32) {
                    Some(x) => {
                        current.default_end_padding_sec = x as i32;
                    },
                    None => {},
                }
            } else if str_eq(entry.key.as_str(), "keep_recordings_days") {
                match parse_bounded_number(entry.value.as_str(), i32::MAX as u32) {
                    Some(x) => {
                        current.keep_recordings_days = Some(x as i32);
                    },
                    None => {},
                }
            }
            i += 1;
        }
        proof {
            assert(self.settings().subrange(0, n as int) =~= self.settings());
        }
        current
    }

    /// Writes one settings row: replaces the value under an existing key,
    /// inserts the row otherwise.
    pub fn save_setting(&mut self, key: String, value: String)
        requires
            old(self).wf(),
        ensures
            final(self).wf(),
            final(self).schedules() == old(self).schedules(),
            final(self).recordings() == old(self).recordings(),
            final(self).sources() == old(self).sources(),
            final(self).channels() == old(self).channels(),
            final(self).next_schedule_id_spec() == old(self).next_schedule_id_spec(),
            final(self).next_recording_id_spec() == old(self).next_recording_id_spec(),
            has_setting(old(self).settings(), key@) ==> {
                &&& final(self).settings().len() == old(self).settings().len()
                &&& forall|i: int|
                    0 <= i < old(self).settings().len() ==> (#[trigger] final(self).settings()[i]).key@
                        == old(self).settings()[i].key@ && final(self).settings()[i].value@ == (
                    if old(self).settings()[i].key@ == key@ {
                        value@
                    } else {
                        old(self).settings()[i].value@
                    })
            },
            !has_setting(old(self).settings(), key@) ==> {
                &&& final(self).settings() == old(self).settings().push(
                    final(self).settings().last(),
                )
                &&& final(self).settings().last().key@ == key@
                &&& final(self).settings().last().value@ == value@
            },
    {
        let n = self.settings.len();
        let mut i: usize = 0;
        while i < n
            invariant
                *self == *old(self),
                self.wf(),
                n == self.settings().len(),
                i <= n,
                forall|j: int| 0 <= j < i ==> #[trigger] self.settings()[j].key@ != key@,
            decreases n - i,
        {
            if str_eq(self.settings[i].key.as_str(), key.as_str()) {
                let old_key = self.settings[i].key.clone();
                self.settings.set(i, Setting { key: old_key, value });
                proof {
                    let olds = old(self).settings();
                    let s = self.settings();
                    assert forall|a: int, b: int|
                        0 <= a < s.len() && 0 <= b < s.len() && a != b implies #[trigger] s[a].key@
                        != #[trigger] s[b].key@ by {
                        assert(olds[a].key@ != olds[b].key@);
                        assert(s[a].key@ == olds[a].key@ && s[b].key@ == olds[b].key@);
                    }
                    assert forall|j: int|
                        0 <= j < olds.len() implies (#[trigger] s[j]).key@ == olds[j].key@
                        && s[j].value@ == (if olds[j].key@ == key@ {
                        value@
                    } else {
                        olds[j].value@
                    }) by {
                        if j != i {
                            assert(olds[j].key@ != olds[i as int].key@);
                        }
                    }
                }
                return ;
            }
            i += 1;
        }
        self.settings.push(Setting { key, value });
        proof {
            let olds = old(self).settings();
            let s = self.settings();
            assert forall|a: int, b: int|
                0 <= a < s.len() && 0 <= b < s.len() && a != b implies #[trigger] s[a].key@
                != #[trigger] s[b].key@ by {
                if a < olds.len() && b < olds.len() {
                    assert(olds[a].key@ != olds[b].key@);
                }
            }
        }
    }

    /// The schedules that compete with the window `[start, end)` on the
    /// given source, in store order, together with the source's
    /// connection limit.
    pub fn check_conflicts(&self, source_id: &str, start: i64, end: i64) -> (r: (
        Vec<Schedule>,
        Option<i32>,
    ))
        requires
            self.wf(),
        ensures
            r.0@ == self.schedules().filter(
                |s: Schedule| conflicts_with(s, source_id@, start, end),
            ),
            r.1 == spec_max_connections(self.sources(), source_id@),
    {
        let ghost pred = |s: Schedule| conflicts_with(s, source_id@, start, end);
        let n = self.schedules.len();
        let mut picked: Vec<Schedule> = Vec::new();
        let mut i: usize = 0;
        proof {
            assert(self.schedules().subrange(0, 0).filter(pred) =~= Seq::<Schedule>::empty());
        }
        while i < n
            invariant
                self.wf(),
                n == self.schedules().len(),
                i <= n,
                pred == (|s: Schedule| conflicts_with(s, source_id@, start, end)),
                picked@ == self.schedules().subrange(0, i as int).filter(pred),
            decreases n - i,
        {
            let ghost prefix = self.schedules().subrange(0, i as int);
            proof {
                assert(self.schedules().subrange(0, i as int + 1) =~= prefix.push(
                    self.schedules()[i as int],
                ));
                lemma_filter_push(prefix, pred, self.schedules()[i as int]);
            }
            let s = &self.schedules[i];
            let status_ok = matches!(
                s.status,
                ScheduleStatus::Scheduled | ScheduleStatus::Recording
            );
            if status_ok && str_eq(s.source_id.as_str(), source_id) && !(s.scheduled_end <= start
                || s.scheduled_start >= end) {
                picked.push(self.schedules[i].clone());
            }
            i += 1;
        }
        proof {
            assert(self.schedules().subrange(0, n as int) =~= self.schedules());
        }
        let max_connections = self.get_max_connections(source_id);
        (picked, max_connections)
    }

    /// The connection limit stored for a source; None when the source is
    /// unknown or carries no limit.
    pub fn get_max_connections(&self, source_id: &str) -> (r: Option<i32>)
        requires
            self.wf(),
        ensures
            r == spec_max_connections(self.sources(), source_id@),
    {
        let n = self.sources.len();
        let mut i: usize = 0;
        while i < n
            invariant
                self.wf(),
                n == self.sources().len(),
                i <= n,
                forall|j: int| 0 <= j < i ==> #[trigger] self.sources()[j].source_id@ != source_id@,
            decreases n - i,
        {
            if str_eq(self.sources[i].source_id.as_str(), source_id) {
                proof {
                    let s = self.sources();
                    let j = choose|j: int| 0 <= j < s.len() && #[trigger] s[j].source_id@ == source_id@;
                    if j != i {
                        assert(s[i as int].source_id@ != s[j].source_id@);
                    }
                }
                return self.sources[i].max_connections;
            }
            i += 1;
        }
        None
    }

    /// Records or replaces a source's connection limit.
    pub fn set_source_max_connections(&mut self, source_id: String, max_connections: Option<i32>)
        requires
            old(self).wf(),
        ensures
            final(self).wf(),
            spec_max_connections(final(self).sources(), source_id@) == max_connections,
            forall|other: Seq<char>|
                other != source_id@ ==> #[trigger] spec_max_connections(
                    final(self).sources(),
                    other,
                ) == spec_max_connections(old(self).sources(), other),
            final(self).schedules() == old(self).schedules(),
            final(self).recordings() == old(self).recordings(),
            final(self).settings() == old(self).settings(),
            final(self).channels() == old(self).channels(),
            final(self).next_schedule_id_spec() == old(self).next_schedule_id_spec(),
            final(self).next_recording_id_spec() == old(self).next_recording_id_spec(),
    {
        let n = self.sources.len();
        let mut i: usize = 0;
        while i < n
            invariant
                *self == *old(self),
                self.wf(),
                n == self.sources().len(),
                i <= n,
                forall|j: int| 0 <= j < i ==> #[trigger] self.sources()[j].source_id@ != source_id@,
            decreases n - i,
        {
            if str_eq(self.sources[i].source_id.as_str(), source_id.as_str()) {
                self.sources.set(i, SourceMeta { source_id, max_connections });
                proof {
                    let olds = old(self).sources();
                    let s = self.sources();
                    assert forall|a: int, b: int|
                        0 <= a < s.len() && 0 <= b < s.len() && a != b implies #[trigger] s[a].source_id@
                        != #[trigger] s[b].source_id@ by {
                        assert(olds[a].source_id@ != olds[b].source_id@);
                        assert(s[a].source_id@ == olds[a].source_id@ && s[b].source_id@
                            == olds[b].source_id@);
                    }
                    lemma_source_lookup(s, i as int);
                    assert forall|other: Seq<char>|
                        other != source_id@ implies #[trigger] spec_max_connections(s, other)
                        == spec_max_connections(olds, other) by {
                        lemma_source_lookup_other(olds, s, s[i as int].source_id@, other);
                    }
                }
                return ;
            }
            i += 1;
        }
        self.sources.push(SourceMeta { source_id, max_connections });
        proof {
            let olds = old(self).sources();
            let s = self.sources();
            assert forall|a: int, b: int|
                0 <= a < s.len() && 0 <= b < s.len() && a != b implies #[trigger] s[a].source_id@
                != #[trigger] s[b].source_id@ by {
                if a < olds.len() && b < olds.len() {
                    assert(olds[a].source_id@ != olds[b].source_id@);
                }
            }
            lemma_source_lookup(s, s.len() - 1);
            assert forall|other: Seq<char>|
                other != source_id@ implies #[trigger] spec_max_connections(s, other)
                == spec_max_connections(olds, other) by {
                lemma_source_lookup_other(olds, s, s[s.len() - 1].source_id@, other);
            }
        }
    }

    /// Records or replaces a channel's last known static capture URL and
    /// owning source.
    pub fn set_channel_url(&mut self, channel_id: String, source_id: String, direct_url: String)
        requires
            old(self).wf(),
        ensures
            final(self).wf(),
            has_channel(final(self).channels(), channel_id@),
            channel_by_id(final(self).channels(), channel_id@).direct_url@ == direct_url@,
            forall|other: Seq<char>|
                other != channel_id@ ==> (#[trigger] has_channel(final(self).channels(), other)
                    == has_channel(old(self).channels(), other)) && (has_channel(
                    old(self).channels(),
                    other,
                ) ==> channel_by_id(final(self).channels(), other) == channel_by_id(
                    old(self).channels(),
                    other,
                )),
            final(self).schedules() == old(self).schedules(),
            final(self).recordings() == old(self).recordings(),
            final(self).settings() == old(self).settings(),
            final(self).sources() == old(self).sources(),
            final(self).next_schedule_id_spec() == old(self).next_schedule_id_spec(),
            final(self).next_recording_id_spec() == old(self).next_recording_id_spec(),
    {
        let n = self.channels.len();
        let mut i: usize = 0;
        while i < n
            invariant
                *self == *old(self),
                self.wf(),
                n == self.channels().len(),
                i <= n,
                forall|j: int| 0 <= j < i ==> #[trigger] self.channels()[j].channel_id@ != channel_id@,
            decreases n - i,
        {
            if str_eq(self.channels[i].channel_id.as_str(), channel_id.as_str()) {
                self.channels.set(i, ChannelUrl { channel_id, source_id, direct_url });
                proof {
                    let olds = old(self).channels();
                    let s = self.channels();
                    assert forall|a: int, b: int|
                        0 <= a < s.len() && 0 <= b < s.len() && a != b implies #[trigger] s[a].channel_id@
                        != #[trigger] s[b].channel_id@ by {
                        assert(olds[a].channel_id@ != olds[b].channel_id@);
                        assert(s[a].channel_id@ == olds[a].channel_id@ && s[b].channel_id@
                            == olds[b].channel_id@);
                    }
                    lemma_channel_lookup(s, i as int);
                    assert forall|other: Seq<char>|
                        other != s[i as int].channel_id@ implies (#[trigger] has_channel(s, other)
                        == has_channel(olds, other)) && (has_channel(olds, other) ==> channel_by_id(
                        s,
                        other,
                    ) == channel_by_id(olds, other)) by {
                        lemma_channel_lookup_other(olds, s, s[i as int].channel_id@, other);
                    }
                }
                return ;
            }
            i += 1;
        }
        self.channels.push(ChannelUrl { channel_id, source_id, direct_url });
        proof {
            let olds = old(self).channels();
            let s = self.channels();
            assert forall|a: int, b: int|
                0 <= a < s.len() && 0 <= b < s.len() && a != b implies #[trigger] s[a].channel_id@
                != #[trigger] s[b].channel_id@ by {
                if a < olds.len() && b < olds.len() {
                    assert(olds[a].channel_id@ != olds[b].channel_id@);
                }
            }
            lemma_channel_lookup(s, s.len() - 1);
            assert forall|other: Seq<char>|
                other != s[s.len() - 1].channel_id@ implies (#[trigger] has_channel(s, other)
                == has_channel(olds, other)) && (has_channel(olds, other) ==> channel_by_id(
                s,
                other,
            ) == channel_by_id(olds, other)) by {
                lemma_channel_lookup_other(olds, s, s[s.len() - 1].channel_id@, other);
            }
        }
    }

    /// The stored URL of the first channel belonging to a source; what
    /// URL regeneration reads its template from.
    pub fn first_channel_url_of_source(&self, source_id: &str) -> (r: Option<String>)
        requires
            self.wf(),
        ensures
            match r {
                Some(u) => exists|i: int|
                    is_first_channel_of_source(self.channels(), source_id@, i) && u@
                        == self.channels()[i].direct_url@,
                None => forall|j: int|
                    0 <= j < self.channels().len() ==> (#[trigger] self.channels()[j]).source_id@
                        != source_id@,
            },
    {
        let n = self.channels.len();
        let mut i: usize = 0;
        while i < n
            invariant
                self.wf(),
                n == self.channels().len(),
                i <= n,
                forall|j: int| 0 <= j < i ==> #[trigger] self.channels()[j].source_id@ != source_id@,
            decreases n - i,
        {
            if str_eq(self.channels[i].source_id.as_str(), source_id) {
                proof {
                    assert(is_first_channel_of_source(self.channels(), source_id@, i as int));
                }
                return Some(self.channels[i].direct_url.clone());
            }
            i += 1;
        }
        None
    }

    /// The last known static capture URL of a channel.
    pub fn get_stored_url(&self, channel_id: &str) -> (r: Option<String>)
        requires
            self.wf(),
        ensures
            match r {
                Some(url) => has_channel(self.channels(), channel_id@) && url@ == channel_by_id(
                    self.channels(),
                    channel_id@,
                ).direct_url@,
                None => !has_channel(self.channels(), channel_id@),
            },
    {
        let n = self.channels.len();
        let mut i: usize = 0;
        while i < n
            invariant
                self.wf(),
                n == self.channels().len(),
                i <= n,
                forall|j: int| 0 <= j < i ==> #[trigger] self.channels()[j].channel_id@ != channel_id@,
            decreases n - i,
        {
            if str_eq(self.channels[i].channel_id.as_str(), channel_id) {
                proof {
                    lemma_channel_lookup(self.channels(), i as int);
                }
                return Some(self.channels[i].direct_url.clone());
            }
            i += 1;
        }
        None
    }
}

/// Round trip through the store: a schedule read back right after its
/// request was accepted carries exactly the submitted fields, with
/// status Scheduled, `created_at` stamped with the accepting instant,
/// and no start recorded yet. The requires restate what
/// `add_schedule` ensures on success; the conclusion is what
/// `get_schedule` then returns for the new id.
pub proof fn lemma_add_then_get_round_trip(
    pre: ScheduleStore,
    post: ScheduleStore,
    request: ScheduleRequest,
    now: i64,
    id: i64,
)
    requires
        pre.wf(),
        post.wf(),
        id == pre.next_schedule_id_spec(),
        post.schedules() == pre.schedules().push(schedule_of_request(request, id, now)),
    ensures
        has_schedule(post.schedules(), id),
        schedule_by_id(post.schedules(), id) == schedule_of_request(request, id, now),
        schedule_by_id(post.schedules(), id).source_id == request.source_id,
        schedule_by_id(post.schedules(), id).channel_id == request.channel_id,
        schedule_by_id(post.schedules(), id).channel_name == request.channel_name,
        schedule_by_id(post.schedules(), id).program_title == request.program_title,
        schedule_by_id(post.schedules(), id).scheduled_start == request.scheduled_start,
        schedule_by_id(post.schedules(), id).scheduled_end == request.scheduled_end,
        schedule_by_id(post.schedules(), id).start_padding_sec == request.start_padding_sec,
        schedule_by_id(post.schedules(), id).end_padding_sec == request.end_padding_sec,
        schedule_by_id(post.schedules(), id).status == ScheduleStatus::Scheduled,
        schedule_by_id(post.schedules(), id).created_at == now,
        schedule_by_id(post.schedules(), id).started_at is None,
        schedule_by_id(post.schedules(), id).stream_url == request.stream_url,
{
    let s = post.schedules();
    let last = s.len() - 1;
    assert(s[last] == schedule_of_request(request, id, now));
    assert(s[last].id == id);
    lemma_schedule_by_id_is(s, last);
}

/// Identifies the looked-up source with the matching index.
proof fn lemma_source_lookup(s: Seq<SourceMeta>, i: int)
    requires
        source_ids_unique(s),
        0 <= i < s.len(),
    ensures
        has_source(s, s[i].source_id@),
        source_by_id(s, s[i].source_id@) == s[i],
{
    let sid = s[i].source_id@;
    assert(0 <= i < s.len() && s[i].source_id@ == sid);
    let j = choose|j: int| 0 <= j < s.len() && #[trigger] s[j].source_id@ == sid;
    if j != i {
        assert(s[i].source_id@ != s[j].source_id@);
    }
}

/// Changing or inserting the source `changed` leaves every other
/// source's lookup unchanged.
proof fn lemma_source_lookup_other(
    olds: Seq<SourceMeta>,
    s: Seq<SourceMeta>,
    changed: Seq<char>,
    other: Seq<char>,
)
    requires
        other != changed,
        source_ids_unique(olds),
        s.len() == olds.len() || s.len() == olds.len() + 1,
        forall|j: int| 0 <= j < olds.len() ==> #[trigger] s[j].source_id@ == olds[j].source_id@,
        forall|j: int|
            0 <= j < olds.len() && olds[j].source_id@ != changed ==> #[trigger] s[j] == olds[j],
        s.len() == olds.len() + 1 ==> s[olds.len() as int].source_id@ == changed,
    ensures
        spec_max_connections(s, other) == spec_max_connections(olds, other),
{
    if has_source(olds, other) {
        let j = choose|j: int| 0 <= j < olds.len() && #[trigger] olds[j].source_id@ == other;
        assert(s[j].source_id@ == other);
        assert(has_source(s, other));
        let k = choose|k: int| 0 <= k < s.len() && #[trigger] s[k].source_id@ == other;
        assert(source_by_id(s, other) == s[k]);
        assert(k < olds.len());
        assert(olds[k].source_id@ == other);
        assert(s[k] == olds[k]);
        let k2 = choose|k2: int| 0 <= k2 < olds.len() && #[trigger] olds[k2].source_id@ == other;
        assert(source_by_id(olds, other) == olds[k2]);
        if k2 != k {
            assert(olds[k2].source_id@ != olds[k].source_id@);
        }
    } else {
        if has_source(s, other) {
            let k = choose|k: int| 0 <= k < s.len() && #[trigger] s[k].source_id@ == other;
            if k < olds.len() {
                assert(olds[k].source_id@ == other);
            }
        }
    }
}

/// Identifies the looked-up channel with the matching index.
proof fn lemma_channel_lookup(s: Seq<ChannelUrl>, i: int)
    requires
        channel_ids_unique(s),
        0 <= i < s.len(),
    ensures
        has_channel(s, s[i].channel_id@),
        channel_by_id(s, s[i].channel_id@) == s[i],
{
    let cid = s[i].channel_id@;
    assert(0 <= i < s.len() && s[i].channel_id@ == cid);
    let j = choose|j: int| 0 <= j < s.len() && #[trigger] s[j].channel_id@ == cid;
    if j != i {
        assert(s[i].channel_id@ != s[j].channel_id@);
    }
}

/// Changing or inserting the channel `changed` leaves every other
/// channel's lookup unchanged.
proof fn lemma_channel_lookup_other(
    olds: Seq<ChannelUrl>,
    s: Seq<ChannelUrl>,
    changed: Seq<char>,
    other: Seq<char>,
)
    requires
        other != changed,
        channel_ids_unique(olds),
        s.len() == olds.len() || s.len() == olds.len() + 1,
        forall|j: int| 0 <= j < olds.len() ==> #[trigger] s[j].channel_id@ == olds[j].channel_id@,
        forall|j: int|
            0 <= j < olds.len() && olds[j].channel_id@ != changed ==> #[trigger] s[j] == olds[j],
        s.len() == olds.len() + 1 ==> s[olds.len() as int].channel_id@ == changed,
    ensures
        has_channel(s, other) == has_channel(olds, other),
        has_channel(olds, other) ==> channel_by_id(s, other) == channel_by_id(olds, other),
{
    if has_channel(olds, other) {
        let j = choose|j: int| 0 <= j < olds.len() && #[trigger] olds[j].channel_id@ == other;
        assert(s[j].channel_id@ == other);
        assert(has_channel(s, other));
        let k = choose|k: int| 0 <= k < s.len() && #[trigger] s[k].channel_id@ == other;
        assert(channel_by_id(s, other) == s[k]);
        assert(k < olds.len());
        assert(olds[k].channel_id@ == other);
        assert(s[k] == olds[k]);
        let k2 = choose|k2: int| 0 <= k2 < olds.len() && #[trigger] olds[k2].channel_id@ == other;
        assert(channel_by_id(olds, other) == olds[k2]);
        if k2 != k {
            assert(olds[k2].channel_id@ != olds[k].channel_id@);
        }
    } else {
        if has_channel(s, other) {
            let k = choose|k: int| 0 <= k < s.len() && #[trigger] s[k].channel_id@ == other;
            if k < olds.len() {
                assert(olds[k].channel_id@ == other);
            }
        }
    }
}

/// Sorts recordings by effective end, oldest first; the result is a
/// permutation of the input.
pub fn sort_recordings_oldest_first(input: Vec<Recording>) -> (r: Vec<Recording>)
    ensures
        r@.to_multiset() == input@.to_multiset(),
        sorted_by_effective_end(r@),
        r@.len() == input@.len(),
{
    broadcast use vstd::seq_lib::group_to_multiset_ensures;
    broadcast use vstd::multiset::group_multiset_axioms;

    let mut work = input;
    let mut out: Vec<Recording> = Vec::new();
    proof {
        assert(out@.to_multiset().add(work@.to_multiset()) =~= input@.to_multiset());
    }
    while work.len() > 0
        invariant
            out@.to_multiset().add(work@.to_multiset()) == input@.to_multiset(),
            out@.len() + work@.len() == input@.len(),
            sorted_by_effective_end(out@),
            forall|i: int, j: int|
                0 <= i < out@.len() && 0 <= j < work@.len() ==> #[trigger] out@[i].spec_effective_end()
                    <= #[trigger] work@[j].spec_effective_end(),
        decreases work.len(),
    {
        let mut m: usize = 0;
        let mut k: usize = 1;
        while k < work.len()
            invariant
                0 < work@.len(),
                m < k,
                k <= work@.len(),
                forall|j: int|
                    0 <= j < k ==> work@[m as int].spec_effective_end()
                        <= (#[trigger] work@[j]).spec_effective_end(),
            decreases work@.len() - k,
        {
            if work[k].effective_end() < work[m].effective_end() {
                m = k;
            }
            k += 1;
        }
        let ghost old_work = work@;
        let ghost old_out = out@;
        let x = work.remove(m);
        out.push(x);
        proof {
            vstd::seq_lib::to_multiset_remove(old_work, m as int);
            vstd::seq_lib::to_multiset_build(old_out, x);
            vstd::seq_lib::to_multiset_contains(old_work, x);
            assert(work@.to_multiset() == old_work.to_multiset().remove(x));
            assert(out@.to_multiset() =~= old_out.to_multiset().insert(x));
            assert(old_work.contains(x));
            assert(old_work.to_multiset().count(x) > 0);
            assert(out@.to_multiset().add(work@.to_multiset()) =~= old_out.to_multiset().add(
                old_work.to_multiset(),
            ));
            assert(forall|j: int|
                0 <= j < work@.len() ==> #[trigger] work@[j] == (if j < m {
                    old_work[j]
                } else {
                    old_work[j + 1]
                }));
            assert forall|i: int, j: int|
                0 <= i < out@.len() && 0 <= j < work@.len() implies #[trigger] out@[i].spec_effective_end()
                <= #[trigger] work@[j].spec_effective_end() by {
                if i < old_out.len() {
                    assert(old_out[i].spec_effective_end() <= x.spec_effective_end());
                }
                if j < m {
                    assert(old_work[m as int].spec_effective_end()
                        <= old_work[j].spec_effective_end());
                } else {
                    assert(old_work[m as int].spec_effective_end() <= old_work[j
                        + 1].spec_effective_end());
                }
            }
        }
    }
    proof {
        assert(work@.to_multiset() =~= Multiset::<Recording>::empty());
        assert(out@.to_multiset().add(Multiset::<Recording>::empty()) =~= out@.to_multiset());
    }
    out
}

/// Sorts recordings by effective end, newest first; the result is a
/// permutation of the input.
pub fn sort_recordings_newest_first(input: Vec<Recording>) -> (r: Vec<Recording>)
    ensures
        r@.to_multiset() == input@.to_multiset(),
        sorted_by_effective_end_desc(r@),
        r@.len() == input@.len(),
{
    broadcast use vstd::seq_lib::group_to_multiset_ensures;
    broadcast use vstd::multiset::group_multiset_axioms;

    let mut work = input;
    let mut out: Vec<Recording> = Vec::new();
    proof {
        assert(out@.to_multiset().add(work@.to_multiset()) =~= input@.to_multiset());
    }
    while work.len() > 0
        invariant
            out@.to_multiset().add(work@.to_multiset()) == input@.to_multiset(),
            out@.len() + work@.len() == input@.len(),
            sorted_by_effective_end_desc(out@),
            forall|i: int, j: int|
                0 <= i < out@.len() && 0 <= j < work@.len() ==> #[trigger] out@[i].spec_effective_end()
                    >= #[trigger] work@[j].spec_effective_end(),
        decreases work.len(),
    {
        let mut m: usize = 0;
        let mut k: usize = 1;
        while k < work.len()
            invariant
                0 < work@.len(),
                m < k,
                k <= work@.len(),
                forall|j: int|
                    0 <= j < k ==> work@[m as int].spec_effective_end()
                        >= (#[trigger] work@[j]).spec_effective_end(),
            decreases work@.len() - k,
        {
            if work[k].effective_end() > work[m].effective_end() {
                m = k;
            }
            k += 1;
        }
        let ghost old_work = work@;
        let ghost old_out = out@;
        let x = work.remove(m);
        out.push(x);
        proof {
            vstd::seq_lib::to_multiset_remove(old_work, m as int);
            vstd::seq_lib::to_multiset_build(old_out, x);
            vstd::seq_lib::to_multiset_contains(old_work, x);
            assert(work@.to_multiset() == old_work.to_multiset().remove(x));
            assert(out@.to_multiset() =~= old_out.to_multiset().insert(x));
            assert(old_work.contains(x));
            assert(old_work.to_multiset().count(x) > 0);
            assert(out@.to_multiset().add(work@.to_multiset()) =~= old_out.to_multiset().add(
                old_work.to_multiset(),
            ));
            assert(forall|j: int|
                0 <= j < work@.len() ==> #[trigger] work@[j] == (if j < m {
                    old_work[j]
                } else {
                    old_work[j + 1]
                }));
            assert forall|i: int, j: int|
                0 <= i < out@.len() && 0 <= j < work@.len() implies #[trigger] out@[i].spec_effective_end()
                >= #[trigger] work@[j].spec_effective_end() by {
                if i < old_out.len() {
                    assert(old_out[i].spec_effective_end() >= x.spec_effective_end());
                }
                if j < m {
                    assert(old_work[m as int].spec_effective_end()
                        >= old_work[j].spec_effective_end());
                } else {
                    assert(old_work[m as int].spec_effective_end() >= old_work[j
                        + 1].spec_effective_end());
                }
            }
        }
    }
    proof {
        assert(work@.to_multiset() =~= Multiset::<Recording>::empty());
        assert(out@.to_multiset().add(Multiset::<Recording>::empty()) =~= out@.to_multiset());
    }
    out
}

} // verus!
