//! The conflict checker: interval overlap on a source, its connection
//! limit, and what the viewer is currently watching, composed into one
//! report with a human-readable message.

use vstd::prelude::*;
use vstd::string::{StrSliceExecFns, StringExecFns};

use crate::models::{PlayingStream, Schedule, ScheduleConflict};
use crate::store::{ScheduleStore, conflicts_with, spec_max_connections};
use crate::text::{dec_rep, dec_string, join_with, join_strings};

verus! {

/// The connection limit the checker assumes: the stored one, or a single
/// connection for a source without metadata.
pub open spec fn spec_assumed_limit(limit: Option<i32>) -> int {
    match limit {
        Some(m) => m as int,
        None => 1,
    }
}

/// Whether recording from this source would fight the running player
/// for a connection: something is playing from the same source and the
/// source does not allow more than one connection.
pub open spec fn spec_viewing_conflict(
    playing: PlayingStream,
    limit: Option<i32>,
    source_id: Seq<char>,
) -> bool {
    &&& playing.is_playing
    &&& playing.source_id is Some
    &&& playing.source_id->0@ == source_id
    &&& (limit is None || limit->0 <= 1)
}

/// Decides whether a recording on `source_id` would conflict with what
/// is being watched right now.
pub fn check_viewing_conflict(
    store: &ScheduleStore,
    playing: &PlayingStream,
    source_id: &str,
) -> (r: bool)
    requires
        store.wf(),
    ensures
        r == spec_viewing_conflict(
            *playing,
            spec_max_connections(store.sources(), source_id@),
            source_id@,
        ),
{
    if !playing.is_playing {
        return false;
    }
    let same_source = match &playing.source_id {
        Some(sid) => crate::text::str_eq(sid.as_str(), source_id),
        None => false,
    };
    if !same_source {
        return false;
    }
    match store.get_max_connections(source_id) {
        Some(n) => n <= 1,
        None => true,
    }
}

/// The parts of the conflict message, in fixed order: the overlap
/// count, the connection limit, and the viewing clash — each present
/// exactly when it applies.
pub open spec fn spec_conflict_parts(
    n_overlaps: int,
    would_exceed: bool,
    limit: int,
    viewing: bool,
) -> Seq<Seq<char>> {
    (if n_overlaps > 0 {
        seq![dec_rep(n_overlaps) + " overlapping recording(s)"@]
    } else {
        Seq::<Seq<char>>::empty()
    }) + (if would_exceed {
        seq![
            "connection limit ("@ + dec_rep(
                if limit < 0 {
                    0
                } else {
                    limit
                },
            ) + " max)"@,
        ]
    } else {
        Seq::<Seq<char>>::empty()
    }) + (if viewing {
        seq!["you are currently watching this source"@]
    } else {
        Seq::<Seq<char>>::empty()
    })
}

/// The composed conflict message.
pub open spec fn spec_conflict_message(
    n_overlaps: int,
    would_exceed: bool,
    limit: int,
    viewing: bool,
) -> Seq<char> {
    "Conflict: "@ + join_with(
        spec_conflict_parts(n_overlaps, would_exceed, limit, viewing),
        ", "@,
    )
}

/// Composes the message shown for a conflict.
fn compose_conflict_message(
    n_overlaps: usize,
    would_exceed: bool,
    limit: i32,
    viewing: bool,
) -> (r: String)
    ensures
        r@ == spec_conflict_message(n_overlaps as int, would_exceed, limit as int, viewing),
{
    let mut parts: Vec<String> = Vec::new();
    if n_overlaps > 0 {
        let mut p = dec_string(n_overlaps as u64);
        p.append(" overlapping recording(s)");
        parts.push(p);
    }
    if would_exceed {
        let mut p = String::from_str("connection limit (");
        let clamped: u64 = if limit < 0 {
            0
        } else {
            limit as u64
        };
        let num = dec_string(clamped);
        p.append(num.as_str());
        p.append(" max)");
        parts.push(p);
    }
    if viewing {
        parts.push(String::from_str("you are currently watching this source"));
    }
    proof {
        assert(parts@.map_values(|p: String| p@) =~= spec_conflict_parts(
            n_overlaps as int,
            would_exceed,
            limit as int,
            viewing,
        ));
    }
    let joined = join_strings(&parts, ", ");
    let mut out = String::from_str("Conflict: ");
    out.append(joined.as_str());
    proof {
        assert(out@ =~= spec_conflict_message(
            n_overlaps as int,
            would_exceed,
            limit as int,
            viewing,
        ));
    }
    out
}

/// The full conflict check for a proposed recording window: the
/// overlapping schedules on the source, whether they exhaust the
/// source's connection limit, whether the viewer is already using the
/// source, and — when any of those holds — the composed message.
pub fn check_schedule_conflicts(
    store: &ScheduleStore,
    playing: &PlayingStream,
    source_id: &str,
    start: i64,
    end: i64,
) -> (r: ScheduleConflict)
    requires
        store.wf(),
    ensures
        ({
            let overlaps = store.schedules().filter(
                |s: Schedule| conflicts_with(s, source_id@, start, end),
            );
            let limit = spec_assumed_limit(spec_max_connections(store.sources(), source_id@));
            let would_exceed = overlaps.len() >= limit;
            let viewing = spec_viewing_conflict(
                *playing,
                spec_max_connections(store.sources(), source_id@),
                source_id@,
            );
            let has = overlaps.len() > 0 || would_exceed || viewing;
            &&& r.conflicts@ == overlaps
            &&& r.has_conflict == has
            &&& (has ==> r.message is Some && r.message->0@ == spec_conflict_message(
                overlaps.len() as int,
                would_exceed,
                (if spec_max_connections(store.sources(), source_id@) is Some {
                    spec_max_connections(store.sources(), source_id@)->0 as int
                } else {
                    1
                }),
                viewing,
            ))
            &&& (has == false ==> r.message is None)
        }),
{
    let (conflicts, max_connections) = store.check_conflicts(source_id, start, end);
    let limit: i32 = match max_connections {
        Some(m) => m,
        None => 1,
    };
    let would_exceed = if limit <= 0 {
        true
    } else {
        conflicts.len() >= limit as usize
    };
    let viewing = check_viewing_conflict(store, playing, source_id);
    let has_conflict = conflicts.len() > 0 || would_exceed || viewing;
    let message = if has_conflict {
        Some(compose_conflict_message(conflicts.len(), would_exceed, limit, viewing))
    } else {
        None
    };
    ScheduleConflict { has_conflict, conflicts, message }
}

} // verus!
