//! Storage reclamation: the three eviction passes over the completed
//! recordings, gentlest first.
//!
//! Each pass is a planning function from the recordings (oldest effective
//! end first) and the disk numbers to the exact list of recordings to
//! delete; the surrounding application removes the media file, then the
//! thumbnail, then the store row, and skips a row whose file could not be
//! deleted. Age eviction honours the retention tag and the configured
//! retention days; quota eviction deletes eligible recordings oldest
//! first until enough bytes are freed and never one more; emergency
//! eviction bluntly takes the oldest half of everything, the tag
//! ignored.

use vstd::prelude::*;

use crate::models::Recording;
use crate::store::lemma_filter_push;
use crate::text::str_eq;

verus! {

/// Disk usage beyond this percentage triggers the emergency pass.
pub const EMERGENCY_USAGE_PERCENT: u8 = 90;

/// Seconds in a day; retention days are converted with it.
pub const SECONDS_PER_DAY: i64 = 86400;

/// What the disk-usage probe reports for the storage path.
#[derive(Debug, Clone, Copy, PartialEq, Eq, Structural)]
pub struct DiskUsage {
    pub total_bytes: u64,
    pub available_bytes: u64,
    pub used_bytes: u64,
}

impl DiskUsage {
    /// A consistent probe report: the used and available parts make up
    /// the whole.
    pub open spec fn wf(self) -> bool {
        self.available_bytes <= self.total_bytes && self.used_bytes == self.total_bytes
            - self.available_bytes
    }
}

/// Whether usage lies strictly above `percent` of the disk.
pub open spec fn usage_exceeds(usage: DiskUsage, percent: int) -> bool {
    usage.used_bytes * 100 > usage.total_bytes * percent
}

/// Decides `usage_exceeds` without losing precision.
pub fn usage_exceeds_percent(usage: &DiskUsage, percent: u8) -> (r: bool)
    ensures
        r == usage_exceeds(*usage, percent as int),
{
    proof {
        assert((usage.used_bytes as int) * 100 <= 0xFFFF_FFFF_FFFF_FFFF * 100)
            by (nonlinear_arith)
        requires
            usage.used_bytes <= 0xFFFF_FFFF_FFFF_FFFFu64,
        ;
        assert((usage.total_bytes as int) * (percent as int) <= 0xFFFF_FFFF_FFFF_FFFF * 255)
            by (nonlinear_arith)
        requires
            usage.total_bytes <= 0xFFFF_FFFF_FFFF_FFFFu64 && percent <= 255,
        ;
    }
    (usage.used_bytes as u128) * 100 > (usage.total_bytes as u128) * (percent as u128)
}

/// The bytes the quota pass must free to bring usage back to
/// `target_percent`: what lies above the target line, zero when usage is
/// already at or under it.
pub open spec fn spec_bytes_to_free(usage: DiskUsage, target_percent: int) -> int {
    let target_bytes = usage.total_bytes * target_percent / 100;
    if usage.used_bytes > target_bytes {
        usage.used_bytes - target_bytes
    } else {
        0
    }
}

/// How many bytes the quota pass must free for the target percentage.
pub fn bytes_to_free(usage: &DiskUsage, target_percent: u8) -> (r: u64)
    requires
        target_percent <= 100,
    ensures
        r == spec_bytes_to_free(*usage, target_percent as int),
{
    proof {
        assert((usage.total_bytes as int) * (target_percent as int) <= 0xFFFF_FFFF_FFFF_FFFF
            * 100) by (nonlinear_arith)
            requires
                usage.total_bytes <= 0xFFFF_FFFF_FFFF_FFFFu64 && target_percent <= 100,
        ;
        assert((usage.total_bytes as int) * (target_percent as int) / 100
            <= usage.total_bytes as int) by (nonlinear_arith)
            requires
                0 <= usage.total_bytes && 0 <= target_percent <= 100,
        ;
    }
    let target_bytes_wide = (usage.total_bytes as u128) * (target_percent as u128) / 100;
    let target_bytes = target_bytes_wide as u64;
    if usage.used_bytes > target_bytes {
        usage.used_bytes - target_bytes
    } else {
        0
    }
}

/// The cutoff instant of the age pass: recordings whose effective end
/// precedes `now` by more than the retention days are eligible.
pub fn age_cutoff(now: i64, keep_days: i32) -> (r: i64)
    requires
        0 <= now <= crate::models::MAX_INSTANT,
        0 <= keep_days,
    ensures
        r == now - keep_days * SECONDS_PER_DAY,
{
    now - (keep_days as i64) * SECONDS_PER_DAY
}

/// Whether the age pass deletes a recording: it ended at or before the
/// cutoff and its retention tag does not exempt it.
pub open spec fn age_evictable(r: Recording, cutoff: int) -> bool {
    r.spec_effective_end() <= cutoff && r.auto_delete_policy@ != "never"@
}

/// The recordings the age pass deletes, in the order given: those older
/// than the cutoff and not tagged to be kept.
pub fn age_eviction_plan(recordings: &Vec<Recording>, cutoff: i64) -> (r: Vec<Recording>)
    ensures
        r@ == recordings@.filter(|rec: Recording| age_evictable(rec, cutoff as int)),
{
    let ghost pred = |rec: Recording| age_evictable(rec, cutoff as int);
    let n = recordings.len();
    let mut picked: Vec<Recording> = Vec::new();
    let mut i: usize = 0;
    proof {
        assert(recordings@.subrange(0, 0).filter(pred) =~= Seq::<Recording>::empty());
    }
    while i < n
        invariant
            n == recordings@.len(),
            i <= n,
            pred == (|rec: Recording| age_evictable(rec, cutoff as int)),
            picked@ == recordings@.subrange(0, i as int).filter(pred),
        decreases n - i,
    {
        let ghost prefix = recordings@.subrange(0, i as int);
        proof {
            assert(recordings@.subrange(0, i as int + 1) =~= prefix.push(recordings@[i as int]));
            lemma_filter_push(prefix, pred, recordings@[i as int]);
        }
        let rec = &recordings[i];
        if rec.effective_end() <= cutoff && !str_eq(rec.auto_delete_policy.as_str(), "never") {
            picked.push(recordings[i].clone());
        }
        i += 1;
    }
    proof {
        assert(recordings@.subrange(0, n as int) =~= recordings@);
    }
    picked
}

/// The bytes deleting these recordings frees: the sum of their known
/// sizes.
pub open spec fn spec_freed_bytes(s: Seq<Recording>) -> int
    decreases s.len(),
{
    if s.len() == 0 {
        0
    } else {
        spec_freed_bytes(s.drop_last()) + spec_size_of(s.last())
    }
}

/// A recording's known size; zero while none was measured.
pub open spec fn spec_size_of(r: Recording) -> int {
    match r.size_bytes {
        Some(b) => b as int,
        None => 0,
    }
}

fn size_of(rec: &Recording) -> (r: i64)
    requires
        rec.wf(),
    ensures
        r == spec_size_of(*rec),
        0 <= r,
{
    match rec.size_bytes {
        Some(b) => b,
        None => 0,
    }
}

/// What the quota pass deletes from candidates ordered oldest first:
/// walk past exempt recordings, take eligible ones while bytes are still
/// needed, stop the moment enough are freed.
pub open spec fn spec_quota_plan(s: Seq<Recording>, needed: int) -> Seq<Recording>
    decreases s.len(),
{
    if needed <= 0 || s.len() == 0 {
        Seq::empty()
    } else if s.first().auto_delete_policy@ == "never"@ {
        spec_quota_plan(s.drop_first(), needed)
    } else {
        seq![s.first()] + spec_quota_plan(s.drop_first(), needed - spec_size_of(s.first()))
    }
}

/// The recordings the quota pass deletes: eligible candidates in the
/// order given, exactly until `needed_bytes` are freed or none are left.
pub fn quota_eviction_plan(candidates: &Vec<Recording>, needed_bytes: u64) -> (r: Vec<Recording>)
    requires
        forall|i: int| 0 <= i < candidates@.len() ==> (#[trigger] candidates@[i]).wf(),
    ensures
        r@ == spec_quota_plan(candidates@, needed_bytes as int),
{
    let n = candidates.len();
    let mut picked: Vec<Recording> = Vec::new();
    let mut freed: u128 = 0;
    let mut i: usize = 0;
    proof {
        assert(candidates@.skip(0) =~= candidates@);
        assert(picked@ + spec_quota_plan(candidates@, needed_bytes as int) =~= spec_quota_plan(
            candidates@,
            needed_bytes as int,
        ));
    }
    while i < n && freed < needed_bytes as u128
        invariant
            n == candidates@.len(),
            forall|k: int| 0 <= k < candidates@.len() ==> (#[trigger] candidates@[k]).wf(),
            i <= n,
            freed == spec_freed_bytes(picked@),
            freed <= i as u128 * (i64::MAX as u128),
            picked@ + spec_quota_plan(candidates@.skip(i as int), needed_bytes - freed)
                == spec_quota_plan(candidates@, needed_bytes as int),
        decreases n - i,
    {
        let ghost rest = candidates@.skip(i as int);
        proof {
            assert(rest.len() > 0);
            assert(rest.first() == candidates@[i as int]);
            assert(rest.drop_first() =~= candidates@.skip(i as int + 1));
        }
        let rec = &candidates[i];
        if str_eq(rec.auto_delete_policy.as_str(), "never") {
            proof {
                assert(spec_quota_plan(rest, needed_bytes - freed) == spec_quota_plan(
                    rest.drop_first(),
                    needed_bytes - freed,
                ));
            }
        } else {
            let ghost old_picked = picked@;
            let size = size_of(rec);
            picked.push(candidates[i].clone());
            freed = freed + size as u128;
            proof {
                assert(picked@.drop_last() =~= old_picked);
                assert(picked@.last() == candidates@[i as int]);
                assert(spec_quota_plan(rest, needed_bytes - spec_freed_bytes(old_picked))
                    == seq![rest.first()] + spec_quota_plan(
                    rest.drop_first(),
                    needed_bytes - spec_freed_bytes(old_picked) - spec_size_of(rest.first()),
                ));
                assert(picked@ + spec_quota_plan(
                    candidates@.skip(i as int + 1),
                    needed_bytes - freed,
                ) =~= old_picked + spec_quota_plan(rest, needed_bytes - spec_freed_bytes(
                    old_picked,
                )));
                assert((i + 1) as u128 * (i64::MAX as u128) >= freed) by (nonlinear_arith)
                    requires
                        freed <= i as u128 * (i64::MAX as u128) + (i64::MAX as u128),
                ;
            }
        }
        i += 1;
    }
    proof {
        if freed >= needed_bytes as u128 {
            assert(spec_quota_plan(candidates@.skip(i as int), needed_bytes - freed)
                =~= Seq::<Recording>::empty());
        } else {
            assert(i == n);
            assert(candidates@.skip(i as int).len() == 0);
            assert(spec_quota_plan(candidates@.skip(i as int), needed_bytes - freed)
                =~= Seq::<Recording>::empty());
        }
        assert(picked@ + Seq::<Recording>::empty() =~= picked@);
    }
    picked
}

/// The quota pass frees only what it must: it deletes only eligible
/// recordings, in the order offered; it stops the moment the freed bytes
/// reach what is needed, so dropping its last deletion would leave the
/// target unmet; and when it runs out, it has taken exactly the eligible
/// candidates.
pub proof fn lemma_quota_plan_no_over_deletion(s: Seq<Recording>, needed: int)
    requires
        forall|i: int| 0 <= i < s.len() ==> (#[trigger] s[i]).wf(),
    ensures
        ({
            let p = spec_quota_plan(s, needed);
            &&& (p.len() > 0 ==> spec_freed_bytes(p.drop_last()) < needed)
            &&& (spec_freed_bytes(p) < needed ==> p == s.filter(
                |r: Recording| r.auto_delete_policy@ != "never"@,
            ))
            &&& forall|i: int| 0 <= i < p.len() ==> (#[trigger] p[i]).auto_delete_policy@ != "never"@
        }),
    decreases s.len(),
{
    reveal(Seq::filter);
    let p = spec_quota_plan(s, needed);
    if needed <= 0 || s.len() == 0 {
        if s.len() == 0 {
            assert(s.filter(|r: Recording| r.auto_delete_policy@ != "never"@) =~= Seq::<
                Recording,
            >::empty());
        } else {
            if spec_freed_bytes(p) < needed {
            }
        }
    } else {
        let rest = s.drop_first();
        assert forall|i: int| 0 <= i < rest.len() implies (#[trigger] rest[i]).wf() by {
            assert(rest[i] == s[i + 1]);
        }
        lemma_filter_first(s, |r: Recording| r.auto_delete_policy@ != "never"@);
        if s.first().auto_delete_policy@ == "never"@ {
            lemma_quota_plan_no_over_deletion(rest, needed);
        } else {
            let sz = spec_size_of(s.first());
            assert(0 <= sz);
            lemma_quota_plan_no_over_deletion(rest, needed - sz);
            let q = spec_quota_plan(rest, needed - sz);
            assert(p == seq![s.first()] + q);
            lemma_freed_cons(s.first(), q);
            if q.len() == 0 {
                assert(p.drop_last() =~= Seq::<Recording>::empty());
                assert(spec_freed_bytes(p.drop_last()) == 0);
            } else {
                assert(p.drop_last() =~= seq![s.first()] + q.drop_last());
                lemma_freed_cons(s.first(), q.drop_last());
            }
            if spec_freed_bytes(p) < needed {
                assert(spec_freed_bytes(q) < needed - sz);
                assert(q == rest.filter(|r: Recording| r.auto_delete_policy@ != "never"@));
                assert(p =~= s.filter(|r: Recording| r.auto_delete_policy@ != "never"@));
            }
            assert forall|i: int|
                0 <= i < p.len() implies (#[trigger] p[i]).auto_delete_policy@ != "never"@ by {
                if i > 0 {
                    assert(p[i] == q[i - 1]);
                }
            }
        }
    }
}

/// Prepending one recording adds its size to the freed bytes.
proof fn lemma_freed_cons(x: Recording, t: Seq<Recording>)
    ensures
        spec_freed_bytes(seq![x] + t) == spec_size_of(x) + spec_freed_bytes(t),
    decreases t.len(),
{
    if t.len() == 0 {
        assert(seq![x] + t =~= seq![x]);
        assert(spec_freed_bytes(seq![x]) == spec_freed_bytes(seq![x].drop_last()) + spec_size_of(
            x,
        ));
        assert(seq![x].drop_last() =~= Seq::<Recording>::empty());
    } else {
        assert((seq![x] + t).drop_last() =~= seq![x] + t.drop_last());
        assert((seq![x] + t).last() == t.last());
        lemma_freed_cons(x, t.drop_last());
    }
}

/// How `filter` treats the first element.
proof fn lemma_filter_first(s: Seq<Recording>, pred: spec_fn(Recording) -> bool)
    requires
        s.len() > 0,
    ensures
        s.filter(pred) == if pred(s.first()) {
            seq![s.first()] + s.drop_first().filter(pred)
        } else {
            s.drop_first().filter(pred)
        },
    decreases s.len(),
{
    reveal(Seq::filter);
    if s.len() == 1 {
        assert(s.drop_last() =~= Seq::<Recording>::empty());
        assert(s.drop_first() =~= Seq::<Recording>::empty());
        assert(s.last() == s.first());
        if pred(s.first()) {
            assert(s.filter(pred) =~= seq![s.first()] + s.drop_first().filter(pred));
        }
    } else {
        let body = s.drop_last();
        lemma_filter_first(body, pred);
        assert(body.first() == s.first());
        assert(body.drop_first() =~= s.drop_first().drop_last());
        lemma_filter_first_helper(s, pred);
    }
}

/// The inductive step of `lemma_filter_first`: pushing the last element
/// commutes with splitting off the first.
proof fn lemma_filter_first_helper(s: Seq<Recording>, pred: spec_fn(Recording) -> bool)
    requires
        s.len() >= 2,
        s.drop_last().filter(pred) == (if pred(s.first()) {
            seq![s.first()] + s.drop_last().drop_first().filter(pred)
        } else {
            s.drop_last().drop_first().filter(pred)
        }),
    ensures
        s.filter(pred) == if pred(s.first()) {
            seq![s.first()] + s.drop_first().filter(pred)
        } else {
            s.drop_first().filter(pred)
        },
{
    reveal(Seq::filter);
    let t = s.drop_first();
    assert(t.len() > 0);
    assert(t.drop_last() =~= s.drop_last().drop_first());
    assert(t.last() == s.last());
    assert(s.filter(pred) == if pred(s.last()) {
        s.drop_last().filter(pred).push(s.last())
    } else {
        s.drop_last().filter(pred)
    });
    assert(t.filter(pred) == if pred(t.last()) {
        t.drop_last().filter(pred).push(t.last())
    } else {
        t.drop_last().filter(pred)
    });
    if pred(s.first()) {
        if pred(s.last()) {
            assert((seq![s.first()] + s.drop_last().drop_first().filter(pred)).push(s.last())
                =~= seq![s.first()] + s.drop_last().drop_first().filter(pred).push(s.last()));
        }
    }
}

/// What the emergency pass deletes: the oldest half of everything it is
/// offered, the retention tag ignored.
pub fn emergency_eviction_plan(candidates: &Vec<Recording>) -> (r: Vec<Recording>)
    ensures
        r@ == candidates@.subrange(0, candidates@.len() as int / 2),
{
    let n = candidates.len();
    let half = n / 2;
    let mut picked: Vec<Recording> = Vec::new();
    let mut i: usize = 0;
    proof {
        assert(picked@ =~= candidates@.subrange(0, 0));
    }
    while i < half
        invariant
            n == candidates@.len(),
            half == n as int / 2,
            i <= half,
            picked@ == candidates@.subrange(0, i as int),
        decreases half - i,
    {
        picked.push(candidates[i].clone());
        proof {
            assert(picked@ =~= candidates@.subrange(0, i as int + 1));
        }
        i += 1;
    }
    picked
}

} // verus!
