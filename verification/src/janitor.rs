//! The storage janitor's settings and bookkeeping. Each tick it removes
//! files whose presigned upload was never completed (dangling intent: the
//! stored object first, then the database row) and re-queues files stuck in
//! processing. The I/O happens outside; here are the thresholds, the order
//! of the deletions and the counting.

use vstd::prelude::*;
use crate::numbers::{parse_i64, parse_i64_spec};
use crate::storage::{opt_str_view, setting_u64, setting_u64_spec};
use crate::jobs::{JobType, JobTypeView};
use crate::text::chars_of;

verus! {

/// What one janitor pass did.
#[derive(Debug, Clone, Copy, PartialEq, Eq, Structural)]
pub struct JanitorSummary {
    pub swept_dangling: usize,
    pub requeued_stale: usize,
    pub errors: usize,
}

impl Default for JanitorSummary {
    fn default() -> (s: Self)
        ensures
            s.swept_dangling == 0 && s.requeued_stale == 0 && s.errors == 0,
    {
        JanitorSummary { swept_dangling: 0, requeued_stale: 0, errors: 0 }
    }
}

impl JanitorSummary {
    /// The summary of a pass that swept `swept_dangling` dangling uploads
    /// and re-queued `requeued_stale` stuck files.
    pub fn of_pass(swept_dangling: usize, requeued_stale: usize) -> (s: Self)
        ensures
            s.swept_dangling == swept_dangling,
            s.requeued_stale == requeued_stale,
            s.errors == 0,
    {
        JanitorSummary { swept_dangling, requeued_stale, errors: 0 }
    }

    /// Whether the pass is worth reporting: it did something or met errors.
    pub fn is_noteworthy(&self) -> (b: bool)
        ensures
            b == (self.errors > 0 || self.swept_dangling > 0 || self.requeued_stale > 0),
    {
        self.errors > 0 || self.swept_dangling > 0 || self.requeued_stale > 0
    }
}

/// A signed numeric setting: the value when it parses as an `i64`, else
/// `default`.
pub open spec fn setting_i64_spec(raw: Option<Seq<char>>, default: i64) -> i64 {
    match raw {
        Some(s) => match parse_i64_spec(s) {
            Some(v) => v,
            None => default,
        },
        None => default,
    }
}

/// `raw.parse::<i64>()`, or `default` when absent or not a number.
pub fn setting_i64(raw: Option<&str>, default: i64) -> (r: i64)
    ensures
        r == setting_i64_spec(opt_str_view(raw), default),
{
    match raw {
        Some(s) => {
            let cs = chars_of(s);
            match parse_i64(cs.as_slice()) {
                Some(v) => v,
                None => default,
            }
        },
        None => default,
    }
}

/// Seconds after which a pending upload counts as dangling: the setting,
/// by default twice the presigned upload lifetime (at most `i64::MAX`), and
/// never less than 30 minutes.
pub open spec fn dangling_threshold_spec(upload_ttl: u64, raw: Option<Seq<char>>) -> i64 {
    let twice = upload_ttl * 2;
    let default = if twice > i64::MAX {
        i64::MAX
    } else {
        twice as i64
    };
    let v = setting_i64_spec(raw, default);
    if v < 1800 {
        1800
    } else {
        v
    }
}

/// Without a setting, a pending upload is treated as dangling only after
/// at least twice the presigned upload lifetime, and never before 30
/// minutes: an upload whose URL is still valid is not swept.
pub proof fn lemma_dangling_default_outlives_upload_url(upload_ttl: u64)
    requires
        upload_ttl * 2 <= i64::MAX,
    ensures
        dangling_threshold_spec(upload_ttl, None) >= 2 * upload_ttl,
        dangling_threshold_spec(upload_ttl, None) >= 1800,
{
}

/// Whatever the setting says, the dangling threshold is at least 30
/// minutes.
pub proof fn lemma_dangling_threshold_floor(upload_ttl: u64, raw: Option<Seq<char>>)
    ensures
        dangling_threshold_spec(upload_ttl, raw) >= 1800,
{
}

/// The janitor's schedule and thresholds.
#[derive(Debug, Clone, Copy)]
pub struct StorageJanitor {
    /// How often the janitor wakes up, in seconds.
    pub interval_secs: u64,
    /// Files pending for longer than this (seconds) are dangling uploads.
    pub dangling_intent_threshold_secs: i64,
    /// Files processing for longer than this (seconds) are re-queued.
    pub stale_processing_threshold_secs: i64,
}

impl StorageJanitor {
    pub fn new(interval_secs: u64, dangling_intent_threshold_secs: i64, stale_processing_threshold_secs: i64) -> (j:
        Self)
        ensures
            j.interval_secs == interval_secs,
            j.dangling_intent_threshold_secs == dangling_intent_threshold_secs,
            j.stale_processing_threshold_secs == stale_processing_threshold_secs,
    {
        StorageJanitor { interval_secs, dangling_intent_threshold_secs, stale_processing_threshold_secs }
    }

    /// The janitor configured by its settings: the interval (300 s by
    /// default), the dangling threshold (see `dangling_threshold_spec`) and
    /// the stale-processing threshold (1800 s by default).
    pub fn from_settings(
        upload_ttl_secs: u64,
        interval: Option<&str>,
        dangling_threshold: Option<&str>,
        stale_threshold: Option<&str>,
    ) -> (j: Self)
        requires
            upload_ttl_secs * 2 <= u64::MAX,
        ensures
            j.interval_secs == setting_u64_spec(opt_str_view(interval), 300),
            j.dangling_intent_threshold_secs == dangling_threshold_spec(
                upload_ttl_secs,
                opt_str_view(dangling_threshold),
            ),
            j.stale_processing_threshold_secs == setting_i64_spec(opt_str_view(stale_threshold), 1800),
    {
        let twice = upload_ttl_secs * 2;
        let default: i64 = if twice > 0x7fff_ffff_ffff_ffffu64 {
            0x7fff_ffff_ffff_ffffi64
        } else {
            twice as i64
        };
        let v = setting_i64(dangling_threshold, default);
        let dangling = if v < 1800 {
            1800
        } else {
            v
        };
        StorageJanitor {
            interval_secs: setting_u64(interval, 300),
            dangling_intent_threshold_secs: dangling,
            stale_processing_threshold_secs: setting_i64(stale_threshold, 1800),
        }
    }
}

/// The number of `true` entries of `s`.
pub open spec fn count_true(s: Seq<bool>) -> nat
    decreases s.len(),
{
    if s.len() == 0 {
        0
    } else {
        count_true(s.drop_last()) + if s.last() {
            1nat
        } else {
            0nat
        }
    }
}

pub proof fn lemma_count_true_le(s: Seq<bool>)
    ensures
        count_true(s) <= s.len(),
    decreases s.len(),
{
    if s.len() > 0 {
        lemma_count_true_le(s.drop_last());
    }
}

/// The number of files re-queued in a stale-processing sweep: those whose
/// re-queueing succeeded.
pub fn count_requeued(outcomes: &Vec<bool>) -> (n: usize)
    ensures
        n == count_true(outcomes@),
{
    let mut n: usize = 0;
    let mut k: usize = 0;
    while k < outcomes.len()
        invariant
            k <= outcomes@.len(),
            n == count_true(outcomes@.take(k as int)),
            n <= k,
        decreases outcomes@.len() - k,
    {
        proof {
            assert(outcomes@.take(k + 1).drop_last() =~= outcomes@.take(k as int));
            lemma_count_true_le(outcomes@.take(k as int));
        }
        if outcomes[k] {
            n = n + 1;
        }
        k = k + 1;
    }
    proof {
        assert(outcomes@.take(outcomes@.len() as int) =~= outcomes@);
    }
    n
}

/// The result of a stale-processing sweep: nothing when the lookup of
/// stale files failed (`None`), else the number of files whose re-queueing
/// succeeded.
pub fn requeued_after_lookup(outcomes: Option<&Vec<bool>>) -> (n: usize)
    ensures
        n == match outcomes {
            None => 0,
            Some(v) => count_true(v@),
        },
{
    match outcomes {
        None => 0,
        Some(v) => count_requeued(v),
    }
}

/// The job a stale file is re-queued with: processing of the file.
pub fn requeue_job_type() -> (t: JobType)
    ensures
        t@ == JobTypeView::FileProcessing,
{
    JobType::FileProcessing
}

/// The next step of a dangling-upload sweep.
#[derive(Debug, Clone, Copy, PartialEq, Eq, Structural)]
pub enum SweepAction {
    /// Delete the stored object of file `i`.
    DeleteObject(usize),
    /// Delete the database row of file `i`.
    DeleteRow(usize),
    /// The sweep is over; this many files were removed.
    Finished(usize),
}

/// A sweep over `total` dangling uploads. A file's row is deleted only
/// once its stored object is; a file counts as swept when both deletions
/// succeeded. A failure at either step moves on to the next file.
pub struct DanglingSweep {
    total: usize,
    next: usize,
    swept: usize,
    awaiting_row: bool,
    /// For each file done so far, whether it was swept.
    outcomes: Ghost<Seq<bool>>,
}

impl DanglingSweep {
    /// For each file done so far, whether it was swept.
    pub closed spec fn done(&self) -> Seq<bool> {
        self.outcomes@
    }

    /// Number of files in the sweep.
    pub closed spec fn total_spec(&self) -> nat {
        self.total as nat
    }

    /// Whether the object of the current file was deleted and its row is
    /// being deleted.
    pub closed spec fn awaiting_row_spec(&self) -> bool {
        self.awaiting_row
    }

    pub closed spec fn wf(&self) -> bool {
        &&& self.next == self.outcomes@.len()
        &&& self.next <= self.total
        &&& self.swept == count_true(self.outcomes@)
        &&& self.awaiting_row ==> self.next < self.total
    }

    /// A sweep over `total` files and its first action.
    pub fn start(total: usize) -> (r: (Self, SweepAction))
        ensures
            r.0.wf(),
            r.0.done() == Seq::<bool>::empty(),
            r.0.total_spec() == total,
            !r.0.awaiting_row_spec(),
            r.1 == (if total == 0 {
                SweepAction::Finished(0)
            } else {
                SweepAction::DeleteObject(0)
            }),
    {
        let s = DanglingSweep { total, next: 0, swept: 0, awaiting_row: false, outcomes: Ghost(Seq::empty()) };
        let a = if total == 0 {
            SweepAction::Finished(0)
        } else {
            SweepAction::DeleteObject(0)
        };
        (s, a)
    }

    /// The sweep after the lookup of dangling uploads: `found` is the
    /// number found, or `None` when the lookup failed; a failed lookup
    /// sweeps nothing and finishes at once with 0.
    pub fn after_lookup(found: Option<usize>) -> (r: (Self, SweepAction))
        ensures
            r.0.wf(),
            r.0.done() == Seq::<bool>::empty(),
            !r.0.awaiting_row_spec(),
            match found {
                None => r.0.total_spec() == 0 && r.1 == SweepAction::Finished(0),
                Some(total) => r.0.total_spec() == total && r.1 == (if total == 0 {
                    SweepAction::Finished(0)
                } else {
                    SweepAction::DeleteObject(0)
                }),
            },
    {
        match found {
            None => DanglingSweep::start(0),
            Some(total) => DanglingSweep::start(total),
        }
    }

    /// Records the outcome of the last action (`ok` when the deletion
    /// succeeded) and returns the next one.
    pub fn on_outcome(&mut self, ok: bool) -> (a: SweepAction)
        requires
            old(self).wf(),
            old(self).done().len() < old(self).total_spec(),
        ensures
            final(self).wf(),
            final(self).total_spec() == old(self).total_spec(),
            !old(self).awaiting_row_spec() && ok ==> final(self).done() == old(self).done()
                && final(self).awaiting_row_spec() && a == SweepAction::DeleteRow(
                old(self).done().len() as usize,
            ),
            !old(self).awaiting_row_spec() && !ok ==> final(self).done() == old(self).done().push(false)
                && !final(self).awaiting_row_spec(),
            old(self).awaiting_row_spec() ==> final(self).done() == old(self).done().push(ok)
                && !final(self).awaiting_row_spec(),
            !final(self).awaiting_row_spec() ==> a == (if final(self).done().len() < final(self).total_spec() {
                SweepAction::DeleteObject(final(self).done().len() as usize)
            } else {
                SweepAction::Finished(count_true(final(self).done()) as usize)
            }),
    {
        if !self.awaiting_row && ok {
            self.awaiting_row = true;
            return SweepAction::DeleteRow(self.next);
        }
        let swept_now = self.awaiting_row && ok;
        proof {
            lemma_count_true_le(self.outcomes@);
            assert(self.outcomes@.push(swept_now).drop_last() =~= self.outcomes@);
        }
        if swept_now {
            self.swept = self.swept + 1;
        }
        self.outcomes = Ghost(self.outcomes@.push(swept_now));
        self.next = self.next + 1;
        self.awaiting_row = false;
        if self.next < self.total {
            SweepAction::DeleteObject(self.next)
        } else {
            SweepAction::Finished(self.swept)
        }
    }
}

} // verus!
