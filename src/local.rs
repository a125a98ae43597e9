//! The agent's counter store: a staging area of hourly counts not yet merged
//! into the hub, and the summary that the hub returned at the last commit.
//!
//! Each method that changes the store is one transaction: it either does all
//! that its contract says or, where it returns an error, leaves the store as
//! it was.
use vstd::prelude::*;

use crate::counts::{
    add_at, add_to_hour, copy_rows, floor_hour, hour_floor, lemma_parts_le_total,
    lemma_prefix_le_total, lemma_prefix_step, lemma_push, merge_fits, merge_rows, merged, stats_at,
    stats_since, stats_total, stats_view, sum_counts, sum_since, well_formed_rows,
    KeystrokesStats, StoreError, Timestamp, SECONDS_PER_HOUR,
};
use crate::types::{Summary, SynchronizeRequest};

verus! {

/// The agent's counters.
pub struct LocalStore {
    staging: Vec<(Timestamp, u32)>,
    summary: Option<Summary>,
}

/// The global count that a summary accounts for (zero without one).
pub open spec fn summary_global(s: Option<Summary>) -> nat {
    match s {
        Some(x) => x.global_count as nat,
        None => 0,
    }
}

/// The count of day `today` that a summary accounts for (zero without one,
/// or where it was made for another day).
pub open spec fn summary_today(s: Option<Summary>, today: int) -> nat {
    match s {
        Some(x) => if x.today_timestamp == today {
            x.today_count as nat
        } else {
            0
        },
        None => 0,
    }
}

/// The largest count of a day that a summary accounts for.
pub open spec fn summary_today_any(s: Option<Summary>) -> nat {
    match s {
        Some(x) => x.today_count as nat,
        None => 0,
    }
}

/// Rows and summary that make a well-formed store: one positive row per
/// hour, and every count the store reports fits in a `u64`.
pub open spec fn local_parts_valid(rows: Seq<(i64, u32)>, summary: Option<Summary>) -> bool {
    &&& well_formed_rows(rows)
    &&& stats_total(rows) + summary_global(summary) <= u64::MAX
    &&& stats_total(rows) + summary_today_any(summary) <= u64::MAX
}

impl LocalStore {
    /// The rows of the staging area.
    pub closed spec fn staging_rows(&self) -> Seq<(i64, u32)> {
        self.staging@
    }

    /// The stored summary.
    pub closed spec fn summary_spec(&self) -> Option<Summary> {
        self.summary
    }

    /// The staging area as a map from hour to count.
    pub open spec fn staged(&self) -> Map<int, nat> {
        stats_view(self.staging_rows())
    }

    /// Both stores hold the same rows, in the same order, and the same summary.
    pub open spec fn same_state(&self, other: LocalStore) -> bool {
        self.staging_rows() == other.staging_rows() && self.summary_spec() == other.summary_spec()
    }

    pub open spec fn wf(&self) -> bool {
        local_parts_valid(self.staging_rows(), self.summary_spec())
    }

    /// Every keystroke known here: the staging area plus the summary's global count.
    pub open spec fn global_count_spec(&self) -> nat {
        stats_total(self.staging_rows()) + summary_global(self.summary_spec())
    }

    /// The keystrokes of the day that starts at `today`.
    pub open spec fn today_count_spec(&self, today: int) -> nat {
        stats_since(self.staging_rows(), today) + summary_today(self.summary_spec(), today)
    }

    /// An empty store: no staged rows, no summary.
    pub fn new() -> (r: LocalStore)
        ensures
            r.wf(),
            r.staging_rows().len() == 0,
            r.summary_spec() is None,
    {
        LocalStore { staging: Vec::new(), summary: None }
    }

    /// A store holding `staging` and `summary`, where these make a
    /// well-formed store.
    pub fn from_parts(staging: KeystrokesStats, summary: Option<Summary>) -> (r: Result<
        LocalStore,
        StoreError,
    >)
        ensures
            r is Ok <==> local_parts_valid(staging@, summary),
            r matches Ok(s) ==> s.wf() && s.staging_rows() == staging@ && s.summary_spec()
                == summary,
            r matches Err(e) ==> (e == StoreError::MalformedRows <==> !well_formed_rows(staging@)),
    {
        let mut i: usize = 0;
        while i < staging.len()
            invariant
                i <= staging@.len(),
                well_formed_rows(staging@.subrange(0, i as int)),
            decreases staging@.len() - i,
        {
            proof {
                lemma_prefix_step(staging@, i as int);
            }
            let (t, v) = staging[i];
            if v == 0 || t % SECONDS_PER_HOUR != 0 {
                return Err(StoreError::MalformedRows);
            }
            let mut j: usize = 0;
            while j < i
                invariant
                    j <= i < staging@.len(),
                    t == staging@[i as int].0,
                    forall|k: int| 0 <= k < j ==> staging@[k].0 != t,
                decreases i - j,
            {
                if staging[j].0 == t {
                    return Err(StoreError::MalformedRows);
                }
                j = j + 1;
            }
            i = i + 1;
        }
        proof {
            assert(staging@.subrange(0, i as int) =~= staging@);
        }
        let mut total: u64 = 0;
        let mut k: usize = 0;
        while k < staging.len()
            invariant
                k <= staging@.len(),
                well_formed_rows(staging@),
                total == stats_total(staging@.subrange(0, k as int)),
            decreases staging@.len() - k,
        {
            proof {
                lemma_prefix_step(staging@, k as int);
                lemma_push(staging@.subrange(0, k as int), staging@[k as int]);
            }
            if total > u64::MAX - staging[k].1 as u64 {
                proof {
                    lemma_prefix_le_total(staging@, k as int + 1);
                }
                return Err(StoreError::CountOverflow);
            }
            total = total + staging[k].1 as u64;
            k = k + 1;
        }
        proof {
            assert(staging@.subrange(0, k as int) =~= staging@);
        }
        let g: u64 = match summary {
            Some(s) => s.global_count,
            None => 0,
        };
        let d: u64 = match summary {
            Some(s) => s.today_count,
            None => 0,
        };
        if total > u64::MAX - g || total > u64::MAX - d {
            return Err(StoreError::CountOverflow);
        }
        Ok(LocalStore { staging, summary })
    }

    /// A copy of the staging area.
    pub fn staging_area(&self) -> (r: KeystrokesStats)
        ensures
            r@ == self.staging_rows(),
    {
        copy_rows(&self.staging)
    }

    /// A copy of this store.
    pub fn snapshot(&self) -> (r: LocalStore)
        requires
            self.wf(),
        ensures
            r.wf(),
            r.same_state(*self),
    {
        LocalStore { staging: copy_rows(&self.staging), summary: self.summary }
    }

    /// The stored summary.
    pub fn summary(&self) -> (r: Option<Summary>)
        ensures
            r == self.summary_spec(),
    {
        self.summary
    }

    /// Adds `count` keystrokes to the hour that holds `hour` and returns that
    /// hour's new count. A zero `count` changes nothing and returns zero.
    pub fn upsert_hour_count(&mut self, hour: Timestamp, count: u32) -> (r: Result<
        u32,
        StoreError,
    >)
        requires
            old(self).wf(),
        ensures
            upsert_hour_done(*old(self), *final(self), hour, count, r),
    {
        if count == 0 {
            return Ok(0);
        }
        let h = match hour_floor(hour) {
            Some(h) => h,
            None => return Err(StoreError::InvalidTimestamp),
        };
        let total = self.staged_total();
        let g: u64 = match self.summary {
            Some(s) => s.global_count,
            None => 0,
        };
        let d: u64 = match self.summary {
            Some(s) => s.today_count,
            None => 0,
        };
        if count as u64 > u64::MAX - g - total || count as u64 > u64::MAX - d - total {
            return Err(StoreError::CountOverflow);
        }
        match add_to_hour(&mut self.staging, h, count) {
            Some(n) => Ok(n),
            None => Err(StoreError::CountOverflow),
        }
    }

    /// Adding `d` to hour `h` keeps every count within its integer type.
    pub open spec fn fits_after_add(&self, h: int, d: nat) -> bool {
        &&& stats_at(self.staging_rows(), h) + d <= u32::MAX
        &&& stats_total(self.staging_rows()) + summary_global(self.summary_spec()) + d
            <= u64::MAX
        &&& stats_total(self.staging_rows()) + summary_today_any(self.summary_spec()) + d
            <= u64::MAX
    }

    fn staged_total(&self) -> (r: u64)
        requires
            self.wf(),
        ensures
            r == stats_total(self.staging_rows()),
    {
        sum_counts(&self.staging)
    }

    /// Every keystroke known here: the staging area plus the summary's
    /// global count.
    pub fn get_global_count(&self) -> (r: u64)
        requires
            self.wf(),
        ensures
            r == self.global_count_spec(),
    {
        let g: u64 = match self.summary {
            Some(s) => s.global_count,
            None => 0,
        };
        self.staged_total() + g
    }

    /// The keystrokes of the day that starts at `today`: staged rows at or
    /// after it, plus the summary's count where the summary is for that day.
    pub fn get_today_count(&self, today: Timestamp) -> (r: u64)
        requires
            self.wf(),
        ensures
            r == self.today_count_spec(today as int),
    {
        proof {
            lemma_parts_le_total(self.staging@, today as int);
        }
        let staged = sum_since(&self.staging, today);
        let d: u64 = match self.summary {
            Some(s) => if s.today_timestamp == today {
                s.today_count
            } else {
                0
            },
            None => 0,
        };
        staged + d
    }

    /// Replaces the summary.
    pub fn set_summary(
        &mut self,
        oldest: Timestamp,
        global_count: u64,
        today: Timestamp,
        today_count: u64,
    ) -> (r: Result<(), StoreError>)
        requires
            old(self).wf(),
        ensures
            final(self).wf(),
            final(self).staging_rows() == old(self).staging_rows(),
            r is Ok <==> stats_total(old(self).staging_rows()) + global_count <= u64::MAX
                && stats_total(old(self).staging_rows()) + today_count <= u64::MAX,
            r is Ok ==> final(self).summary_spec() == Some(
                Summary {
                    oldest_timestamp: oldest,
                    global_count,
                    today_timestamp: today,
                    today_count,
                },
            ),
            r matches Err(e) ==> e == StoreError::CountOverflow && final(self).same_state(*old(self)),
    {
        let total = self.staged_total();
        if total > u64::MAX - global_count || total > u64::MAX - today_count {
            return Err(StoreError::CountOverflow);
        }
        self.summary = Some(
            Summary { oldest_timestamp: oldest, global_count, today_timestamp: today, today_count },
        );
        Ok(())
    }

    /// Forgets the summary.
    pub fn drop_summary(&mut self)
        requires
            old(self).wf(),
        ensures
            final(self).wf(),
            final(self).staging_rows() == old(self).staging_rows(),
            final(self).summary_spec() is None,
    {
        self.summary = None;
    }

    /// Hands the staging area to `k`, which merges it into the hub. Where
    /// `k` succeeds the staging area is emptied and the summary it returned
    /// is stored; where it fails the store is left as it was.
    pub fn commit<E, F>(&mut self, today: Timestamp, k: F) -> (r: Result<Summary, E>)
        where
            F: FnOnce(SynchronizeRequest) -> Result<Summary, E>,
        requires
            old(self).wf(),
            forall|req: SynchronizeRequest| k.requires((req,)),
        ensures
            final(self).wf(),
            exists|req: SynchronizeRequest|
                req.staging_area@ == old(self).staging_rows() && req.today == today
                    && #[trigger] k.ensures((req,), r),
            commit_done(*old(self), *final(self), r),
    {
        let staging_area = self.staging_area();
        let req = SynchronizeRequest { staging_area, today };
        let ghost sent = req;
        let r = k(req);
        match r {
            Ok(s) => {
                self.staging = Vec::new();
                self.summary = Some(s);
                Ok(s)
            },
            Err(e) => Err(e),
        }
    }

    /// Replays a hub's full export into the staging area, each count added
    /// to the hour its timestamp falls in, and forgets the summary, which no
    /// longer holds.
    pub fn apply_revert(&mut self, export: &KeystrokesStats) -> (r: Result<(), StoreError>)
        requires
            old(self).wf(),
        ensures
            final(self).wf(),
            r is Ok <==> merge_fits(old(self).staging_rows(), export@),
            r is Err ==> final(self).same_state(*old(self)),
            r is Ok ==> revert_replayed(*old(self), *final(self), export@),
    {
        let rows = merge_rows(&self.staging, export)?;
        self.staging = rows;
        self.summary = None;
        Ok(())
    }
}

/// What `upsert_hour_count(hour, count)` on `before` that returned `r`
/// leaves.
pub open spec fn upsert_hour_done(
    before: LocalStore,
    after: LocalStore,
    hour: i64,
    count: u32,
    r: Result<u32, StoreError>,
) -> bool {
    let h = floor_hour(hour as int);
    &&& after.wf()
    &&& count == 0 ==> r == Ok::<u32, StoreError>(0) && after.same_state(before)
    &&& count > 0 && h < i64::MIN ==> r == Err::<u32, StoreError>(StoreError::InvalidTimestamp)
    &&& count > 0 && h >= i64::MIN ==> (r == Err::<u32, StoreError>(StoreError::CountOverflow)
        <==> !before.fits_after_add(h, count as nat))
    &&& r is Ok <==> count == 0 || (h >= i64::MIN && before.fits_after_add(h, count as nat))
    &&& r is Err ==> after.same_state(before)
    &&& r is Ok ==> forall|t: int|
        #![trigger after.today_count_spec(t)]
        #![trigger before.today_count_spec(t)]
        after.today_count_spec(t) == before.today_count_spec(t) + if count > 0 && h >= t {
            count as nat
        } else {
            0
        }
    &&& r is Ok ==> after.global_count_spec() == before.global_count_spec() + count
    &&& r matches Ok(n) ==> count > 0 ==> {
        &&& n == stats_at(before.staging_rows(), h) + count
        &&& n == (if before.staged().dom().contains(h) {
            before.staged()[h]
        } else {
            0
        }) + count
        &&& after.staged()[h] == n
        &&& after.staged() == add_at(before.staged(), h, count as nat)
        &&& after.summary_spec() == before.summary_spec()
    }
}

/// `after` is what a commit that returned `r` left of `before`: on success
/// an empty staging area and the hub's summary; on failure `before` itself.
pub open spec fn commit_done<E>(before: LocalStore, after: LocalStore, r: Result<Summary, E>) -> bool {
    match r {
        Ok(s) => after.staging_rows().len() == 0 && after.summary_spec() == Some(s),
        Err(_) => after.same_state(before),
    }
}

/// `after` is `before` with `export` replayed into its staging area and its
/// summary forgotten.
pub open spec fn revert_replayed(
    before: LocalStore,
    after: LocalStore,
    export: Seq<(i64, u32)>,
) -> bool {
    &&& merged(before.staging_rows(), export, after.staging_rows())
    &&& after.summary_spec() is None
}

} // verus!
