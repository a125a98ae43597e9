//! Hourly keystroke rows and the sums computed over them.
//!
//! Both stores keep their counters as a sequence of `(hour, count)` rows,
//! at most one row per hour. The spec functions here say what a sum over
//! such rows is; the executable helpers compute those sums and merge a
//! delta into a row set.
use vstd::prelude::*;

verus! {

/// Seconds since the epoch.
pub type Timestamp = i64;

/// One row per hour: the timestamp of the hour and the count it holds.
pub type KeystrokesStats = Vec<(Timestamp, u32)>;

/// Seconds in one hour.
pub const SECONDS_PER_HOUR: i64 = 3600;

/// Why a change to a counter store was refused.
#[derive(Clone, Copy, Debug, PartialEq, Eq, Structural)]
pub enum StoreError {
    /// The start of the hour lies below the range of a timestamp.
    InvalidTimestamp,
    /// A count would no longer fit its integer type.
    CountOverflow,
    /// Rows handed in do not make a store: a repeated hour, an hour not at
    /// the start of an hour, or a zero count.
    MalformedRows,
}

/// The start of the hour that holds `t`.
pub open spec fn floor_hour(t: int) -> int {
    t - t % 3600
}

/// `t` is the start of an hour.
pub open spec fn hour_aligned(t: int) -> bool {
    t % 3600 == 0
}

/// Sum of every count in `s`.
pub open spec fn stats_total(s: Seq<(i64, u32)>) -> nat
    decreases s.len(),
{
    if s.len() == 0 {
        0
    } else {
        stats_total(s.drop_last()) + s.last().1 as nat
    }
}

/// Sum of the counts that `s` holds for hour `t`.
pub open spec fn stats_at(s: Seq<(i64, u32)>, t: int) -> nat
    decreases s.len(),
{
    if s.len() == 0 {
        0
    } else {
        stats_at(s.drop_last(), t) + if s.last().0 == t {
            s.last().1 as nat
        } else {
            0
        }
    }
}

/// Sum of the counts that `s` holds for hours at or after `t`.
pub open spec fn stats_since(s: Seq<(i64, u32)>, t: int) -> nat
    decreases s.len(),
{
    if s.len() == 0 {
        0
    } else {
        stats_since(s.drop_last(), t) + if s.last().0 >= t {
            s.last().1 as nat
        } else {
            0
        }
    }
}

/// Sum of the counts of `s` whose timestamp falls in the hour that starts at `h`.
pub open spec fn stats_in_hour(s: Seq<(i64, u32)>, h: int) -> nat
    decreases s.len(),
{
    if s.len() == 0 {
        0
    } else {
        stats_in_hour(s.drop_last(), h) + if floor_hour(s.last().0 as int) == h {
            s.last().1 as nat
        } else {
            0
        }
    }
}

/// Sum of the counts of `s` whose timestamp falls in an hour that starts at
/// or after `t`.
pub open spec fn stats_hours_since(s: Seq<(i64, u32)>, t: int) -> nat
    decreases s.len(),
{
    if s.len() == 0 {
        0
    } else {
        stats_hours_since(s.drop_last(), t) + if floor_hour(s.last().0 as int) >= t {
            s.last().1 as nat
        } else {
            0
        }
    }
}

/// The earliest hour that `s` holds a row for, if any.
pub open spec fn stats_oldest(s: Seq<(i64, u32)>) -> Option<int>
    decreases s.len(),
{
    if s.len() == 0 {
        None
    } else {
        match stats_oldest(s.drop_last()) {
            None => Some(s.last().0 as int),
            Some(m) => Some(if (s.last().0 as int) < m {
                s.last().0 as int
            } else {
                m
            }),
        }
    }
}

/// The counters of `s` as a map from hour to count; hours with a zero
/// count are left out.
pub open spec fn stats_view(s: Seq<(i64, u32)>) -> Map<int, nat> {
    Map::new(|t: int| stats_at(s, t) > 0, |t: int| stats_at(s, t))
}

/// No two rows of `s` are for the same hour.
pub open spec fn keys_distinct(s: Seq<(i64, u32)>) -> bool {
    forall|i: int, j: int| 0 <= i < j < s.len() ==> s[i].0 != s[j].0
}

/// Every row of `s` is for the start of an hour and holds a positive count.
pub open spec fn rows_valid(s: Seq<(i64, u32)>) -> bool {
    forall|i: int| 0 <= i < s.len() ==> hour_aligned(s[i].0 as int) && s[i].1 > 0
}

/// A well-formed row set: the primary key is the hour.
pub open spec fn well_formed_rows(s: Seq<(i64, u32)>) -> bool {
    keys_distinct(s) && rows_valid(s)
}

/// The map `m` after adding `d` to the count of hour `t`.
pub open spec fn add_at(m: Map<int, nat>, t: int, d: nat) -> Map<int, nat> {
    if d == 0 {
        m
    } else {
        m.insert(t, (if m.dom().contains(t) { m[t] } else { 0 }) + d)
    }
}

pub proof fn lemma_push(s: Seq<(i64, u32)>, x: (i64, u32))
    ensures
        stats_total(s.push(x)) == stats_total(s) + x.1,
        forall|t: int| #[trigger]
            stats_at(s.push(x), t) == stats_at(s, t) + if x.0 == t {
                x.1 as nat
            } else {
                0
            },
        forall|t: int| #[trigger]
            stats_since(s.push(x), t) == stats_since(s, t) + if x.0 >= t {
                x.1 as nat
            } else {
                0
            },
{
    assert(s.push(x).drop_last() =~= s);
}

pub proof fn lemma_update(s: Seq<(i64, u32)>, i: int, x: (i64, u32))
    requires
        0 <= i < s.len(),
    ensures
        stats_total(s.update(i, x)) + s[i].1 == stats_total(s) + x.1,
        forall|t: int| #[trigger]
            stats_at(s.update(i, x), t) + (if s[i].0 == t {
                s[i].1 as nat
            } else {
                0
            }) == stats_at(s, t) + if x.0 == t {
                x.1 as nat
            } else {
                0
            },
        forall|t: int| #[trigger]
            stats_since(s.update(i, x), t) + (if s[i].0 >= t {
                s[i].1 as nat
            } else {
                0
            }) == stats_since(s, t) + if x.0 >= t {
                x.1 as nat
            } else {
                0
            },
    decreases s.len(),
{
    let u = s.update(i, x);
    if i == s.len() - 1 {
        assert(u.drop_last() =~= s.drop_last());
        assert forall|t: int| #[trigger] stats_at(u, t) == stats_at(s.drop_last(), t) + (if x.0
            == t {
            x.1 as nat
        } else {
            0
        }) by {}
        assert forall|t: int| #[trigger] stats_since(u, t) == stats_since(s.drop_last(), t) + (
        if x.0 >= t {
            x.1 as nat
        } else {
            0
        }) by {}
    } else {
        lemma_update(s.drop_last(), i, x);
        assert(u.drop_last() =~= s.drop_last().update(i, x));
        assert(u.last() == s.last());
        assert forall|t: int| #[trigger]
            stats_at(u, t) == stats_at(s.drop_last().update(i, x), t) + (if s.last().0 == t {
                s.last().1 as nat
            } else {
                0
            }) by {}
        assert forall|t: int| #[trigger]
            stats_since(u, t) == stats_since(s.drop_last().update(i, x), t) + (if s.last().0
                >= t {
                s.last().1 as nat
            } else {
                0
            }) by {}
    }
}

/// With distinct hours, the count of an hour is the count of its row.
pub proof fn lemma_at_row(s: Seq<(i64, u32)>, i: int)
    requires
        keys_distinct(s),
        0 <= i < s.len(),
    ensures
        stats_at(s, s[i].0 as int) == s[i].1,
    decreases s.len(),
{
    if i == s.len() - 1 {
        lemma_at_absent(s.drop_last(), s[i].0 as int);
    } else {
        lemma_at_row(s.drop_last(), i);
    }
}

/// An hour without a row has a zero count.
pub proof fn lemma_at_absent(s: Seq<(i64, u32)>, t: int)
    requires
        forall|i: int| 0 <= i < s.len() ==> s[i].0 != t,
    ensures
        stats_at(s, t) == 0,
    decreases s.len(),
{
    if s.len() > 0 {
        lemma_at_absent(s.drop_last(), t);
    }
}

/// The counts of one hour, and those since a given hour, are part of the total.
pub proof fn lemma_parts_le_total(s: Seq<(i64, u32)>, t: int)
    ensures
        stats_at(s, t) <= stats_total(s),
        stats_since(s, t) <= stats_total(s),
    decreases s.len(),
{
    if s.len() > 0 {
        lemma_parts_le_total(s.drop_last(), t);
    }
}

/// A prefix holds part of the total.
pub proof fn lemma_prefix_le_total(s: Seq<(i64, u32)>, i: int)
    requires
        0 <= i <= s.len(),
    ensures
        stats_total(s.subrange(0, i)) <= stats_total(s),
        stats_total(s.subrange(0, i)) + (if i < s.len() {
            s[i].1 as nat
        } else {
            0
        }) <= stats_total(s),
    decreases s.len(),
{
    if i == s.len() {
        assert(s.subrange(0, i) =~= s);
    } else {
        lemma_prefix_le_total(s.drop_last(), i);
        assert(s.drop_last().subrange(0, i) =~= s.subrange(0, i));
        if i == s.len() - 1 {
            assert(s.subrange(0, i) =~= s.drop_last());
        }
    }
}

/// A prefix one row longer adds that row.
pub proof fn lemma_prefix_step(s: Seq<(i64, u32)>, i: int)
    requires
        0 <= i < s.len(),
    ensures
        s.subrange(0, i + 1) == s.subrange(0, i).push(s[i]),
{
    assert(s.subrange(0, i + 1) =~= s.subrange(0, i).push(s[i]));
}

/// An empty row set.
pub proof fn lemma_empty(s: Seq<(i64, u32)>)
    requires
        s.len() == 0,
    ensures
        stats_total(s) == 0,
        stats_view(s) == Map::<int, nat>::empty(),
        forall|t: int| #[trigger] stats_at(s, t) == 0 && stats_since(s, t) == 0,
{
    assert(stats_view(s) =~= Map::<int, nat>::empty());
}

/// Sums over a prefix one row longer.
pub proof fn lemma_in_hour_step(s: Seq<(i64, u32)>, i: int)
    requires
        0 <= i < s.len(),
    ensures
        forall|h: int| #[trigger]
            stats_in_hour(s.subrange(0, i + 1), h) == stats_in_hour(s.subrange(0, i), h) + if
            floor_hour(s[i].0 as int) == h {
                s[i].1 as nat
            } else {
                0
            },
        forall|t: int| #[trigger]
            stats_hours_since(s.subrange(0, i + 1), t) == stats_hours_since(s.subrange(0, i), t)
                + if floor_hour(s[i].0 as int) >= t {
                s[i].1 as nat
            } else {
                0
            },
{
    lemma_prefix_step(s, i);
    assert(s.subrange(0, i + 1).drop_last() =~= s.subrange(0, i));
    assert forall|t: int| #[trigger]
        stats_hours_since(s.subrange(0, i + 1), t) == stats_hours_since(s.subrange(0, i), t) + if
        floor_hour(s[i].0 as int) >= t {
            s[i].1 as nat
        } else {
            0
        } by {}
}

/// A prefix holds part of each hour's sum.
pub proof fn lemma_in_hour_prefix_le(s: Seq<(i64, u32)>, i: int, h: int)
    requires
        0 <= i <= s.len(),
    ensures
        stats_in_hour(s.subrange(0, i), h) <= stats_in_hour(s, h),
    decreases s.len(),
{
    if i == s.len() {
        assert(s.subrange(0, i) =~= s);
    } else {
        lemma_in_hour_prefix_le(s.drop_last(), i, h);
        assert(s.drop_last().subrange(0, i) =~= s.subrange(0, i));
    }
}

/// Where every row is for the start of an hour, the counts that fall in
/// an hour are those of its row.
pub proof fn lemma_in_hour_aligned(s: Seq<(i64, u32)>)
    requires
        rows_valid(s),
    ensures
        forall|h: int| #[trigger] stats_in_hour(s, h) == stats_at(s, h),
    decreases s.len(),
{
    if s.len() > 0 {
        let p = s.drop_last();
        assert forall|i: int| 0 <= i < p.len() implies hour_aligned(p[i].0 as int) && p[i].1 > 0 by {
            assert(p[i] == s[i]);
        }
        lemma_in_hour_aligned(p);
        assert(hour_aligned(s.last().0 as int));
        assert(floor_hour(s.last().0 as int) == s.last().0);
        assert forall|h: int| #[trigger] stats_in_hour(s, h) == stats_at(s, h) by {
            assert(stats_in_hour(p, h) == stats_at(p, h));
        }
    }
}

/// In rows of positive counts, the oldest row is the earliest hour with a
/// positive count, and there is none only where no hour has a count.
pub proof fn lemma_oldest_is_least(s: Seq<(i64, u32)>)
    requires
        rows_valid(s),
    ensures
        stats_oldest(s) is None <==> s.len() == 0,
        stats_oldest(s) is None ==> forall|h: int| #[trigger] stats_at(s, h) == 0,
        stats_oldest(s) matches Some(o) ==> stats_at(s, o) > 0 && i64::MIN <= o <= i64::MAX
            && forall|h: int| h < o ==> #[trigger] stats_at(s, h) == 0,
    decreases s.len(),
{
    if s.len() > 0 {
        let p = s.drop_last();
        assert forall|i: int| 0 <= i < p.len() implies hour_aligned(p[i].0 as int) && p[i].1 > 0 by {
            assert(p[i] == s[i]);
        }
        lemma_oldest_is_least(p);
        let x = s.last();
        assert(x.1 > 0);
        assert forall|h: int| #[trigger] stats_at(s, h) == stats_at(p, h) + if x.0 == h {
            x.1 as nat
        } else {
            0
        } by {}
    } else {
        lemma_empty(s);
    }
}

/// The map view holds each hour's count, or leaves the hour out where it
/// is zero.
pub proof fn lemma_view_at(s: Seq<(i64, u32)>, h: int)
    ensures
        stats_at(s, h) == if stats_view(s).dom().contains(h) {
            stats_view(s)[h]
        } else {
            0
        },
{
}

/// With distinct hours, no hour holds more than a `u32`.
pub proof fn lemma_at_fits(s: Seq<(i64, u32)>, t: int)
    requires
        keys_distinct(s),
    ensures
        stats_at(s, t) <= u32::MAX,
{
    if exists|i: int| 0 <= i < s.len() && s[i].0 == t {
        let i = choose|i: int| 0 <= i < s.len() && s[i].0 == t;
        lemma_at_row(s, i);
    } else {
        lemma_at_absent(s, t);
    }
}

/// Rows handed to a merge that it can take: each positive count has an
/// hour to go to, and no count outgrows its integer type.
pub open spec fn merge_fits(rows: Seq<(i64, u32)>, add: Seq<(i64, u32)>) -> bool {
    &&& forall|i: int|
        0 <= i < add.len() && add[i].1 > 0 ==> floor_hour(#[trigger] add[i].0 as int)
            >= i64::MIN
    &&& forall|h: int| #[trigger] stats_at(rows, h) + stats_in_hour(add, h) <= u32::MAX
    &&& stats_total(rows) + stats_total(add) <= u64::MAX
}

/// `after` holds the counts of `before` with those of `add` merged in, each
/// added to the hour its timestamp falls in.
pub open spec fn merged(before: Seq<(i64, u32)>, add: Seq<(i64, u32)>, after: Seq<(i64, u32)>) -> bool {
    &&& well_formed_rows(after)
    &&& forall|h: int| #[trigger] stats_at(after, h) == stats_at(before, h) + stats_in_hour(add, h)
    &&& forall|t: int| #[trigger]
        stats_since(after, t) == stats_since(before, t) + stats_hours_since(add, t)
    &&& stats_total(after) == stats_total(before) + stats_total(add)
    &&& stats_total(after) <= u64::MAX
}

/// A copy of `rows`.
pub fn copy_rows(rows: &Vec<(i64, u32)>) -> (r: Vec<(i64, u32)>)
    ensures
        r@ == rows@,
{
    let mut r: Vec<(i64, u32)> = Vec::new();
    let mut i: usize = 0;
    while i < rows.len()
        invariant
            i <= rows@.len(),
            r@ == rows@.subrange(0, i as int),
        decreases rows@.len() - i,
    {
        proof {
            lemma_prefix_step(rows@, i as int);
        }
        r.push(rows[i]);
        i = i + 1;
    }
    proof {
        assert(rows@.subrange(0, i as int) =~= rows@);
    }
    r
}

/// The rows of `rows` with every count of `add` merged in, as upserts one
/// by one would leave them; `rows` itself is not touched, so a failed merge
/// changes nothing.
pub fn merge_rows(base: &Vec<(i64, u32)>, add: &Vec<(i64, u32)>) -> (r: Result<
    Vec<(i64, u32)>,
    StoreError,
>)
    requires
        well_formed_rows(base@),
        stats_total(base@) <= u64::MAX,
    ensures
        r is Ok <==> merge_fits(base@, add@),
        r matches Ok(v) ==> merged(base@, add@, v@),
        r matches Err(e) ==> e != StoreError::MalformedRows,
{
    let ghost s0 = base@;
    let export = add;
    let mut rows = copy_rows(base);
    proof {
        lemma_prefix_le_total(s0, 0);
    }
    let mut total = sum_counts(&rows);
    let mut i: usize = 0;
    while i < export.len()
        invariant
            i <= export@.len(),
            s0 == base@,
            export == add,
            well_formed_rows(rows@),
            total == stats_total(rows@),
            stats_total(rows@) == stats_total(s0) + stats_total(export@.subrange(0, i as int)),
            forall|h: int| #[trigger]
                stats_at(rows@, h) == stats_at(s0, h) + stats_in_hour(
                    export@.subrange(0, i as int),
                    h,
                ),
            forall|t: int| #[trigger]
                stats_since(rows@, t) == stats_since(s0, t) + stats_hours_since(
                    export@.subrange(0, i as int),
                    t,
                ),
            forall|j: int|
                0 <= j < i && export@[j].1 > 0 ==> floor_hour(#[trigger] export@[j].0 as int)
                    >= i64::MIN,
        decreases export@.len() - i,
    {
            let ghost before = rows@;
            proof {
                lemma_prefix_step(export@, i as int);
                lemma_push(export@.subrange(0, i as int), export@[i as int]);
                lemma_in_hour_step(export@, i as int);
            }
            let (t, v) = export[i];
            if v > 0 {
                let h = match hour_floor(t) {
                    Some(h) => h,
                    None => return Err(StoreError::InvalidTimestamp),
                };
                if total > u64::MAX - v as u64 {
                    proof {
                        lemma_prefix_le_total(export@, i as int + 1);
                    }
                    return Err(StoreError::CountOverflow);
                }
                match add_to_hour(&mut rows, h, v) {
                    Some(_) => {
                        total = total + v as u64;
                    },
                    None => {
                        proof {
                            lemma_in_hour_prefix_le(export@, i as int + 1, h as int);
                        }
                        return Err(StoreError::CountOverflow);
                    },
                }
                proof {
                    assert forall|x: int| #[trigger]
                        stats_at(rows@, x) == stats_at(s0, x) + stats_in_hour(
                            export@.subrange(0, i as int + 1),
                            x,
                        ) by {
                        if x != h {
                            assert(!stats_view(before).dom().contains(x) ==> stats_at(before, x)
                                == 0);
                            assert(stats_view(rows@).dom().contains(x) ==> stats_view(
                                rows@,
                            )[x] == stats_view(before)[x]);
                        } else {
                            assert(stats_view(rows@)[h as int] == stats_view(rows@)[h as int]);
                        }
                        assert(stats_at(rows@, x) == if stats_view(rows@).dom().contains(x) {
                            stats_view(rows@)[x]
                        } else {
                            0
                        });
                    }
                }
            }
            i = i + 1;
        }
        proof {
            assert(export@.subrange(0, i as int) =~= export@);
            assert forall|h: int| #[trigger]
                stats_at(s0, h) + stats_in_hour(export@, h) <= u32::MAX by {
                lemma_at_fits(rows@, h);
            }
        }
    Ok(rows)
}

/// The start of the hour that holds `t`, or `None` where that start is
/// below the range of `i64`.
pub fn hour_floor(t: i64) -> (r: Option<i64>)
    ensures
        r matches Some(h) <==> floor_hour(t as int) >= i64::MIN,
        r matches Some(h) ==> h == floor_hour(t as int) && hour_aligned(h as int),
{
    let rem: i64 = t % SECONDS_PER_HOUR;
    let rem_euclid: i64 = if rem < 0 {
        rem + SECONDS_PER_HOUR
    } else {
        rem
    };
    assert(rem_euclid == (t as int) % 3600);
    if t < i64::MIN + rem_euclid {
        None
    } else {
        let h = t - rem_euclid;
        assert(hour_aligned(h as int)) by {
            assert((t as int - (t as int) % 3600) % 3600 == 0);
        }
        Some(h)
    }
}

/// The index of the row for hour `t`, if there is one.
pub fn find_hour(rows: &Vec<(i64, u32)>, t: i64) -> (r: Option<usize>)
    ensures
        r matches Some(i) ==> i < rows@.len() && rows@[i as int].0 == t,
        r is None ==> forall|i: int| 0 <= i < rows@.len() ==> rows@[i].0 != t,
{
    let mut i: usize = 0;
    while i < rows.len()
        invariant
            i <= rows@.len(),
            forall|j: int| 0 <= j < i ==> rows@[j].0 != t,
        decreases rows@.len() - i,
    {
        if rows[i].0 == t {
            return Some(i);
        }
        i = i + 1;
    }
    None
}

/// Sum of every count of `rows`.
pub fn sum_counts(rows: &Vec<(i64, u32)>) -> (r: u64)
    requires
        stats_total(rows@) <= u64::MAX,
    ensures
        r == stats_total(rows@),
{
    let mut acc: u64 = 0;
    let mut i: usize = 0;
    while i < rows.len()
        invariant
            i <= rows@.len(),
            stats_total(rows@) <= u64::MAX,
            acc == stats_total(rows@.subrange(0, i as int)),
        decreases rows@.len() - i,
    {
        proof {
            lemma_prefix_step(rows@, i as int);
            lemma_push(rows@.subrange(0, i as int), rows@[i as int]);
            lemma_prefix_le_total(rows@, i as int + 1);
        }
        acc = acc + rows[i].1 as u64;
        i = i + 1;
    }
    proof {
        assert(rows@.subrange(0, i as int) =~= rows@);
    }
    acc
}

/// Sum of the counts of `rows` for hours at or after `t`.
pub fn sum_since(rows: &Vec<(i64, u32)>, t: i64) -> (r: u64)
    requires
        stats_total(rows@) <= u64::MAX,
    ensures
        r == stats_since(rows@, t as int),
{
    let mut acc: u64 = 0;
    let mut i: usize = 0;
    while i < rows.len()
        invariant
            i <= rows@.len(),
            stats_total(rows@) <= u64::MAX,
            acc == stats_since(rows@.subrange(0, i as int), t as int),
        decreases rows@.len() - i,
    {
        proof {
            lemma_prefix_step(rows@, i as int);
            lemma_push(rows@.subrange(0, i as int), rows@[i as int]);
            lemma_parts_le_total(rows@.subrange(0, i as int + 1), t as int);
            lemma_prefix_le_total(rows@, i as int + 1);
        }
        if rows[i].0 >= t {
            acc = acc + rows[i].1 as u64;
        }
        i = i + 1;
    }
    proof {
        assert(rows@.subrange(0, i as int) =~= rows@);
    }
    acc
}

/// The earliest hour of `rows`, if any.
pub fn oldest_hour(rows: &Vec<(i64, u32)>) -> (r: Option<i64>)
    ensures
        r matches Some(h) ==> stats_oldest(rows@) == Some(h as int),
        r is None ==> stats_oldest(rows@) is None,
{
    let mut best: Option<i64> = None;
    let mut i: usize = 0;
    while i < rows.len()
        invariant
            i <= rows@.len(),
            best matches Some(h) ==> stats_oldest(rows@.subrange(0, i as int)) == Some(h as int),
            best is None ==> stats_oldest(rows@.subrange(0, i as int)) is None,
        decreases rows@.len() - i,
    {
        proof {
            lemma_prefix_step(rows@, i as int);
            assert(rows@.subrange(0, i as int + 1).drop_last() =~= rows@.subrange(0, i as int));
        }
        let t = rows[i].0;
        best = match best {
            None => Some(t),
            Some(m) => Some(if t < m { t } else { m }),
        };
        i = i + 1;
    }
    proof {
        assert(rows@.subrange(0, i as int) =~= rows@);
    }
    best
}

/// Adds `d` to the row of hour `h`, creating the row if there is none; a zero
/// `d` changes nothing. Returns the hour's new count, or `None` (rows
/// unchanged) where that count would not fit in a `u32`.
pub fn add_to_hour(rows: &mut Vec<(i64, u32)>, h: i64, d: u32) -> (r: Option<u32>)
    requires
        well_formed_rows(old(rows)@),
        hour_aligned(h as int),
    ensures
        well_formed_rows(final(rows)@),
        r matches Some(n) ==> n == stats_at(old(rows)@, h as int) + d,
        r is None <==> stats_at(old(rows)@, h as int) + d > u32::MAX,
        r is None ==> final(rows)@ == old(rows)@,
        r is Some ==> stats_total(final(rows)@) == stats_total(old(rows)@) + d,
        r is Some ==> stats_view(final(rows)@) == add_at(stats_view(old(rows)@), h as int, d as nat),
        r is Some ==> forall|t: int| #[trigger]
            stats_since(final(rows)@, t) == stats_since(old(rows)@, t) + if h >= t {
                d as nat
            } else {
                0
            },
{
    let ghost s = rows@;
    match find_hour(rows, h) {
        Some(i) => {
            proof {
                lemma_at_row(s, i as int);
            }
            let prev = rows[i].1;
            if prev > u32::MAX - d {
                return None;
            }
            if d == 0 {
                assert(stats_view(s) == add_at(stats_view(s), h as int, 0));
                return Some(prev);
            }
            rows.set(i, (h, prev + d));
            proof {
                lemma_update(s, i as int, (h, (prev + d) as u32));
                assert(stats_view(rows@) =~= add_at(stats_view(s), h as int, d as nat));
            }
            Some(prev + d)
        },
        None => {
            proof {
                lemma_at_absent(s, h as int);
            }
            if d == 0 {
                assert(stats_view(s) == add_at(stats_view(s), h as int, 0));
                return Some(0);
            }
            rows.push((h, d));
            proof {
                lemma_push(s, (h, d));
                assert(stats_view(rows@) =~= add_at(stats_view(s), h as int, d as nat));
            }
            Some(d)
        },
    }
}

} // verus!
