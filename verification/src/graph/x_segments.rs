//! Calendar segments: for each scale, the ordered, gap-free list of bucket
//! intervals covering a date range, with a constant-time lookup index from
//! a date's bucket key to its segment position.
//!
//! Buckets are numbered by integer keys: a day by its day index, a week by
//! its week number, a month by `year * 12 + month - 1`, a year by its
//! number.  The segments of one scale carry consecutive keys, so the index
//! of a scale is just the first key of its list.

use vstd::prelude::*;

use crate::date::Date;
use crate::date::DateTime;
use crate::date::day_index_end;
use crate::date::days_before_month;
use crate::date::lemma_index_order;
use crate::date::lemma_index_strictly_monotone;
use crate::date::lemma_index_within_year;
use crate::date::lemma_month_step;
use crate::date::lemma_succ;
use crate::date::lemma_year_start_step;
use crate::date::week_of;
use crate::date::weekday_of;
use crate::date::year_start_index;
use crate::graph::scale::Scale;
use crate::text::dec_str;
use crate::text::dec2_str;
use crate::text::num_text;
use crate::text::num_text2;
use crate::date::is_iso_week_of;

verus! {

/// One bucket's half-open time interval `[start, end)` at one scale.
#[derive(PartialEq, Eq, Structural, Debug, Copy, Clone)]
pub struct XSegment {
    pub scale: Scale,
    pub start_datetime: DateTime,
    pub end_datetime: DateTime,
}

/// The bucket key of date `d` at scale `s`.  The whole-range scale has a
/// single bucket with key 0.
pub open spec fn bucket_key(s: Scale, d: Date) -> int {
    match s {
        Scale::Day => d.day_index(),
        Scale::Week => week_of(d.day_index()),
        Scale::Month => d.year * 12 + d.month - 1,
        Scale::Year => d.year as int,
        Scale::All => 0,
    }
}

/// The first day index of bucket `k` at scale `s`.  The first, partial week
/// of the calendar is clamped to the calendar's first day.
pub open spec fn bucket_start_index(s: Scale, k: int) -> int {
    match s {
        Scale::Day => k,
        Scale::Week => if 7 * k - 5 >= 0 {
            7 * k - 5
        } else {
            0
        },
        Scale::Month => year_start_index(k / 12) + days_before_month(k / 12, k % 12 + 1),
        Scale::Year => year_start_index(k),
        Scale::All => 0,
    }
}

/// One past the last day index of bucket `k` at scale `s`.
pub open spec fn bucket_end_index(s: Scale, k: int) -> int {
    bucket_start_index(s, k + 1)
}

/// Whether `seg` is exactly bucket `k` of scale `s`: a half-open interval
/// of whole days from the bucket's first day to the next bucket's first.
pub open spec fn seg_is_bucket(s: Scale, k: int, seg: XSegment) -> bool {
    &&& seg.scale == s
    &&& seg.start_datetime.hour == 0
    &&& seg.start_datetime.minute == 0
    &&& seg.end_datetime.hour == 0
    &&& seg.end_datetime.minute == 0
    &&& seg.start_datetime.date.valid()
    &&& seg.end_datetime.date.valid()
    &&& bucket_key(s, seg.start_datetime.date) == k
    &&& seg.start_datetime.date.day_index() == bucket_start_index(s, k)
    &&& seg.end_datetime.date.day_index() == bucket_end_index(s, k)
}

/// The month-bucket key decomposes back into year and month.
proof fn lemma_month_key_inverse(y: int, m: int)
    requires
        0 <= y,
        1 <= m <= 12,
    ensures
        (y * 12 + m - 1) / 12 == y,
        (y * 12 + m - 1) % 12 == m - 1,
{
    vstd::arithmetic::div_mod::lemma_fundamental_div_mod_converse(y * 12 + m - 1, 12, y, m - 1);
}

/// Every valid date lies inside its own bucket at every bucketing scale.
pub proof fn lemma_bucket_contains(s: Scale, d: Date)
    requires
        d.valid(),
        s != Scale::All,
    ensures
        bucket_start_index(s, bucket_key(s, d)) <= d.day_index(),
        d.day_index() < bucket_end_index(s, bucket_key(s, d)),
{
    let i = d.day_index();
    lemma_index_within_year(d);
    assert(i >= 0);
    match s {
        Scale::Day => {},
        Scale::Week => {
            let k = week_of(i);
            vstd::arithmetic::div_mod::lemma_fundamental_div_mod(i + 5, 7);
            assert(7 * k - 5 <= i < 7 * k + 2);
            assert(bucket_start_index(Scale::Week, k + 1) == 7 * k + 2);
        },
        Scale::Month => {
            let y = d.year as int;
            let m = d.month as int;
            lemma_month_key_inverse(y, m);
            lemma_month_step(y, m);
            if m < 12 {
                lemma_month_key_inverse(y, m + 1);
            } else {
                assert(y * 12 + 12 == (y + 1) * 12 + 1 - 1) by (nonlinear_arith);
                lemma_month_key_inverse(y + 1, 1);
                lemma_year_start_step(y);
            }
        },
        Scale::Year => {
            lemma_year_start_step(d.year as int);
        },
        Scale::All => {},
    }
}

/// Bucket keys never decrease along the day-index line.
pub proof fn lemma_bucket_key_monotone(s: Scale, a: Date, b: Date)
    requires
        a.valid(),
        b.valid(),
        a.day_index() <= b.day_index(),
        s != Scale::All,
    ensures
        bucket_key(s, a) <= bucket_key(s, b),
{
    match s {
        Scale::Day => {},
        Scale::Week => {
            vstd::arithmetic::div_mod::lemma_div_is_ordered(
                a.day_index() + 5,
                b.day_index() + 5,
                7,
            );
        },
        Scale::Month => {
            lemma_index_order(a, b);
        },
        Scale::Year => {
            lemma_index_order(a, b);
        },
        Scale::All => {},
    }
}

/// Builds the full bucket segment holding `d` at a bucketing scale.
fn segment_of(scale: Scale, d: Date) -> (r: XSegment)
    requires
        d.valid(),
        d.year <= 9999,
        scale != Scale::All,
    ensures
        seg_is_bucket(scale, bucket_key(scale, d), r),
{
    proof {
        lemma_index_strictly_monotone(d, Date { year: 10000, month: 1, day: 1 });
        assert(d.day_index() + 7 < day_index_end());
    }
    match scale {
        Scale::Day => {
            let end = d.next_day();
            XSegment {
                scale: Scale::Day,
                start_datetime: DateTime::midnight(d),
                end_datetime: DateTime::midnight(end),
            }
        },
        Scale::Week => {
            let ghost i = d.day_index();
            let ghost k = week_of(i);
            let start = d.week_start();
            let w = d.weekday();
            proof {
                vstd::arithmetic::div_mod::lemma_fundamental_div_mod(i + 5, 7);
                assert(i == 7 * k + weekday_of(i) - 5);
                if i < weekday_of(i) {
                    assert(k == 0);
                    assert(week_of(start.day_index()) == 0);
                } else {
                    assert(start.day_index() == 7 * k - 5);
                    vstd::arithmetic::div_mod::lemma_fundamental_div_mod_converse(
                        7 * k - 5 + 5,
                        7,
                        k,
                        0,
                    );
                    assert(week_of(start.day_index()) == k);
                }
            }
            let mut end = d;
            let mut j: u8 = w;
            while j < 7
                invariant
                    w <= 7,
                    j <= 7,
                    end.valid(),
                    end.day_index() == d.day_index() + j - w,
                    d.day_index() + 7 < day_index_end(),
                decreases 7 - j,
            {
                end = end.next_day();
                j = j + 1;
            }
            proof {
                assert(end.day_index() == 7 * k + 2);
                assert(bucket_end_index(Scale::Week, k) == 7 * k + 2);
            }
            XSegment {
                scale: Scale::Week,
                start_datetime: DateTime::midnight(start),
                end_datetime: DateTime::midnight(end),
            }
        },
        Scale::Month => {
            let start = Date { year: d.year, month: d.month, day: 1 };
            let end = if d.month < 12 {
                Date { year: d.year, month: d.month + 1, day: 1 }
            } else {
                Date { year: d.year + 1, month: 1, day: 1 }
            };
            proof {
                let y = d.year as int;
                let m = d.month as int;
                lemma_month_key_inverse(y, m);
                if m < 12 {
                    lemma_month_key_inverse(y, m + 1);
                } else {
                    assert((y + 1) * 12 == y * 12 + 12) by (nonlinear_arith);
                    lemma_month_key_inverse(y + 1, 1);
                }
            }
            XSegment {
                scale: Scale::Month,
                start_datetime: DateTime::midnight(start),
                end_datetime: DateTime::midnight(end),
            }
        },
        Scale::Year => {
            let start = Date { year: d.year, month: 1, day: 1 };
            let end = Date { year: d.year + 1, month: 1, day: 1 };
            XSegment {
                scale: Scale::Year,
                start_datetime: DateTime::midnight(start),
                end_datetime: DateTime::midnight(end),
            }
        },
        Scale::All => {
            proof {
                assert(false);
            }
            XSegment {
                scale: Scale::All,
                start_datetime: DateTime::midnight(d),
                end_datetime: DateTime::midnight(d),
            }
        },
    }
}

/// An upper bound on every bucket key of the supported calendar, small
/// enough that index arithmetic cannot overflow.
pub open spec fn key_bound() -> int {
    0x400000
}

/// A keyed segment list: full buckets with consecutive keys from `first`.
pub open spec fn keyed_segments(s: Scale, first: int, l: Seq<XSegment>) -> bool {
    &&& forall|i: int| 0 <= i < l.len() ==> seg_is_bucket(s, first + i, #[trigger] l[i])
    &&& 0 <= first
    &&& first + l.len() <= key_bound()
    &&& (l.len() == 0 ==> first == 0)
}

/// The bucket key of a date, as a run-time number.
fn bucket_key_num(s: Scale, d: &Date) -> (r: u64)
    requires
        d.valid(),
        d.year <= 9999,
        s != Scale::All,
    ensures
        r as int == bucket_key(s, *d),
        r as int + 1 <= key_bound(),
{
    proof {
        lemma_index_strictly_monotone(*d, Date { year: 10000, month: 1, day: 1 });
    }
    match s {
        Scale::Day => d.day_number(),
        Scale::Week => {
            let n = d.day_number();
            proof {
                vstd::arithmetic::div_mod::lemma_div_is_ordered(
                    d.day_index() + 5,
                    day_index_end() + 5,
                    7,
                );
            }
            (n + 5) / 7
        },
        Scale::Month => (d.year as u64) * 12 + (d.month as u64) - 1,
        Scale::Year => d.year as u64,
        Scale::All => {
            proof {
                assert(false);
            }
            0
        },
    }
}

/// Appends the bucket of `cur` to the keyed list `l` unless the bucket is
/// already its last entry; `first` is the list's first key and `prev` the
/// day before `cur`, absent when the list is still empty.
fn extend_scale(
    l: &mut Vec<XSegment>,
    s: Scale,
    cur: &Date,
    Ghost(first): Ghost<int>,
    Ghost(prev): Ghost<Option<Date>>,
)
    requires
        cur.valid(),
        cur.year <= 9999,
        s != Scale::All,
        0 <= first,
        match prev {
            None => old(l)@.len() == 0 && first == bucket_key(s, *cur),
            Some(p) => {
                &&& p.valid()
                &&& p.day_index() + 1 == cur.day_index()
                &&& old(l)@.len() == bucket_key(s, p) - first + 1
                &&& old(l)@.len() >= 1
                &&& forall|i: int|
                    0 <= i < old(l)@.len() ==> seg_is_bucket(s, first + i, #[trigger] old(l)@[i])
            },
        },
    ensures
        forall|i: int|
            0 <= i < final(l)@.len() ==> seg_is_bucket(s, first + i, #[trigger] final(l)@[i]),
        final(l)@.len() == bucket_key(s, *cur) - first + 1,
        final(l)@.len() >= 1,
{
    let seg = segment_of(s, *cur);
    if l.len() == 0 {
        l.push(seg);
    } else {
        let ghost p = prev->Some_0;
        proof {
            lemma_index_strictly_monotone(*cur, Date { year: 10000, month: 1, day: 1 });
            lemma_succ(p);
            lemma_index_order(p.succ(), *cur);
            assert(p.succ() == *cur);
            lemma_bucket_key_step(s, p);
            lemma_bucket_contains(s, p);
            lemma_bucket_contains(s, *cur);
        }
        let last = l[l.len() - 1];
        proof {
            let k = bucket_key(s, p);
            assert(seg_is_bucket(s, k, last));
            if bucket_key(s, *cur) == k {
                lemma_index_order(last.start_datetime.date, seg.start_datetime.date);
                lemma_index_order(last.end_datetime.date, seg.end_datetime.date);
                assert(last == seg);
            } else {
                lemma_index_order(last.start_datetime.date, seg.start_datetime.date);
                assert(last != seg);
            }
        }
        if last != seg {
            l.push(seg);
        }
    }
}

/// The per-scale first bucket keys.  Together with the lists' lengths this
/// is the whole lookup index, since each scale's segments carry consecutive
/// keys.
#[derive(PartialEq, Eq, Structural, Debug, Copy, Clone)]
pub struct SegmentIndex {
    pub day_first: u64,
    pub week_first: u64,
    pub month_first: u64,
    pub year_first: u64,
}

/// For each scale, the ordered, gap-free segment list covering a date
/// range, with the key index.
#[derive(PartialEq, Eq, Debug)]
pub struct ScaleXSegments {
    pub day: Vec<XSegment>,
    pub week: Vec<XSegment>,
    pub month: Vec<XSegment>,
    pub year: Vec<XSegment>,
    pub all: Vec<XSegment>,
    pub index: SegmentIndex,
}

/// The mathematical content of a [`ScaleXSegments`].
pub struct SegmentsView {
    pub day: Seq<XSegment>,
    pub week: Seq<XSegment>,
    pub month: Seq<XSegment>,
    pub year: Seq<XSegment>,
    pub all: Seq<XSegment>,
    pub index: SegmentIndex,
}

impl View for ScaleXSegments {
    type V = SegmentsView;

    open spec fn view(&self) -> SegmentsView {
        SegmentsView {
            day: self.day@,
            week: self.week@,
            month: self.month@,
            year: self.year@,
            all: self.all@,
            index: self.index,
        }
    }
}

impl SegmentsView {
    /// The segment list of one scale.
    pub open spec fn of_scale(self, s: Scale) -> Seq<XSegment> {
        match s {
            Scale::Day => self.day,
            Scale::Week => self.week,
            Scale::Month => self.month,
            Scale::Year => self.year,
            Scale::All => self.all,
        }
    }

    /// The first bucket key of one bucketing scale.
    pub open spec fn first_key(self, s: Scale) -> int {
        match s {
            Scale::Day => self.index.day_first as int,
            Scale::Week => self.index.week_first as int,
            Scale::Month => self.index.month_first as int,
            Scale::Year => self.index.year_first as int,
            Scale::All => 0,
        }
    }

    /// Well-formedness: each bucketing scale holds a keyed segment list
    /// starting at its index entry, and the whole-range list holds at most
    /// one plain interval of whole days.
    pub open spec fn wf(self) -> bool {
        &&& keyed_segments(Scale::Day, self.index.day_first as int, self.day)
        &&& keyed_segments(Scale::Week, self.index.week_first as int, self.week)
        &&& keyed_segments(Scale::Month, self.index.month_first as int, self.month)
        &&& keyed_segments(Scale::Year, self.index.year_first as int, self.year)
        &&& self.all.len() <= 1
        &&& (self.all.len() == 1 ==> {
            let a = self.all[0];
            &&& a.scale == Scale::All
            &&& a.start_datetime.hour == 0
            &&& a.start_datetime.minute == 0
            &&& a.end_datetime.hour == 0
            &&& a.end_datetime.minute == 0
            &&& a.start_datetime.date.valid()
            &&& a.end_datetime.date.valid()
            &&& a.start_datetime.date.day_index() < a.end_datetime.date.day_index()
        })
    }

    /// Whether this value is the segmentation of the range `min..=max`:
    /// each bucketing scale covers exactly the buckets touched by the
    /// range, and the whole-range scale holds the one interval from `min`
    /// to the day after `max`.  An inverted range yields empty lists.
    pub open spec fn spans(self, min: Date, max: Date) -> bool {
        if min.day_index() > max.day_index() {
            &&& self.day.len() == 0
            &&& self.week.len() == 0
            &&& self.month.len() == 0
            &&& self.year.len() == 0
            &&& self.all.len() == 0
            &&& self.index == (SegmentIndex {
                day_first: 0,
                week_first: 0,
                month_first: 0,
                year_first: 0,
            })
        } else {
            &&& self.index.day_first as int == bucket_key(Scale::Day, min)
            &&& self.index.week_first as int == bucket_key(Scale::Week, min)
            &&& self.index.month_first as int == bucket_key(Scale::Month, min)
            &&& self.index.year_first as int == bucket_key(Scale::Year, min)
            &&& self.day.len() == bucket_key(Scale::Day, max) - bucket_key(Scale::Day, min) + 1
            &&& self.week.len() == bucket_key(Scale::Week, max) - bucket_key(Scale::Week, min) + 1
            &&& self.month.len() == bucket_key(Scale::Month, max) - bucket_key(Scale::Month, min)
                + 1
            &&& self.year.len() == bucket_key(Scale::Year, max) - bucket_key(Scale::Year, min) + 1
            &&& self.all.len() == 1
            &&& self.all[0] == (XSegment {
                scale: Scale::All,
                start_datetime: DateTime { date: min, hour: 0, minute: 0 },
                end_datetime: DateTime { date: max.succ(), hour: 0, minute: 0 },
            })
        }
    }
}

impl ScaleXSegments {
    /// Well-formedness of the segment lists and index.
    pub open spec fn wf(self) -> bool {
        self@.wf()
    }

    /// The segment list of one scale.
    pub fn values(&self, scale: Scale) -> (r: &Vec<XSegment>)
        ensures
            r@ == self@.of_scale(scale),
    {
        match scale {
            Scale::Day => &self.day,
            Scale::Week => &self.week,
            Scale::Month => &self.month,
            Scale::Year => &self.year,
            Scale::All => &self.all,
        }
    }

    /// Builds the segmentation of `start_date..=end_date`: one pass over
    /// the calendar days of the range, appending each day's bucket at every
    /// scale and collapsing adjacent duplicates.  An inverted range yields
    /// empty lists.
    #[verifier::rlimit(100)]
    #[verifier::spinoff_prover]
    pub fn new(start_date: &Date, end_date: &Date) -> (r: ScaleXSegments)
        requires
            start_date.valid(),
            end_date.valid(),
            start_date.year <= 9999,
            end_date.year <= 9999,
        ensures
            r.wf(),
            r@.spans(*start_date, *end_date),
    {
        let mut day: Vec<XSegment> = Vec::new();
        let mut week: Vec<XSegment> = Vec::new();
        let mut month: Vec<XSegment> = Vec::new();
        let mut year: Vec<XSegment> = Vec::new();
        let mut all: Vec<XSegment> = Vec::new();
        let mut index = SegmentIndex { day_first: 0, week_first: 0, month_first: 0, year_first: 0 };
        if start_date.le(end_date) {
            proof {
                lemma_index_strictly_monotone(*end_date, Date { year: 10000, month: 1, day: 1 });
            }
            let all_end = end_date.next_day();
            all.push(
                XSegment {
                    scale: Scale::All,
                    start_datetime: DateTime::midnight(*start_date),
                    end_datetime: DateTime::midnight(all_end),
                },
            );
            index = SegmentIndex {
                day_first: bucket_key_num(Scale::Day, start_date),
                week_first: bucket_key_num(Scale::Week, start_date),
                month_first: bucket_key_num(Scale::Month, start_date),
                year_first: bucket_key_num(Scale::Year, start_date),
            };
            let n0 = start_date.day_number();
            let n1 = end_date.day_number();
            let mut cur = *start_date;
            let mut processed: u64 = 0;
            let ghost mut prev: Option<Date> = None;
            while processed <= n1 - n0
                invariant
                    start_date.valid(),
                    end_date.valid(),
                    start_date.year <= 9999,
                    end_date.year <= 9999,
                    n0 as int == start_date.day_index(),
                    n1 as int == end_date.day_index(),
                    n0 <= n1,
                    processed <= n1 - n0 + 1,
                    cur.valid(),
                    cur.day_index() == n0 + processed,
                    index.day_first as int == bucket_key(Scale::Day, *start_date),
                    index.week_first as int == bucket_key(Scale::Week, *start_date),
                    index.month_first as int == bucket_key(Scale::Month, *start_date),
                    index.year_first as int == bucket_key(Scale::Year, *start_date),
                    index.day_first as int + 1 <= key_bound(),
                    index.week_first as int + 1 <= key_bound(),
                    index.month_first as int + 1 <= key_bound(),
                    index.year_first as int + 1 <= key_bound(),
                    match prev {
                        None => processed == 0 && day@.len() == 0 && week@.len() == 0 && month@.len()
                            == 0 && year@.len() == 0,
                        Some(p) => {
                            &&& processed >= 1
                            &&& p.valid()
                            &&& p.year <= 9999
                            &&& p.day_index() == n0 + processed - 1
                            &&& scale_progress(Scale::Day, index.day_first as int, day@, p)
                            &&& scale_progress(Scale::Week, index.week_first as int, week@, p)
                            &&& scale_progress(Scale::Month, index.month_first as int, month@, p)
                            &&& scale_progress(Scale::Year, index.year_first as int, year@, p)
                        },
                    },
                decreases n1 - n0 + 1 - processed,
            {
                proof {
                    lemma_index_order(cur, *end_date);
                    assert(cur.year <= 9999);
                    if processed == 0 {
                        lemma_index_order(cur, *start_date);
                        assert(cur == *start_date);
                    }
                }
                extend_scale(&mut day, Scale::Day, &cur, Ghost(index.day_first as int), Ghost(prev));
                extend_scale(
                    &mut week,
                    Scale::Week,
                    &cur,
                    Ghost(index.week_first as int),
                    Ghost(prev),
                );
                extend_scale(
                    &mut month,
                    Scale::Month,
                    &cur,
                    Ghost(index.month_first as int),
                    Ghost(prev),
                );
                extend_scale(
                    &mut year,
                    Scale::Year,
                    &cur,
                    Ghost(index.year_first as int),
                    Ghost(prev),
                );
                proof {
                    prev = Some(cur);
                }
                proof {
                    lemma_index_strictly_monotone(*end_date, Date { year: 10000, month: 1, day: 1 });
                }
                cur = cur.next_day();
                processed = processed + 1;
            }
            proof {
                let p = prev->Some_0;
                lemma_index_order(p, *end_date);
                assert(p == *end_date);
                lemma_key_bounds(*end_date);
            }
        }
        ScaleXSegments { day, week, month, year, all, index }
    }
}

/// The looked-up segment position of `dt` at scale `s`: its bucket key's
/// offset in the keyed list, or nothing when the bucket is not covered.
/// At the whole-range scale every datetime maps to the single segment.
pub open spec fn seg_lookup(v: SegmentsView, s: Scale, dt: DateTime) -> Option<int> {
    if s == Scale::All {
        if v.all.len() > 0 {
            Some(0int)
        } else {
            None
        }
    } else {
        let k = bucket_key(s, dt.date);
        let first = v.first_key(s);
        if first <= k < first + v.of_scale(s).len() {
            Some(k - first)
        } else {
            None
        }
    }
}

/// A bucket holds at least one day.
pub proof fn lemma_bucket_nonempty(s: Scale, k: int)
    requires
        0 <= k,
        s != Scale::All,
    ensures
        bucket_start_index(s, k) < bucket_end_index(s, k),
{
    match s {
        Scale::Month => {
            lemma_month_step(k / 12, k % 12 + 1);
            if k % 12 + 1 == 12 {
                vstd::arithmetic::div_mod::lemma_fundamental_div_mod(k, 12);
                assert((k / 12 + 1) * 12 == (k / 12) * 12 + 12) by (nonlinear_arith);
                vstd::arithmetic::div_mod::lemma_fundamental_div_mod_converse(
                    k + 1,
                    12,
                    k / 12 + 1,
                    0,
                );
                lemma_year_start_step(k / 12);
            } else {
                vstd::arithmetic::div_mod::lemma_fundamental_div_mod(k, 12);
                vstd::arithmetic::div_mod::lemma_fundamental_div_mod_converse(
                    k + 1,
                    12,
                    k / 12,
                    k % 12 + 1,
                );
            }
        },
        Scale::Year => {
            lemma_year_start_step(k);
        },
        _ => {},
    }
}

/// Bucket boundaries never decrease with the key.
pub proof fn lemma_bucket_start_monotone(s: Scale, k1: int, k2: int)
    requires
        0 <= k1 <= k2,
        s != Scale::All,
    ensures
        bucket_start_index(s, k1) <= bucket_start_index(s, k2),
    decreases k2 - k1,
{
    if k1 < k2 {
        lemma_bucket_start_monotone(s, k1, k2 - 1);
        lemma_bucket_nonempty(s, k2 - 1);
    }
}

impl ScaleXSegments {
    /// Finds the position of the segment whose bucket holds `datetime`, or
    /// nothing when the datetime falls outside the covered buckets.
    pub fn find_correponding_x_segment_idx(&self, scale: &Scale, datetime: &DateTime) -> (r: Option<
        usize,
    >)
        requires
            self.wf(),
            datetime.valid(),
            datetime.date.year <= 9999,
        ensures
            r is Some <==> seg_lookup(self@, *scale, *datetime) is Some,
            r is Some ==> r->Some_0 as int == seg_lookup(self@, *scale, *datetime)->Some_0,
            r is Some ==> r->Some_0 < self@.of_scale(*scale).len(),
            (r is Some && *scale != Scale::All) ==> seg_is_bucket(
                *scale,
                bucket_key(*scale, datetime.date),
                self@.of_scale(*scale)[r->Some_0 as int],
            ),
    {
        match scale {
            Scale::All => {
                if self.all.len() > 0 {
                    Some(0)
                } else {
                    None
                }
            },
            _ => {
                let k = bucket_key_num(*scale, &datetime.date);
                let first = match scale {
                    Scale::Day => self.index.day_first,
                    Scale::Week => self.index.week_first,
                    Scale::Month => self.index.month_first,
                    Scale::Year => self.index.year_first,
                    Scale::All => 0,
                };
                let list = self.values(*scale);
                if first <= k && k - first < list.len() as u64 {
                    Some((k - first) as usize)
                } else {
                    None
                }
            },
        }
    }

    /// Recomputes the index of keyed segment lists: the first key of each.
    fn build_index(
        day: &Vec<XSegment>,
        week: &Vec<XSegment>,
        month: &Vec<XSegment>,
        year: &Vec<XSegment>,
        Ghost(firsts): Ghost<SegmentIndex>,
    ) -> (r: SegmentIndex)
        requires
            keyed_segments(Scale::Day, firsts.day_first as int, day@),
            keyed_segments(Scale::Week, firsts.week_first as int, week@),
            keyed_segments(Scale::Month, firsts.month_first as int, month@),
            keyed_segments(Scale::Year, firsts.year_first as int, year@),
        ensures
            day@.len() > 0 ==> r.day_first == firsts.day_first,
            week@.len() > 0 ==> r.week_first == firsts.week_first,
            month@.len() > 0 ==> r.month_first == firsts.month_first,
            year@.len() > 0 ==> r.year_first == firsts.year_first,
            day@.len() == 0 ==> r.day_first == 0,
            week@.len() == 0 ==> r.week_first == 0,
            month@.len() == 0 ==> r.month_first == 0,
            year@.len() == 0 ==> r.year_first == 0,
    {
        SegmentIndex {
            day_first: Self::first_key_of(day, Scale::Day, Ghost(firsts.day_first as int)),
            week_first: Self::first_key_of(week, Scale::Week, Ghost(firsts.week_first as int)),
            month_first: Self::first_key_of(month, Scale::Month, Ghost(firsts.month_first as int)),
            year_first: Self::first_key_of(year, Scale::Year, Ghost(firsts.year_first as int)),
        }
    }

    /// The first bucket key of a keyed list, zero when it is empty.
    fn first_key_of(l: &Vec<XSegment>, s: Scale, Ghost(first): Ghost<int>) -> (r: u64)
        requires
            keyed_segments(s, first, l@),
            s != Scale::All,
        ensures
            l@.len() > 0 ==> r == first,
            l@.len() == 0 ==> r == 0,
    {
        if l.len() == 0 {
            0
        } else {
            let d = l[0].start_datetime.date;
            proof {
                assert(seg_is_bucket(s, first, l@[0]));
            }
            match s {
                Scale::Day => d.day_number(),
                Scale::Week => (d.day_number() + 5) / 7,
                Scale::Month => (d.year as u64) * 12 + (d.month as u64) - 1,
                Scale::Year => d.year as u64,
                Scale::All => 0,
            }
        }
    }
}

/// Whether a segment's interval lies inside the inclusive day window
/// `a..=b`: it starts no earlier than `a`, and its half-open end is no
/// later than the day after `b`, so every day it covers lies in the window.
pub open spec fn seg_in_window(seg: XSegment, a: Date, b: Date) -> bool {
    seg.start_datetime.date.day_index() >= a.day_index() && seg.end_datetime.date.day_index()
        <= b.day_index() + 1
}

/// The subsequence of segments lying inside the window, in order.
pub open spec fn kept_segments(l: Seq<XSegment>, a: Date, b: Date) -> Seq<XSegment>
    decreases l.len(),
{
    if l.len() == 0 {
        l
    } else {
        let p = kept_segments(l.drop_last(), a, b);
        if seg_in_window(l.last(), a, b) {
            p.push(l.last())
        } else {
            p
        }
    }
}

/// The first bucket key carried by a segment list, zero when it is empty.
pub open spec fn seq_first_key(s: Scale, l: Seq<XSegment>) -> int {
    if l.len() == 0 {
        0
    } else {
        bucket_key(s, l[0].start_datetime.date)
    }
}

/// Keeps the segments of one keyed list lying inside the window.  The kept
/// segments are contiguous, so the result is again a keyed list.
#[verifier::rlimit(100)]
#[verifier::spinoff_prover]
fn filter_scale(
    l: &Vec<XSegment>,
    s: Scale,
    a: &Date,
    b: &Date,
    Ghost(first): Ghost<int>,
) -> (r: Vec<XSegment>)
    requires
        keyed_segments(s, first, l@),
        s != Scale::All,
        a.valid(),
        b.valid(),
    ensures
        r@ == kept_segments(l@, *a, *b),
        keyed_segments(s, seq_first_key(s, r@), r@),
{
    let mut out: Vec<XSegment> = Vec::new();
    let ghost mut lo: int = 0;
    proof {
        assert(l@.subrange(0, 0) =~= Seq::<XSegment>::empty());
    }
    let mut j: usize = 0;
    while j < l.len()
        invariant
            j <= l@.len(),
            keyed_segments(s, first, l@),
            s != Scale::All,
            a.valid(),
            b.valid(),
            out@ == kept_segments(l@.subrange(0, j as int), *a, *b),
            out@.len() == 0 ==> forall|q: int|
                0 <= q < j ==> !seg_in_window(#[trigger] l@[q], *a, *b),
            out@.len() > 0 ==> {
                &&& 0 <= lo
                &&& lo + out@.len() <= j
                &&& out@ == l@.subrange(lo, lo + out@.len())
                &&& seg_in_window(l@[lo], *a, *b)
                &&& (lo + out@.len() < j ==> !seg_in_window(l@[lo + out@.len()], *a, *b))
            },
        decreases l@.len() - j,
    {
        let seg = l[j];
        proof {
            assert(seg_is_bucket(s, first + j, l@[j as int]));
            assert(l@.subrange(0, j + 1).drop_last() =~= l@.subrange(0, j as int));
            assert(l@.subrange(0, j + 1).last() == l@[j as int]);
        }
        let kept = a.le(&seg.start_datetime.date) && seg.end_datetime.date.day_number()
            <= b.day_number() + 1;
        if kept {
            if out.len() == 0 {
                proof {
                    lo = j as int;
                }
            } else {
                proof {
                    if lo + out@.len() < j {
                        let q = lo + out@.len();
                        assert(seg_is_bucket(s, first + lo, l@[lo]));
                        assert(seg_is_bucket(s, first + q, l@[q]));
                        lemma_bucket_start_monotone(s, first + lo, first + q);
                        lemma_bucket_start_monotone(s, first + q + 1, first + j + 1);
                        assert(false);
                    }
                }
            }
            let ghost pre = out@;
            out.push(seg);
            proof {
                assert(out@ =~= l@.subrange(lo, lo + pre.len() + 1));
            }
        }
        j = j + 1;
    }
    proof {
        assert(l@.subrange(0, l@.len() as int) =~= l@);
        if out@.len() > 0 {
            assert(out@[0] == l@[lo]);
            assert(seg_is_bucket(s, first + lo, l@[lo]));
            assert(seq_first_key(s, out@) == first + lo);
            assert forall|i: int| 0 <= i < out@.len() implies seg_is_bucket(
                s,
                first + lo + i,
                #[trigger] out@[i],
            ) by {
                assert(out@[i] == l@[lo + i]);
            }
        }
    }
    out
}

/// Keeps a whole-range segment when it lies inside the window.
fn filter_all_list(l: &Vec<XSegment>, a: &Date, b: &Date) -> (r: Vec<XSegment>)
    requires
        a.valid(),
        b.valid(),
        l@.len() <= 1,
        l@.len() == 1 ==> l@[0].start_datetime.date.valid() && l@[0].end_datetime.date.valid(),
    ensures
        r@ == kept_segments(l@, *a, *b),
        r@.len() <= l@.len(),
        r@.len() == 1 ==> r@[0] == l@[0],
{
    let mut out: Vec<XSegment> = Vec::new();
    proof {
        assert(kept_segments(Seq::<XSegment>::empty(), *a, *b) == Seq::<XSegment>::empty());
        if l@.len() == 1 {
            assert(l@.drop_last() =~= Seq::<XSegment>::empty());
            assert(kept_segments(l@.drop_last(), *a, *b) == Seq::<XSegment>::empty());
            assert(l@.last() == l@[0]);
        }
    }
    if l.len() > 0 {
        let seg = l[0];
        if a.le(&seg.start_datetime.date) && seg.end_datetime.date.day_number() <= b.day_number()
            + 1 {
            out.push(seg);
            proof {
                assert(out@ =~= kept_segments(l@, *a, *b));
            }
        }
    }
    out
}

impl XSegment {
    /// Renders the segment's x-axis label: the start day, the start week as
    /// year and ISO week number, the start month, the start year, or a
    /// fixed word for the whole range.
    pub fn label(&self) -> (r: String)
        requires
            self.start_datetime.date.valid(),
            self.start_datetime.date.year <= 9999,
            self.scale == Scale::Week ==> self.start_datetime.date.day_index() >= 2,
        ensures
            match self.scale {
                Scale::Day => r@ == dec_str(self.start_datetime.date.year as int) + seq!['-']
                    + dec2_str(self.start_datetime.date.month as int) + seq!['-'] + dec2_str(
                    self.start_datetime.date.day as int,
                ),
                Scale::Week => exists|wy: int, wk: int|
                    #![auto]
                    is_iso_week_of(self.start_datetime.date, wy, wk) && r@ == dec_str(
                        self.start_datetime.date.year as int,
                    ) + seq!['-', 'w'] + dec2_str(wk),
                Scale::Month => r@ == dec_str(self.start_datetime.date.year as int) + seq!['-']
                    + dec2_str(self.start_datetime.date.month as int),
                Scale::Year => r@ == dec_str(self.start_datetime.date.year as int),
                Scale::All => r@ == seq!['a', 'l', 'l'],
            },
    {
        proof {
            reveal_strlit("-");
            reveal_strlit("-w");
            reveal_strlit("all");
        }
        let d = &self.start_datetime.date;
        match self.scale {
            Scale::Day => {
                let mut s = num_text(d.year as u64);
                s.append("-");
                let m = num_text2(d.month);
                s.append(m.as_str());
                s.append("-");
                let dd = num_text2(d.day);
                s.append(dd.as_str());
                proof {
                    assert(s@ =~= dec_str(d.year as int) + seq!['-'] + dec2_str(d.month as int)
                        + seq!['-'] + dec2_str(d.day as int));
                }
                s
            },
            Scale::Week => {
                let (_, wk) = d.iso_week();
                let mut s = num_text(d.year as u64);
                s.append("-w");
                let w = num_text2(wk);
                s.append(w.as_str());
                proof {
                    assert("-w"@ =~= seq!['-', 'w']);
                    assert(s@ =~= dec_str(d.year as int) + seq!['-', 'w'] + dec2_str(wk as int));
                }
                s
            },
            Scale::Month => {
                let mut s = num_text(d.year as u64);
                s.append("-");
                let m = num_text2(d.month);
                s.append(m.as_str());
                proof {
                    assert(s@ =~= dec_str(d.year as int) + seq!['-'] + dec2_str(d.month as int));
                }
                s
            },
            Scale::Year => num_text(d.year as u64),
            Scale::All => {
                let s = "all".to_owned();
                proof {
                    assert(s@ =~= seq!['a', 'l', 'l']);
                }
                s
            },
        }
    }
}

/// Copies a vector of segments.
fn copy_segments(v: &Vec<XSegment>) -> (r: Vec<XSegment>)
    ensures
        r@ == v@,
{
    let mut out: Vec<XSegment> = Vec::new();
    let mut i: usize = 0;
    while i < v.len()
        invariant
            i <= v@.len(),
            out@ == v@.subrange(0, i as int),
        decreases v@.len() - i,
    {
        out.push(v[i]);
        proof {
            assert(out@ =~= v@.subrange(0, i + 1));
        }
        i = i + 1;
    }
    proof {
        assert(v@.subrange(0, v@.len() as int) =~= v@);
    }
    out
}

impl Clone for ScaleXSegments {
    /// A clone has the same mathematical content.
    fn clone(&self) -> (r: Self)
        ensures
            r@ == self@,
    {
        ScaleXSegments {
            day: copy_segments(&self.day),
            week: copy_segments(&self.week),
            month: copy_segments(&self.month),
            year: copy_segments(&self.year),
            all: copy_segments(&self.all),
            index: self.index,
        }
    }
}

impl ScaleXSegments {
    /// Keeps, at every scale, the segments whose intervals lie inside the
    /// inclusive day window `start_date..=end_date`.
    #[verifier::rlimit(100)]
    #[verifier::spinoff_prover]
    pub fn filter_by_date(&self, start_date: &Date, end_date: &Date) -> (r: ScaleXSegments)
        requires
            self.wf(),
            start_date.valid(),
            end_date.valid(),
        ensures
            r.wf(),
            r@.day == kept_segments(self@.day, *start_date, *end_date),
            r@.week == kept_segments(self@.week, *start_date, *end_date),
            r@.month == kept_segments(self@.month, *start_date, *end_date),
            r@.year == kept_segments(self@.year, *start_date, *end_date),
            r@.all == kept_segments(self@.all, *start_date, *end_date),
            r@.index.day_first as int == seq_first_key(Scale::Day, r@.day),
            r@.index.week_first as int == seq_first_key(Scale::Week, r@.week),
            r@.index.month_first as int == seq_first_key(Scale::Month, r@.month),
            r@.index.year_first as int == seq_first_key(Scale::Year, r@.year),
    {
        let day = filter_scale(
            &self.day,
            Scale::Day,
            start_date,
            end_date,
            Ghost(self.index.day_first as int),
        );
        let week = filter_scale(
            &self.week,
            Scale::Week,
            start_date,
            end_date,
            Ghost(self.index.week_first as int),
        );
        let month = filter_scale(
            &self.month,
            Scale::Month,
            start_date,
            end_date,
            Ghost(self.index.month_first as int),
        );
        let year = filter_scale(
            &self.year,
            Scale::Year,
            start_date,
            end_date,
            Ghost(self.index.year_first as int),
        );
        let all = filter_all_list(&self.all, start_date, end_date);
        let ghost firsts = SegmentIndex {
            day_first: seq_first_key(Scale::Day, day@) as u64,
            week_first: seq_first_key(Scale::Week, week@) as u64,
            month_first: seq_first_key(Scale::Month, month@) as u64,
            year_first: seq_first_key(Scale::Year, year@) as u64,
        };
        let index = ScaleXSegments::build_index(&day, &week, &month, &year, Ghost(firsts));
        ScaleXSegments { day, week, month, year, all, index }
    }
}

/// Law: over a non-inverted range, every scale yields at least one segment,
/// the segments are contiguous half-open intervals in ascending order — so
/// sorted and non-overlapping — and the whole-range scale yields exactly
/// one.
#[verifier::rlimit(100)]
#[verifier::spinoff_prover]
pub proof fn lemma_segments_sorted_cover(v: SegmentsView, min: Date, max: Date, sc: Scale)
    requires
        v.wf(),
        v.spans(min, max),
        min.valid(),
        max.valid(),
        min.day_index() <= max.day_index(),
    ensures
        v.of_scale(sc).len() >= 1,
        v.all.len() == 1,
        forall|i: int|
            0 <= i < v.of_scale(sc).len() - 1 ==> (#[trigger] v.of_scale(sc)[i]).end_datetime
                == v.of_scale(sc)[i + 1].start_datetime,
        forall|i: int|
            0 <= i < v.of_scale(sc).len() ==> (#[trigger] v.of_scale(sc)[i]).start_datetime.minute_index()
                < v.of_scale(sc)[i].end_datetime.minute_index(),
{
    if sc != Scale::All {
        lemma_bucket_key_monotone(sc, min, max);
        let first = v.first_key(sc);
        let l = v.of_scale(sc);
        assert forall|i: int|
            0 <= i < l.len() - 1 implies (#[trigger] l[i]).end_datetime == l[i
            + 1].start_datetime by {
            assert(seg_is_bucket(sc, first + i, l[i]));
            assert(seg_is_bucket(sc, first + i + 1, l[i + 1]));
            lemma_index_order(l[i].end_datetime.date, l[i + 1].start_datetime.date);
        }
        assert forall|i: int|
            0 <= i < l.len() implies (#[trigger] l[i]).start_datetime.minute_index()
            < l[i].end_datetime.minute_index() by {
            assert(seg_is_bucket(sc, first + i, l[i]));
            lemma_bucket_nonempty(sc, first + i);
        }
    } else {
        assert(v.of_scale(sc) == v.all);
    }
}

/// Law: over a non-inverted range, every scale's segments are sorted
/// strictly ascending by start moment and are pairwise non-overlapping:
/// each earlier segment ends no later than any later segment starts.
pub proof fn lemma_segments_pairwise_order(v: SegmentsView, min: Date, max: Date, sc: Scale)
    requires
        v.wf(),
        v.spans(min, max),
        min.valid(),
        max.valid(),
        min.day_index() <= max.day_index(),
    ensures
        forall|i: int, j: int|
            #![trigger v.of_scale(sc)[i], v.of_scale(sc)[j]]
            0 <= i < j < v.of_scale(sc).len() ==> v.of_scale(sc)[i].start_datetime.minute_index()
                < v.of_scale(sc)[j].start_datetime.minute_index() && v.of_scale(
                sc,
            )[i].end_datetime.minute_index() <= v.of_scale(sc)[j].start_datetime.minute_index(),
{
    if sc != Scale::All {
        lemma_keyed_pairwise(sc, v.first_key(sc), v.of_scale(sc));
    } else {
        assert(v.of_scale(sc) == v.all);
        assert(v.all.len() <= 1);
    }
}

/// In a keyed list the segments' boundaries grow with the position: every
/// earlier segment starts strictly before and ends no later than a later
/// segment's start.
proof fn lemma_keyed_pairwise(s: Scale, first: int, l: Seq<XSegment>)
    requires
        s != Scale::All,
        0 <= first,
        forall|i: int| 0 <= i < l.len() ==> seg_is_bucket(s, first + i, #[trigger] l[i]),
    ensures
        forall|i: int, j: int|
            #![trigger l[i], l[j]]
            0 <= i < j < l.len() ==> l[i].start_datetime.minute_index()
                < l[j].start_datetime.minute_index() && l[i].end_datetime.minute_index()
                <= l[j].start_datetime.minute_index(),
{
    assert forall|i: int, j: int|
        #![trigger l[i], l[j]]
        0 <= i < j < l.len() implies l[i].start_datetime.minute_index()
        < l[j].start_datetime.minute_index() && l[i].end_datetime.minute_index()
        <= l[j].start_datetime.minute_index() by {
        assert(seg_is_bucket(s, first + i, l[i]));
        assert(seg_is_bucket(s, first + j, l[j]));
        lemma_bucket_nonempty(s, first + i);
        lemma_bucket_start_monotone(s, first + i + 1, first + j);
    }
}

/// Law: over a non-inverted range, the number of day-scale segments is the
/// number of calendar days of the inclusive range.
pub proof fn lemma_day_segment_count(v: SegmentsView, min: Date, max: Date)
    requires
        v.wf(),
        v.spans(min, max),
        min.day_index() <= max.day_index(),
    ensures
        v.day.len() == max.day_index() - min.day_index() + 1,
{
}

/// Two well-formed keyed lists over the same keys are equal: a bucket
/// segment is determined by its scale and key.
proof fn lemma_keyed_unique(s: Scale, first: int, l1: Seq<XSegment>, l2: Seq<XSegment>)
    requires
        l1.len() == l2.len(),
        forall|i: int| 0 <= i < l1.len() ==> seg_is_bucket(s, first + i, #[trigger] l1[i]),
        forall|i: int| 0 <= i < l2.len() ==> seg_is_bucket(s, first + i, #[trigger] l2[i]),
    ensures
        l1 == l2,
{
    assert forall|i: int| 0 <= i < l1.len() implies l1[i] == l2[i] by {
        lemma_index_order(l1[i].start_datetime.date, l2[i].start_datetime.date);
        lemma_index_order(l1[i].end_datetime.date, l2[i].end_datetime.date);
    }
    assert(l1 =~= l2);
}

/// The covered range determines the whole segmentation: two well-formed
/// segmentations of one range are equal.
pub proof fn lemma_spans_unique(v1: SegmentsView, v2: SegmentsView, min: Date, max: Date)
    requires
        v1.wf(),
        v1.spans(min, max),
        v2.wf(),
        v2.spans(min, max),
    ensures
        v1 == v2,
{
    if min.day_index() > max.day_index() {
        assert(v1.day =~= v2.day);
        assert(v1.week =~= v2.week);
        assert(v1.month =~= v2.month);
        assert(v1.year =~= v2.year);
        assert(v1.all =~= v2.all);
    } else {
        lemma_keyed_unique(Scale::Day, bucket_key(Scale::Day, min), v1.day, v2.day);
        lemma_keyed_unique(Scale::Week, bucket_key(Scale::Week, min), v1.week, v2.week);
        lemma_keyed_unique(Scale::Month, bucket_key(Scale::Month, min), v1.month, v2.month);
        lemma_keyed_unique(Scale::Year, bucket_key(Scale::Year, min), v1.year, v2.year);
        assert(v1.all =~= v2.all);
        assert(v1.index == v2.index);
    }
}

/// Progress of one scale's list after processing the days up to `p`.
pub open spec fn scale_progress(s: Scale, first: int, l: Seq<XSegment>, p: Date) -> bool {
    &&& l.len() == bucket_key(s, p) - first + 1
    &&& l.len() >= 1
    &&& forall|i: int| 0 <= i < l.len() ==> seg_is_bucket(s, first + i, #[trigger] l[i])
}

/// Bucket keys of supported dates stay below the key bound.
pub proof fn lemma_key_bounds(d: Date)
    requires
        d.valid(),
        d.year <= 9999,
    ensures
        bucket_key(Scale::Day, d) + 1 <= key_bound(),
        bucket_key(Scale::Week, d) + 1 <= key_bound(),
        bucket_key(Scale::Month, d) + 1 <= key_bound(),
        bucket_key(Scale::Year, d) + 1 <= key_bound(),
        bucket_key(Scale::Day, d) >= 0,
        bucket_key(Scale::Week, d) >= 0,
        bucket_key(Scale::Month, d) >= 0,
        bucket_key(Scale::Year, d) >= 0,
{
    lemma_index_within_year(d);
    lemma_index_strictly_monotone(d, Date { year: 10000, month: 1, day: 1 });
    vstd::arithmetic::div_mod::lemma_div_is_ordered(d.day_index() + 5, day_index_end() + 5, 7);
}

/// Stepping to the next day keeps the bucket key or raises it by one.
pub proof fn lemma_bucket_key_step(s: Scale, d: Date)
    requires
        d.valid(),
        d.day_index() + 1 < day_index_end(),
        s != Scale::All,
    ensures
        bucket_key(s, d.succ()) == bucket_key(s, d) || bucket_key(s, d.succ()) == bucket_key(s, d)
            + 1,
{
    lemma_succ(d);
    let i = d.day_index();
    match s {
        Scale::Day => {},
        Scale::Week => {
            vstd::arithmetic::div_mod::lemma_div_is_ordered(i + 5, i + 6, 7);
            vstd::arithmetic::div_mod::lemma_div_plus_one(i + 5, 7);
            vstd::arithmetic::div_mod::lemma_div_is_ordered(i + 6, i + 12, 7);
        },
        Scale::Month => {
            assert((d.year + 1) * 12 == d.year * 12 + 12) by (nonlinear_arith);
        },
        Scale::Year => {},
        Scale::All => {},
    }
}

} // verus!
