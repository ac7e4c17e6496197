//! Per-scale numeric series: for every scale, the total minutes per
//! segment, and one such series per present action and per present project
//! label, all aligned to that scale's segment list.

use vstd::prelude::*;

use crate::activity::Action;
use crate::activity::Activity;
use crate::activity::Activities;
use crate::activity::ActivityView;
use crate::activity::MAX_ACTIVITIES;
use crate::activity::all_wf;
use crate::activity::duration_bound;
use crate::activity::lemma_duration_bound;
use crate::activity::total_minutes_of;
use crate::date::Date;
use crate::date::DateTime;
use crate::graph::scale::Scale;
use crate::graph::x_segments::ScaleXSegments;
use crate::graph::x_segments::SegmentsView;
use crate::graph::x_segments::seg_lookup;

verus! {

/// One series of minute totals per scale.
#[derive(PartialEq, Eq, Debug)]
pub struct SeriesByScale {
    pub day: Vec<i64>,
    pub week: Vec<i64>,
    pub month: Vec<i64>,
    pub year: Vec<i64>,
    pub all: Vec<i64>,
}

/// One table of minute-total series per scale; rows align with a key list.
#[derive(PartialEq, Eq, Debug)]
pub struct TableByScale {
    pub day: Vec<Vec<i64>>,
    pub week: Vec<Vec<i64>>,
    pub month: Vec<Vec<i64>>,
    pub year: Vec<Vec<i64>>,
    pub all: Vec<Vec<i64>>,
}

impl SeriesByScale {
    /// The series of one scale.
    pub open spec fn of_scale(self, s: Scale) -> Seq<i64> {
        match s {
            Scale::Day => self.day@,
            Scale::Week => self.week@,
            Scale::Month => self.month@,
            Scale::Year => self.year@,
            Scale::All => self.all@,
        }
    }

    /// The series of one scale, at run time.
    pub fn get(&self, s: Scale) -> (r: &Vec<i64>)
        ensures
            r@ == self.of_scale(s),
    {
        match s {
            Scale::Day => &self.day,
            Scale::Week => &self.week,
            Scale::Month => &self.month,
            Scale::Year => &self.year,
            Scale::All => &self.all,
        }
    }
}

impl TableByScale {
    /// The rows of one scale.
    pub open spec fn of_scale(self, s: Scale) -> Seq<Vec<i64>> {
        match s {
            Scale::Day => self.day@,
            Scale::Week => self.week@,
            Scale::Month => self.month@,
            Scale::Year => self.year@,
            Scale::All => self.all@,
        }
    }

    /// Row `j` of one scale's table.
    pub open spec fn row(self, s: Scale, j: int) -> Seq<i64> {
        self.of_scale(s)[j]@
    }

    /// The rows of one scale, at run time.
    pub fn get(&self, s: Scale) -> (r: &Vec<Vec<i64>>)
        ensures
            r@ == self.of_scale(s),
    {
        match s {
            Scale::Day => &self.day,
            Scale::Week => &self.week,
            Scale::Month => &self.month,
            Scale::Year => &self.year,
            Scale::All => &self.all,
        }
    }
}

/// The per-scale series of a set of records: totals, and one series per
/// present action and per present project label, rows aligned with the
/// `actions` and `projects` key lists.
#[derive(PartialEq, Eq, Debug)]
pub struct YActivities {
    pub actions: Vec<Action>,
    pub projects: Vec<String>,
    pub scale_total_minutes: SeriesByScale,
    pub scale_actions_total_minutes: TableByScale,
    pub scale_projects_total_minutes: TableByScale,
}

/// One series of minute totals per scale, as a mathematical value.
pub struct SeriesView {
    pub day: Seq<i64>,
    pub week: Seq<i64>,
    pub month: Seq<i64>,
    pub year: Seq<i64>,
    pub all: Seq<i64>,
}

/// One table of minute-total series per scale, as a mathematical value.
pub struct TableView {
    pub day: Seq<Seq<i64>>,
    pub week: Seq<Seq<i64>>,
    pub month: Seq<Seq<i64>>,
    pub year: Seq<Seq<i64>>,
    pub all: Seq<Seq<i64>>,
}

impl SeriesView {
    /// The series of one scale.
    pub open spec fn of_scale(self, s: Scale) -> Seq<i64> {
        match s {
            Scale::Day => self.day,
            Scale::Week => self.week,
            Scale::Month => self.month,
            Scale::Year => self.year,
            Scale::All => self.all,
        }
    }
}

impl TableView {
    /// The rows of one scale.
    pub open spec fn of_scale(self, s: Scale) -> Seq<Seq<i64>> {
        match s {
            Scale::Day => self.day,
            Scale::Week => self.week,
            Scale::Month => self.month,
            Scale::Year => self.year,
            Scale::All => self.all,
        }
    }
}

/// The rows of a table, each taken to its mathematical value.
pub open spec fn rows_view(v: Seq<Vec<i64>>) -> Seq<Seq<i64>> {
    Seq::new(v.len(), |j: int| v[j]@)
}

impl View for SeriesByScale {
    type V = SeriesView;

    open spec fn view(&self) -> SeriesView {
        SeriesView {
            day: self.day@,
            week: self.week@,
            month: self.month@,
            year: self.year@,
            all: self.all@,
        }
    }
}

impl View for TableByScale {
    type V = TableView;

    open spec fn view(&self) -> TableView {
        TableView {
            day: rows_view(self.day@),
            week: rows_view(self.week@),
            month: rows_view(self.month@),
            year: rows_view(self.year@),
            all: rows_view(self.all@),
        }
    }
}

/// The mathematical content of a [`YActivities`].
pub struct YView {
    pub actions: Seq<Action>,
    pub projects: Seq<Seq<char>>,
    pub scale_total_minutes: SeriesView,
    pub scale_actions_total_minutes: TableView,
    pub scale_projects_total_minutes: TableView,
}

impl View for YActivities {
    type V = YView;

    open spec fn view(&self) -> YView {
        YView {
            actions: self.actions@,
            projects: self.projects.deep_view(),
            scale_total_minutes: self.scale_total_minutes@,
            scale_actions_total_minutes: self.scale_actions_total_minutes@,
            scale_projects_total_minutes: self.scale_projects_total_minutes@,
        }
    }
}

/// Minutes of the records that the segmenter maps to segment `i` of
/// `scale`, a record counting by its start moment.
pub open spec fn bucket_total(s: Seq<ActivityView>, v: SegmentsView, scale: Scale, i: int) -> int
    decreases s.len(),
{
    if s.len() == 0 {
        0
    } else {
        bucket_total(s.drop_last(), v, scale, i) + if seg_lookup(
            v,
            scale,
            s.last().start_datetime,
        ) == Some(i) {
            s.last().duration_minutes()
        } else {
            0
        }
    }
}

/// As [`bucket_total`], restricted to records of action `a`.
pub open spec fn bucket_total_action(
    s: Seq<ActivityView>,
    v: SegmentsView,
    scale: Scale,
    i: int,
    a: Action,
) -> int
    decreases s.len(),
{
    if s.len() == 0 {
        0
    } else {
        bucket_total_action(s.drop_last(), v, scale, i, a) + if s.last().action == a && seg_lookup(
            v,
            scale,
            s.last().start_datetime,
        ) == Some(i) {
            s.last().duration_minutes()
        } else {
            0
        }
    }
}

/// As [`bucket_total`], restricted to records carrying project `p`.
pub open spec fn bucket_total_project(
    s: Seq<ActivityView>,
    v: SegmentsView,
    scale: Scale,
    i: int,
    p: Seq<char>,
) -> int
    decreases s.len(),
{
    if s.len() == 0 {
        0
    } else {
        bucket_total_project(s.drop_last(), v, scale, i, p) + if s.last().projects.contains(p)
            && seg_lookup(v, scale, s.last().start_datetime) == Some(i) {
            s.last().duration_minutes()
        } else {
            0
        }
    }
}

/// Minutes of all records that the segmenter maps to some segment of
/// `scale`; records outside the covered range are skipped.
pub open spec fn mapped_total(s: Seq<ActivityView>, v: SegmentsView, scale: Scale) -> int
    decreases s.len(),
{
    if s.len() == 0 {
        0
    } else {
        mapped_total(s.drop_last(), v, scale) + if seg_lookup(
            v,
            scale,
            s.last().start_datetime,
        ) is Some {
            s.last().duration_minutes()
        } else {
            0
        }
    }
}

/// The sum of a series.
pub open spec fn sum_series(q: Seq<i64>) -> int
    decreases q.len(),
{
    if q.len() == 0 {
        0
    } else {
        sum_series(q.drop_last()) + q.last()
    }
}

/// The sum of the first `n` bucket totals.
pub open spec fn bucket_sums(s: Seq<ActivityView>, v: SegmentsView, scale: Scale, n: int) -> int
    decreases n,
{
    if n <= 0 {
        0
    } else {
        bucket_sums(s, v, scale, n - 1) + bucket_total(s, v, scale, n - 1)
    }
}

/// Bucket totals grow by at most one duration per record.
pub proof fn lemma_bucket_total_bound(s: Seq<ActivityView>, v: SegmentsView, scale: Scale, i: int)
    requires
        all_wf(s),
    ensures
        -(s.len() * duration_bound()) <= bucket_total(s, v, scale, i) <= s.len()
            * duration_bound(),
    decreases s.len(),
{
    if s.len() > 0 {
        assert(all_wf(s.drop_last())) by {
            assert(forall|q: int| 0 <= q < s.len() - 1 ==> s.drop_last()[q] == s[q]);
        }
        lemma_bucket_total_bound(s.drop_last(), v, scale, i);
        lemma_duration_bound(s.last());
        assert((s.len() - 1) * duration_bound() + duration_bound() == s.len() * duration_bound())
            by (nonlinear_arith);
    }
}

/// Adding one record to the set adds its duration to exactly the bucket it
/// maps to, at every scale and for every key series.
pub proof fn lemma_totals_push(s: Seq<ActivityView>, x: ActivityView, v: SegmentsView, scale: Scale)
    ensures
        forall|i: int|
            #![trigger bucket_total(s.push(x), v, scale, i)]
            bucket_total(s.push(x), v, scale, i) == bucket_total(s, v, scale, i) + if seg_lookup(
                v,
                scale,
                x.start_datetime,
            ) == Some(i) {
                x.duration_minutes()
            } else {
                0
            },
        forall|i: int, a: Action|
            #![trigger bucket_total_action(s.push(x), v, scale, i, a)]
            bucket_total_action(s.push(x), v, scale, i, a) == bucket_total_action(
                s,
                v,
                scale,
                i,
                a,
            ) + if x.action == a && seg_lookup(v, scale, x.start_datetime) == Some(i) {
                x.duration_minutes()
            } else {
                0
            },
        forall|i: int, p: Seq<char>|
            #![trigger bucket_total_project(s.push(x), v, scale, i, p)]
            bucket_total_project(s.push(x), v, scale, i, p) == bucket_total_project(
                s,
                v,
                scale,
                i,
                p,
            ) + if x.projects.contains(p) && seg_lookup(v, scale, x.start_datetime) == Some(i) {
                x.duration_minutes()
            } else {
                0
            },
        mapped_total(s.push(x), v, scale) == mapped_total(s, v, scale) + if seg_lookup(
            v,
            scale,
            x.start_datetime,
        ) is Some {
            x.duration_minutes()
        } else {
            0
        },
{
    assert(s.push(x).drop_last() =~= s);
    assert(s.push(x).last() == x);
}

/// Bucket totals of a restricted kind grow by at most one duration per
/// record.
pub proof fn lemma_restricted_total_bound(
    s: Seq<ActivityView>,
    v: SegmentsView,
    scale: Scale,
    i: int,
    a: Action,
    p: Seq<char>,
)
    requires
        all_wf(s),
    ensures
        -(s.len() * duration_bound()) <= bucket_total_action(s, v, scale, i, a) <= s.len()
            * duration_bound(),
        -(s.len() * duration_bound()) <= bucket_total_project(s, v, scale, i, p) <= s.len()
            * duration_bound(),
    decreases s.len(),
{
    if s.len() > 0 {
        assert(all_wf(s.drop_last())) by {
            assert(forall|q: int| 0 <= q < s.len() - 1 ==> s.drop_last()[q] == s[q]);
        }
        lemma_restricted_total_bound(s.drop_last(), v, scale, i, a, p);
        lemma_duration_bound(s.last());
        assert((s.len() - 1) * duration_bound() + duration_bound() == s.len() * duration_bound())
            by (nonlinear_arith);
    }
}

/// With no records, every bucket sum is zero.
proof fn lemma_bucket_sums_zero(v: SegmentsView, scale: Scale, n: int)
    ensures
        bucket_sums(Seq::empty(), v, scale, n) == 0,
    decreases n,
{
    if n > 0 {
        lemma_bucket_sums_zero(v, scale, n - 1);
    }
}

/// Adding one record changes the sum of the first `n` buckets by its
/// duration exactly when it maps into them.
proof fn lemma_bucket_sums_push(
    s: Seq<ActivityView>,
    x: ActivityView,
    v: SegmentsView,
    scale: Scale,
    n: int,
)
    ensures
        bucket_sums(s.push(x), v, scale, n) == bucket_sums(s, v, scale, n) + match seg_lookup(
            v,
            scale,
            x.start_datetime,
        ) {
            Some(i) => if 0 <= i < n {
                x.duration_minutes()
            } else {
                0
            },
            None => 0,
        },
    decreases n,
{
    lemma_totals_push(s, x, v, scale);
    if n > 0 {
        lemma_bucket_sums_push(s, x, v, scale, n - 1);
    }
}

/// Every record that maps somewhere maps into the covered segments, so the
/// bucket totals partition the mapped minutes.
pub proof fn lemma_bucket_partition(s: Seq<ActivityView>, v: SegmentsView, scale: Scale)
    ensures
        bucket_sums(s, v, scale, v.of_scale(scale).len() as int) == mapped_total(s, v, scale),
    decreases s.len(),
{
    let n = v.of_scale(scale).len() as int;
    if s.len() == 0 {
        assert(s =~= Seq::<ActivityView>::empty());
        lemma_bucket_sums_zero(v, scale, n);
    } else {
        lemma_bucket_partition(s.drop_last(), v, scale);
        assert(s.drop_last().push(s.last()) =~= s);
        lemma_bucket_sums_push(s.drop_last(), s.last(), v, scale, n);
        lemma_totals_push(s.drop_last(), s.last(), v, scale);
        assert(match seg_lookup(v, scale, s.last().start_datetime) {
            Some(i) => 0 <= i < n,
            None => true,
        });
        let contribution: int = if seg_lookup(v, scale, s.last().start_datetime) is Some {
            s.last().duration_minutes()
        } else {
            0
        };
        assert(bucket_sums(s, v, scale, n) == bucket_sums(s.drop_last(), v, scale, n)
            + contribution);
        assert(mapped_total(s, v, scale) == mapped_total(s.drop_last(), v, scale) + contribution);
    }
}

/// A series whose cells are the bucket totals sums to the sum of the bucket
/// totals.
pub proof fn lemma_sum_matches(q: Seq<i64>, s: Seq<ActivityView>, v: SegmentsView, scale: Scale)
    requires
        forall|i: int| 0 <= i < q.len() ==> q[i] as int == bucket_total(s, v, scale, i),
    ensures
        sum_series(q) == bucket_sums(s, v, scale, q.len() as int),
    decreases q.len(),
{
    if q.len() > 0 {
        assert(forall|i: int| 0 <= i < q.len() - 1 ==> q.drop_last()[i] == q[i]);
        lemma_sum_matches(q.drop_last(), s, v, scale);
    }
}

/// The totals series of `sc` holds one bucket total per covered segment.
pub open spec fn totals_ok(q: Seq<i64>, s: Seq<ActivityView>, v: SegmentsView, sc: Scale) -> bool {
    &&& q.len() == v.of_scale(sc).len()
    &&& forall|i: int| 0 <= i < q.len() ==> q[i] as int == bucket_total(s, v, sc, i)
}

/// Row `j` of the action table holds the bucket totals of action `keys[j]`.
pub open spec fn action_rows_ok(
    rows: Seq<Vec<i64>>,
    keys: Seq<Action>,
    s: Seq<ActivityView>,
    v: SegmentsView,
    sc: Scale,
) -> bool {
    &&& rows.len() == keys.len()
    &&& forall|j: int| 0 <= j < rows.len() ==> (#[trigger] rows[j])@.len() == v.of_scale(sc).len()
    &&& forall|j: int, i: int|
        0 <= j < rows.len() && 0 <= i < rows[j]@.len() ==> (#[trigger] rows[j]@[i]) as int
            == bucket_total_action(s, v, sc, i, keys[j])
}

/// Row `j` of the project table holds the bucket totals of label `keys[j]`.
pub open spec fn project_rows_ok(
    rows: Seq<Vec<i64>>,
    keys: Seq<Seq<char>>,
    s: Seq<ActivityView>,
    v: SegmentsView,
    sc: Scale,
) -> bool {
    &&& rows.len() == keys.len()
    &&& forall|j: int| 0 <= j < rows.len() ==> (#[trigger] rows[j])@.len() == v.of_scale(sc).len()
    &&& forall|j: int, i: int|
        0 <= j < rows.len() && 0 <= i < rows[j]@.len() ==> (#[trigger] rows[j]@[i]) as int
            == bucket_total_project(s, v, sc, i, keys[j])
}

/// Copies one series.
fn copy_series(v: &Vec<i64>) -> (r: Vec<i64>)
    ensures
        r@ == v@,
{
    let mut out: Vec<i64> = Vec::new();
    let mut i: usize = 0;
    while i < v.len()
        invariant
            i <= v@.len(),
            out@ == v@.subrange(0, i as int),
        decreases v@.len() - i,
    {
        out.push(v[i]);
        proof {
            assert(out@ =~= v@.subrange(0, i + 1));
        }
        i = i + 1;
    }
    proof {
        assert(v@.subrange(0, v@.len() as int) =~= v@);
    }
    out
}

/// Copies one table of series.
fn copy_table(v: &Vec<Vec<i64>>) -> (r: Vec<Vec<i64>>)
    ensures
        rows_view(r@) == rows_view(v@),
{
    let mut out: Vec<Vec<i64>> = Vec::new();
    let mut i: usize = 0;
    while i < v.len()
        invariant
            i <= v@.len(),
            out@.len() == i,
            forall|j: int| 0 <= j < i ==> (#[trigger] out@[j])@ == v@[j]@,
        decreases v@.len() - i,
    {
        out.push(copy_series(&v[i]));
        i = i + 1;
    }
    proof {
        assert(rows_view(out@) =~= rows_view(v@));
    }
    out
}

impl Clone for SeriesByScale {
    /// A clone has the same mathematical content.
    fn clone(&self) -> (r: Self)
        ensures
            r@ == self@,
    {
        SeriesByScale {
            day: copy_series(&self.day),
            week: copy_series(&self.week),
            month: copy_series(&self.month),
            year: copy_series(&self.year),
            all: copy_series(&self.all),
        }
    }
}

impl Clone for TableByScale {
    /// A clone has the same mathematical content.
    fn clone(&self) -> (r: Self)
        ensures
            r@ == self@,
    {
        TableByScale {
            day: copy_table(&self.day),
            week: copy_table(&self.week),
            month: copy_table(&self.month),
            year: copy_table(&self.year),
            all: copy_table(&self.all),
        }
    }
}

impl Clone for YActivities {
    /// A clone has the same mathematical content.
    fn clone(&self) -> (r: Self)
        ensures
            r@ == self@,
    {
        YActivities {
            actions: crate::activity::clone_actions(&self.actions),
            projects: crate::activity::clone_labels(&self.projects),
            scale_total_minutes: self.scale_total_minutes.clone(),
            scale_actions_total_minutes: self.scale_actions_total_minutes.clone(),
            scale_projects_total_minutes: self.scale_projects_total_minutes.clone(),
        }
    }
}

/// The whole series value correctly aggregates `s` over the segments `v`:
/// totals per segment, sums matching the mapped minutes, and one row per
/// action and project key.
pub open spec fn y_view_ok(y: YView, s: Seq<ActivityView>, v: SegmentsView) -> bool {
    &&& forall|sc: Scale| #![auto] totals_ok(y.scale_total_minutes.of_scale(sc), s, v, sc)
    &&& forall|sc: Scale|
        #![auto]
        sum_series(y.scale_total_minutes.of_scale(sc)) == mapped_total(s, v, sc)
    &&& forall|sc: Scale|
        #![auto]
        y.scale_actions_total_minutes.of_scale(sc).len() == y.actions.len()
    &&& forall|sc: Scale, j: int|
        #![auto]
        0 <= j < y.actions.len() ==> y.scale_actions_total_minutes.of_scale(sc)[j].len()
            == v.of_scale(sc).len()
    &&& forall|sc: Scale, j: int, i: int|
        #![auto]
        0 <= j < y.actions.len() && 0 <= i < v.of_scale(sc).len()
            ==> y.scale_actions_total_minutes.of_scale(sc)[j][i] as int == bucket_total_action(
            s,
            v,
            sc,
            i,
            y.actions[j],
        )
    &&& forall|sc: Scale|
        #![auto]
        y.scale_projects_total_minutes.of_scale(sc).len() == y.projects.len()
    &&& forall|sc: Scale, j: int|
        #![auto]
        0 <= j < y.projects.len() ==> y.scale_projects_total_minutes.of_scale(sc)[j].len()
            == v.of_scale(sc).len()
    &&& forall|sc: Scale, j: int, i: int|
        #![auto]
        0 <= j < y.projects.len() && 0 <= i < v.of_scale(sc).len()
            ==> y.scale_projects_total_minutes.of_scale(sc)[j][i] as int == bucket_total_project(
            s,
            v,
            sc,
            i,
            y.projects[j],
        )
}

/// The records, segments and key lists determine the whole series value.
pub proof fn lemma_y_view_unique(y1: YView, y2: YView, s: Seq<ActivityView>, v: SegmentsView)
    requires
        y_view_ok(y1, s, v),
        y_view_ok(y2, s, v),
        y1.actions == y2.actions,
        y1.projects == y2.projects,
    ensures
        y1 == y2,
{
    assert forall|sc: Scale|
        #![auto]
        y1.scale_total_minutes.of_scale(sc) == y2.scale_total_minutes.of_scale(sc) by {
        assert(y1.scale_total_minutes.of_scale(sc) =~= y2.scale_total_minutes.of_scale(sc));
    }
    assert forall|sc: Scale|
        #![auto]
        y1.scale_actions_total_minutes.of_scale(sc) == y2.scale_actions_total_minutes.of_scale(
            sc,
        ) by {
        assert forall|j: int|
            0 <= j < y1.actions.len() implies y1.scale_actions_total_minutes.of_scale(sc)[j]
            == y2.scale_actions_total_minutes.of_scale(sc)[j] by {
            assert(y1.scale_actions_total_minutes.of_scale(sc)[j].len() == v.of_scale(sc).len());
            assert(y2.scale_actions_total_minutes.of_scale(sc)[j].len() == v.of_scale(sc).len());
            assert forall|i: int|
                0 <= i < v.of_scale(sc).len() implies y1.scale_actions_total_minutes.of_scale(
                sc,
            )[j][i] == y2.scale_actions_total_minutes.of_scale(sc)[j][i] by {
                assert(y1.scale_actions_total_minutes.of_scale(sc)[j][i] as int
                    == bucket_total_action(s, v, sc, i, y1.actions[j]));
                assert(y2.scale_actions_total_minutes.of_scale(sc)[j][i] as int
                    == bucket_total_action(s, v, sc, i, y2.actions[j]));
            }
            assert(y1.scale_actions_total_minutes.of_scale(sc)[j]
                =~= y2.scale_actions_total_minutes.of_scale(sc)[j]);
        }
        assert(y1.scale_actions_total_minutes.of_scale(sc) =~= y2.scale_actions_total_minutes.of_scale(
            sc,
        ));
    }
    assert forall|sc: Scale|
        #![auto]
        y1.scale_projects_total_minutes.of_scale(sc) == y2.scale_projects_total_minutes.of_scale(
            sc,
        ) by {
        assert forall|j: int|
            0 <= j < y1.projects.len() implies y1.scale_projects_total_minutes.of_scale(sc)[j]
            == y2.scale_projects_total_minutes.of_scale(sc)[j] by {
            assert(y1.scale_projects_total_minutes.of_scale(sc)[j].len() == v.of_scale(sc).len());
            assert(y2.scale_projects_total_minutes.of_scale(sc)[j].len() == v.of_scale(sc).len());
            assert forall|i: int|
                0 <= i < v.of_scale(sc).len() implies y1.scale_projects_total_minutes.of_scale(
                sc,
            )[j][i] == y2.scale_projects_total_minutes.of_scale(sc)[j][i] by {
                assert(y1.scale_projects_total_minutes.of_scale(sc)[j][i] as int
                    == bucket_total_project(s, v, sc, i, y1.projects[j]));
                assert(y2.scale_projects_total_minutes.of_scale(sc)[j][i] as int
                    == bucket_total_project(s, v, sc, i, y2.projects[j]));
            }
            assert(y1.scale_projects_total_minutes.of_scale(sc)[j]
                =~= y2.scale_projects_total_minutes.of_scale(sc)[j]);
        }
        assert(y1.scale_projects_total_minutes.of_scale(sc)
            =~= y2.scale_projects_total_minutes.of_scale(sc));
    }
    assert(y1.scale_total_minutes == y2.scale_total_minutes) by {
        assert(y1.scale_total_minutes.of_scale(Scale::Day) == y2.scale_total_minutes.of_scale(
            Scale::Day,
        ));
        assert(y1.scale_total_minutes.of_scale(Scale::Week) == y2.scale_total_minutes.of_scale(
            Scale::Week,
        ));
        assert(y1.scale_total_minutes.of_scale(Scale::Month) == y2.scale_total_minutes.of_scale(
            Scale::Month,
        ));
        assert(y1.scale_total_minutes.of_scale(Scale::Year) == y2.scale_total_minutes.of_scale(
            Scale::Year,
        ));
        assert(y1.scale_total_minutes.of_scale(Scale::All) == y2.scale_total_minutes.of_scale(
            Scale::All,
        ));
    }
    assert(y1.scale_actions_total_minutes == y2.scale_actions_total_minutes) by {
        assert(y1.scale_actions_total_minutes.of_scale(Scale::Day)
            == y2.scale_actions_total_minutes.of_scale(Scale::Day));
        assert(y1.scale_actions_total_minutes.of_scale(Scale::Week)
            == y2.scale_actions_total_minutes.of_scale(Scale::Week));
        assert(y1.scale_actions_total_minutes.of_scale(Scale::Month)
            == y2.scale_actions_total_minutes.of_scale(Scale::Month));
        assert(y1.scale_actions_total_minutes.of_scale(Scale::Year)
            == y2.scale_actions_total_minutes.of_scale(Scale::Year));
        assert(y1.scale_actions_total_minutes.of_scale(Scale::All)
            == y2.scale_actions_total_minutes.of_scale(Scale::All));
    }
    assert(y1.scale_projects_total_minutes == y2.scale_projects_total_minutes) by {
        assert(y1.scale_projects_total_minutes.of_scale(Scale::Day)
            == y2.scale_projects_total_minutes.of_scale(Scale::Day));
        assert(y1.scale_projects_total_minutes.of_scale(Scale::Week)
            == y2.scale_projects_total_minutes.of_scale(Scale::Week));
        assert(y1.scale_projects_total_minutes.of_scale(Scale::Month)
            == y2.scale_projects_total_minutes.of_scale(Scale::Month));
        assert(y1.scale_projects_total_minutes.of_scale(Scale::Year)
            == y2.scale_projects_total_minutes.of_scale(Scale::Year));
        assert(y1.scale_projects_total_minutes.of_scale(Scale::All)
            == y2.scale_projects_total_minutes.of_scale(Scale::All));
    }
}

/// Every record starting inside the covered range maps to a segment, so
/// the mapped minutes are all the minutes.
pub proof fn lemma_all_mapped(
    s: Seq<ActivityView>,
    v: SegmentsView,
    min: Date,
    max: Date,
    sc: Scale,
)
    requires
        v.wf(),
        v.spans(min, max),
        min.valid(),
        max.valid(),
        all_wf(s),
        forall|q: int|
            0 <= q < s.len() ==> min.day_index() <= (#[trigger] s[q]).start_datetime.date.day_index()
                <= max.day_index(),
    ensures
        mapped_total(s, v, sc) == total_minutes_of(s),
    decreases s.len(),
{
    if s.len() > 0 {
        assert(all_wf(s.drop_last())) by {
            assert(forall|q: int| 0 <= q < s.len() - 1 ==> s.drop_last()[q] == s[q]);
        }
        assert(forall|q: int|
            0 <= q < s.drop_last().len() ==> min.day_index() <= (#[trigger] s.drop_last()[q]).start_datetime.date.day_index()
                <= max.day_index()) by {
            assert(forall|q: int| 0 <= q < s.len() - 1 ==> s.drop_last()[q] == s[q]);
        }
        lemma_all_mapped(s.drop_last(), v, min, max, sc);
        let x = s.last();
        assert(x == s[s.len() - 1]);
        assert(x.wf());
        assert(min.day_index() <= x.start_datetime.date.day_index() <= max.day_index());
        assert(min.day_index() <= max.day_index());
        if sc != Scale::All {
            crate::graph::x_segments::lemma_bucket_key_monotone(sc, min, x.start_datetime.date);
            crate::graph::x_segments::lemma_bucket_key_monotone(sc, x.start_datetime.date, max);
            assert(seg_lookup(v, sc, x.start_datetime) is Some);
        } else {
            assert(v.all.len() == 1);
        }
    }
}

/// Law: for a non-empty record set whose starts all lie inside the covered
/// range, the sum of the total-minutes series at any scale equals the sum
/// of all record durations.
pub proof fn lemma_series_sum_is_total(
    y: YView,
    s: Seq<ActivityView>,
    v: SegmentsView,
    min: Date,
    max: Date,
    sc: Scale,
)
    requires
        y_view_ok(y, s, v),
        v.wf(),
        v.spans(min, max),
        min.valid(),
        max.valid(),
        all_wf(s),
        s.len() > 0,
        forall|q: int|
            0 <= q < s.len() ==> min.day_index() <= (#[trigger] s[q]).start_datetime.date.day_index()
                <= max.day_index(),
    ensures
        sum_series(y.scale_total_minutes.of_scale(sc)) == total_minutes_of(s),
{
    lemma_all_mapped(s, v, min, max, sc);
}

/// A zero-filled series of length `n`.
fn zero_series(n: usize) -> (r: Vec<i64>)
    ensures
        r@.len() == n,
        forall|i: int| 0 <= i < n ==> r@[i] == 0i64,
{
    let mut out: Vec<i64> = Vec::new();
    let mut i: usize = 0;
    while i < n
        invariant
            i <= n,
            out@.len() == i,
            forall|q: int| 0 <= q < i ==> out@[q] == 0i64,
        decreases n - i,
    {
        out.push(0);
        i = i + 1;
    }
    out
}

/// A table of `rows` zero-filled series of length `n`.
fn zero_table(rows: usize, n: usize) -> (r: Vec<Vec<i64>>)
    ensures
        r@.len() == rows,
        forall|j: int| 0 <= j < rows ==> (#[trigger] r@[j])@.len() == n,
        forall|j: int, i: int| 0 <= j < rows && 0 <= i < n ==> (#[trigger] r@[j]@[i]) == 0i64,
{
    let mut out: Vec<Vec<i64>> = Vec::new();
    let mut j: usize = 0;
    while j < rows
        invariant
            j <= rows,
            out@.len() == j,
            forall|q: int| 0 <= q < j ==> (#[trigger] out@[q])@.len() == n,
            forall|q: int, i: int| 0 <= q < j && 0 <= i < n ==> (#[trigger] out@[q]@[i]) == 0i64,
        decreases rows - j,
    {
        out.push(zero_series(n));
        j = j + 1;
    }
    out
}

/// Adds `delta` to cell `i` of `row`.
fn bump_cell(row: &mut Vec<i64>, i: usize, delta: i64)
    requires
        i < old(row)@.len(),
        -0x4000_0000_0000_0000 < old(row)@[i as int] + delta < 0x4000_0000_0000_0000,
    ensures
        final(row)@ == old(row)@.update(i as int, (old(row)@[i as int] + delta) as i64),
{
    let cur = row[i];
    row[i] = cur + delta;
    proof {
        assert(row@ =~= old(row)@.update(i as int, (old(row)@[i as int] + delta) as i64));
    }
}

/// Adds `delta` to cell `i` of row `j`.
fn bump_table(rows: &mut Vec<Vec<i64>>, j: usize, i: usize, delta: i64)
    requires
        j < old(rows)@.len(),
        i < old(rows)@[j as int]@.len(),
        -0x4000_0000_0000_0000 < old(rows)@[j as int]@[i as int] + delta < 0x4000_0000_0000_0000,
    ensures
        final(rows)@.len() == old(rows)@.len(),
        forall|q: int| 0 <= q < old(rows)@.len() && q != j ==> final(rows)@[q] == old(rows)@[q],
        final(rows)@[j as int]@ == old(rows)@[j as int]@.update(
            i as int,
            (old(rows)@[j as int]@[i as int] + delta) as i64,
        ),
{
    let row = &mut rows[j];
    let cur = row[i];
    row[i] = cur + delta;
    proof {
        assert(row@ =~= old(rows)@[j as int]@.update(
            i as int,
            (old(rows)@[j as int]@[i as int] + delta) as i64,
        ));
    }
}

/// The position of action `a` in the key list.
fn index_of_action(v: &Vec<Action>, a: Action) -> (r: usize)
    requires
        v@.contains(a),
    ensures
        r < v@.len(),
        v@[r as int] == a,
{
    let mut j: usize = 0;
    while j < v.len()
        invariant
            j <= v@.len(),
            v@.contains(a),
            forall|q: int| 0 <= q < j ==> v@[q] != a,
        decreases v@.len() - j,
    {
        if v[j] == a {
            return j;
        }
        j = j + 1;
    }
    proof {
        let w = choose|w: int| 0 <= w < v@.len() && v@[w] == a;
        assert(false);
    }
    0
}

/// The position of label `s` in the key list.
fn index_of_label(v: &Vec<String>, s: &str) -> (r: usize)
    requires
        v.deep_view().contains(s@),
    ensures
        r < v@.len(),
        v.deep_view()[r as int] == s@,
{
    let mut j: usize = 0;
    while j < v.len()
        invariant
            j <= v@.len(),
            v.deep_view().contains(s@),
            forall|q: int| 0 <= q < j ==> v.deep_view()[q] != s@,
        decreases v@.len() - j,
    {
        if crate::text::str_eq(v[j].as_str(), s) {
            proof {
                assert(v.deep_view()[j as int] == s@);
            }
            return j;
        }
        j = j + 1;
    }
    proof {
        let w = choose|w: int| 0 <= w < v.deep_view().len() && v.deep_view()[w] == s@;
        assert(false);
    }
    0
}

/// Adds one record's minutes into one scale's series: to the total, to its
/// action's row, and to every one of its projects' rows.
#[verifier::rlimit(100)]
#[verifier::spinoff_prover]
fn apply_activity(
    totals: &mut Vec<i64>,
    action_rows: &mut Vec<Vec<i64>>,
    project_rows: &mut Vec<Vec<i64>>,
    sxs: &ScaleXSegments,
    sc: Scale,
    a: &Activity,
    actions: &Vec<Action>,
    projects: &Vec<String>,
    Ghost(prefix): Ghost<Seq<ActivityView>>,
)
    requires
        sxs.wf(),
        a.deep_view().wf(),
        all_wf(prefix),
        prefix.len() < 0x1000_0000,
        actions@.contains(a.deep_view().action),
        forall|t: int|
            0 <= t < a.deep_view().projects.len() ==> projects.deep_view().contains(
                #[trigger] a.deep_view().projects[t],
            ),
        forall|x: int, y: int| 0 <= x < y < actions@.len() ==> actions@[x] != actions@[y],
        forall|x: int, y: int|
            0 <= x < y < projects.deep_view().len() ==> projects.deep_view()[x]
                != projects.deep_view()[y],
        totals_ok(old(totals)@, prefix, sxs@, sc),
        action_rows_ok(old(action_rows)@, actions@, prefix, sxs@, sc),
        project_rows_ok(old(project_rows)@, projects.deep_view(), prefix, sxs@, sc),
    ensures
        totals_ok(final(totals)@, prefix.push(a.deep_view()), sxs@, sc),
        action_rows_ok(final(action_rows)@, actions@, prefix.push(a.deep_view()), sxs@, sc),
        project_rows_ok(
            final(project_rows)@,
            projects.deep_view(),
            prefix.push(a.deep_view()),
            sxs@,
            sc,
        ),
{
    let ghost x = a.deep_view();
    let dur = a.duration();
    proof {
        lemma_totals_push(prefix, x, sxs@, sc);
        lemma_duration_bound(x);
    }
    let idx = sxs.find_correponding_x_segment_idx(&sc, &a.start_datetime);
    match idx {
        None => {},
        Some(i) => {
            proof {
                lemma_bucket_total_bound(prefix, sxs@, sc, i as int);
                assert(prefix.len() * duration_bound() < 0x1000_0000 * 0x2_0000_0000)
                    by (nonlinear_arith)
                    requires
                        prefix.len() < 0x1000_0000,
                ;
            }
            bump_cell(totals, i, dur);
            let j = index_of_action(actions, a.action);
            proof {
                lemma_restricted_total_bound(prefix, sxs@, sc, i as int, actions@[j as int], seq![]);
            }
            bump_table(action_rows, j, i, dur);
            proof {
                assert forall|q: int, ii: int|
                    0 <= q < action_rows@.len() && 0 <= ii < action_rows@[q]@.len()
                        implies (action_rows@[q]@[ii]) as int == bucket_total_action(
                        prefix.push(x),
                        sxs@,
                        sc,
                        ii,
                        actions@[q],
                    ) by {
                    if q != j {
                        assert(actions@[q] != x.action);
                    }
                }
            }
            let mut t: usize = 0;
            let ghost pdv = projects.deep_view();
            while t < a.projects.len()
                invariant
                    sxs.wf(),
                    x == a.deep_view(),
                    x.wf(),
                    all_wf(prefix),
                    prefix.len() < 0x1000_0000,
                    t <= a.projects@.len(),
                    x.projects.len() == a.projects@.len(),
                    dur == x.duration_minutes(),
                    pdv == projects.deep_view(),
                    seg_lookup(sxs@, sc, x.start_datetime) == Some(i as int),
                    i < sxs@.of_scale(sc).len(),
                    forall|tt: int|
                        0 <= tt < x.projects.len() ==> pdv.contains(#[trigger] x.projects[tt]),
                    forall|xq: int, yq: int| 0 <= xq < yq < pdv.len() ==> pdv[xq] != pdv[yq],
                    project_rows@.len() == pdv.len(),
                    forall|q: int|
                        0 <= q < project_rows@.len() ==> (#[trigger] project_rows@[q])@.len()
                            == sxs@.of_scale(sc).len(),
                    forall|q: int, ii: int|
                        0 <= q < project_rows@.len() && 0 <= ii < project_rows@[q]@.len() ==> (
                        #[trigger] project_rows@[q]@[ii]) as int == bucket_total_project(
                            prefix,
                            sxs@,
                            sc,
                            ii,
                            pdv[q],
                        ) + if x.projects.subrange(0, t as int).contains(pdv[q]) && ii == i {
                            x.duration_minutes()
                        } else {
                            0
                        },
                decreases a.projects@.len() - t,
            {
                proof {
                    assert(x.projects[t as int] == a.projects@[t as int]@);
                    assert(pdv.contains(x.projects[t as int]));
                }
                let jp = index_of_label(projects, a.projects[t].as_str());
                proof {
                    assert(x.projects[t as int] == a.projects@[t as int]@);
                    assert(pdv[jp as int] == x.projects[t as int]);
                    assert(!x.projects.subrange(0, t as int).contains(pdv[jp as int])) by {
                        if x.projects.subrange(0, t as int).contains(pdv[jp as int]) {
                            let w = choose|w: int|
                                0 <= w < t && x.projects.subrange(0, t as int)[w] == pdv[jp as int];
                            assert(x.projects[w] == x.projects[t as int]);
                            assert(false);
                        }
                    }
                    lemma_restricted_total_bound(
                        prefix,
                        sxs@,
                        sc,
                        i as int,
                        x.action,
                        pdv[jp as int],
                    );
                    assert(prefix.len() * duration_bound() < 0x1000_0000 * 0x2_0000_0000)
                        by (nonlinear_arith)
                        requires
                            prefix.len() < 0x1000_0000,
                    ;
                }
                bump_table(project_rows, jp, i, dur);
                proof {
                    assert forall|q: int|
                        0 <= q < pdv.len() implies (x.projects.subrange(0, t + 1).contains(
                        pdv[q],
                    ) == (x.projects.subrange(0, t as int).contains(pdv[q]) || q == jp)) by {
                        let sub1 = x.projects.subrange(0, t + 1);
                        let sub0 = x.projects.subrange(0, t as int);
                        if sub1.contains(pdv[q]) {
                            let w = choose|w: int| 0 <= w < t + 1 && sub1[w] == pdv[q];
                            if w < t {
                                assert(sub0[w] == pdv[q]);
                            } else {
                                assert(pdv[q] == x.projects[t as int]);
                            }
                        }
                        if sub0.contains(pdv[q]) {
                            let w = choose|w: int| 0 <= w < t && sub0[w] == pdv[q];
                            assert(sub1[w] == pdv[q]);
                        }
                        if q == jp {
                            assert(sub1[t as int] == pdv[q]);
                        }
                    }
                }
                t = t + 1;
            }
            proof {
                assert(x.projects.subrange(0, x.projects.len() as int) =~= x.projects);
            }
        },
    }
}

impl YActivities {
    /// Builds the per-scale series: zero-filled series sized to each
    /// scale's segment count, then a single pass over the records adding
    /// each record's minutes at the segment its start moment maps to — to
    /// the scale's total, to its action's series and to each of its
    /// projects' series.  A record whose start falls outside the covered
    /// range is skipped.
    #[verifier::rlimit(100)]
    #[verifier::spinoff_prover]
    pub fn new(
        activities: &Activities,
        actions: &Vec<Action>,
        projects: &Vec<String>,
        sxs: &ScaleXSegments,
    ) -> (r: YActivities)
        requires
            activities.wf(),
            activities@.len() <= MAX_ACTIVITIES,
            sxs.wf(),
            forall|q: int|
                0 <= q < activities@.len() ==> actions@.contains(
                    #[trigger] activities@[q].action,
                ),
            forall|q: int, t: int|
                0 <= q < activities@.len() && 0 <= t < activities@[q].projects.len()
                    ==> projects.deep_view().contains(#[trigger] activities@[q].projects[t]),
            forall|x: int, y: int| 0 <= x < y < actions@.len() ==> actions@[x] != actions@[y],
            forall|x: int, y: int|
                0 <= x < y < projects.deep_view().len() ==> projects.deep_view()[x]
                    != projects.deep_view()[y],
        ensures
            r.actions@ == actions@,
            r.projects.deep_view() == projects.deep_view(),
            forall|sc: Scale|
                #![auto]
                totals_ok(r.scale_total_minutes.of_scale(sc), activities@, sxs@, sc),
            forall|sc: Scale|
                #![auto]
                action_rows_ok(
                    r.scale_actions_total_minutes.of_scale(sc),
                    actions@,
                    activities@,
                    sxs@,
                    sc,
                ),
            forall|sc: Scale|
                #![auto]
                project_rows_ok(
                    r.scale_projects_total_minutes.of_scale(sc),
                    projects.deep_view(),
                    activities@,
                    sxs@,
                    sc,
                ),
            forall|sc: Scale|
                #![auto]
                sum_series(r.scale_total_minutes.of_scale(sc)) == mapped_total(
                    activities@,
                    sxs@,
                    sc,
                ),
            y_view_ok(r@, activities@, sxs@),
    {
        let mut day_totals = zero_series(sxs.day.len());
        let mut week_totals = zero_series(sxs.week.len());
        let mut month_totals = zero_series(sxs.month.len());
        let mut year_totals = zero_series(sxs.year.len());
        let mut all_totals = zero_series(sxs.all.len());
        let mut day_actions = zero_table(actions.len(), sxs.day.len());
        let mut week_actions = zero_table(actions.len(), sxs.week.len());
        let mut month_actions = zero_table(actions.len(), sxs.month.len());
        let mut year_actions = zero_table(actions.len(), sxs.year.len());
        let mut all_actions = zero_table(actions.len(), sxs.all.len());
        let mut day_projects = zero_table(projects.len(), sxs.day.len());
        let mut week_projects = zero_table(projects.len(), sxs.week.len());
        let mut month_projects = zero_table(projects.len(), sxs.month.len());
        let mut year_projects = zero_table(projects.len(), sxs.year.len());
        let mut all_projects = zero_table(projects.len(), sxs.all.len());
        proof {
            assert(activities@.subrange(0, 0) =~= Seq::<ActivityView>::empty());
            assert(projects.deep_view().len() == projects@.len());
        }
        let mut t: usize = 0;
        while t < activities.0.len()
            invariant
                activities.wf(),
                activities@.len() <= 0x1000_0000,
                activities@.len() == activities.0@.len(),
                sxs.wf(),
                forall|q: int|
                    0 <= q < activities@.len() ==> actions@.contains(
                        #[trigger] activities@[q].action,
                    ),
                forall|q: int, tt: int|
                    0 <= q < activities@.len() && 0 <= tt < activities@[q].projects.len()
                        ==> projects.deep_view().contains(#[trigger] activities@[q].projects[tt]),
                forall|x: int, y: int| 0 <= x < y < actions@.len() ==> actions@[x] != actions@[y],
                forall|x: int, y: int|
                    0 <= x < y < projects.deep_view().len() ==> projects.deep_view()[x]
                        != projects.deep_view()[y],
                t <= activities@.len(),
                totals_ok(day_totals@, activities@.subrange(0, t as int), sxs@, Scale::Day),
                totals_ok(week_totals@, activities@.subrange(0, t as int), sxs@, Scale::Week),
                totals_ok(month_totals@, activities@.subrange(0, t as int), sxs@, Scale::Month),
                totals_ok(year_totals@, activities@.subrange(0, t as int), sxs@, Scale::Year),
                totals_ok(all_totals@, activities@.subrange(0, t as int), sxs@, Scale::All),
                action_rows_ok(
                    day_actions@,
                    actions@,
                    activities@.subrange(0, t as int),
                    sxs@,
                    Scale::Day,
                ),
                action_rows_ok(
                    week_actions@,
                    actions@,
                    activities@.subrange(0, t as int),
                    sxs@,
                    Scale::Week,
                ),
                action_rows_ok(
                    month_actions@,
                    actions@,
                    activities@.subrange(0, t as int),
                    sxs@,
                    Scale::Month,
                ),
                action_rows_ok(
                    year_actions@,
                    actions@,
                    activities@.subrange(0, t as int),
                    sxs@,
                    Scale::Year,
                ),
                action_rows_ok(
                    all_actions@,
                    actions@,
                    activities@.subrange(0, t as int),
                    sxs@,
                    Scale::All,
                ),
                project_rows_ok(
                    day_projects@,
                    projects.deep_view(),
                    activities@.subrange(0, t as int),
                    sxs@,
                    Scale::Day,
                ),
                project_rows_ok(
                    week_projects@,
                    projects.deep_view(),
                    activities@.subrange(0, t as int),
                    sxs@,
                    Scale::Week,
                ),
                project_rows_ok(
                    month_projects@,
                    projects.deep_view(),
                    activities@.subrange(0, t as int),
                    sxs@,
                    Scale::Month,
                ),
                project_rows_ok(
                    year_projects@,
                    projects.deep_view(),
                    activities@.subrange(0, t as int),
                    sxs@,
                    Scale::Year,
                ),
                project_rows_ok(
                    all_projects@,
                    projects.deep_view(),
                    activities@.subrange(0, t as int),
                    sxs@,
                    Scale::All,
                ),
            decreases activities@.len() - t,
        {
            let a = &activities.0[t];
            let ghost prefix = activities@.subrange(0, t as int);
            proof {
                assert(activities@[t as int] == activities.0@[t as int].deep_view());
                assert(activities@[t as int].wf());
                assert(all_wf(prefix)) by {
                    assert(forall|q: int| 0 <= q < t ==> prefix[q] == activities@[q]);
                }
                assert(prefix.push(a.deep_view()) =~= activities@.subrange(0, t + 1));
            }
            apply_activity(
                &mut day_totals,
                &mut day_actions,
                &mut day_projects,
                sxs,
                Scale::Day,
                a,
                actions,
                projects,
                Ghost(prefix),
            );
            apply_activity(
                &mut week_totals,
                &mut week_actions,
                &mut week_projects,
                sxs,
                Scale::Week,
                a,
                actions,
                projects,
                Ghost(prefix),
            );
            apply_activity(
                &mut month_totals,
                &mut month_actions,
                &mut month_projects,
                sxs,
                Scale::Month,
                a,
                actions,
                projects,
                Ghost(prefix),
            );
            apply_activity(
                &mut year_totals,
                &mut year_actions,
                &mut year_projects,
                sxs,
                Scale::Year,
                a,
                actions,
                projects,
                Ghost(prefix),
            );
            apply_activity(
                &mut all_totals,
                &mut all_actions,
                &mut all_projects,
                sxs,
                Scale::All,
                a,
                actions,
                projects,
                Ghost(prefix),
            );
            t = t + 1;
        }
        proof {
            assert(activities@.subrange(0, activities@.len() as int) =~= activities@);
            lemma_sum_matches(day_totals@, activities@, sxs@, Scale::Day);
            lemma_bucket_partition(activities@, sxs@, Scale::Day);
            lemma_sum_matches(week_totals@, activities@, sxs@, Scale::Week);
            lemma_bucket_partition(activities@, sxs@, Scale::Week);
            lemma_sum_matches(month_totals@, activities@, sxs@, Scale::Month);
            lemma_bucket_partition(activities@, sxs@, Scale::Month);
            lemma_sum_matches(year_totals@, activities@, sxs@, Scale::Year);
            lemma_bucket_partition(activities@, sxs@, Scale::Year);
            lemma_sum_matches(all_totals@, activities@, sxs@, Scale::All);
            lemma_bucket_partition(activities@, sxs@, Scale::All);
        }
        let r = YActivities {
            actions: crate::activity::clone_actions(actions),
            projects: crate::activity::clone_labels(projects),
            scale_total_minutes: SeriesByScale {
                day: day_totals,
                week: week_totals,
                month: month_totals,
                year: year_totals,
                all: all_totals,
            },
            scale_actions_total_minutes: TableByScale {
                day: day_actions,
                week: week_actions,
                month: month_actions,
                year: year_actions,
                all: all_actions,
            },
            scale_projects_total_minutes: TableByScale {
                day: day_projects,
                week: week_projects,
                month: month_projects,
                year: year_projects,
                all: all_projects,
            },
        };
        proof {
            assert forall|sc: Scale|
                #![auto]
                r@.scale_actions_total_minutes.of_scale(sc)
                    == rows_view(r.scale_actions_total_minutes.of_scale(sc)) by {}
            assert forall|sc: Scale, j: int|
                #![auto]
                0 <= j < r@.actions.len() ==> r@.scale_actions_total_minutes.of_scale(sc)[j]
                    == r.scale_actions_total_minutes.row(sc, j) by {}
            assert forall|sc: Scale, j: int|
                #![auto]
                0 <= j < r@.projects.len() ==> r@.scale_projects_total_minutes.of_scale(sc)[j]
                    == r.scale_projects_total_minutes.row(sc, j) by {}
        }
        r
    }
}

} // verus!
