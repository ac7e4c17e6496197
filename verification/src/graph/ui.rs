//! The orchestrating graph state: the unfiltered baseline and the filtered
//! view, replaced as one snapshot whenever a new filter is applied.

use vstd::prelude::*;

use crate::activity::Action;
use crate::activity::Activities;
use crate::activity::ActivitiesAggregate;
use crate::activity::ActivityView;
use crate::activity::AggregateView;
use crate::activity::MAX_ACTIVITIES;
use crate::activity::all_wf;
use crate::activity::clone_actions;
use crate::activity::clone_labels;
use crate::activity::filtered_activities;
use crate::activity::fold_actions;
use crate::activity::fold_max_end;
use crate::activity::fold_min_start;
use crate::activity::fold_projects;
use crate::activity::lemma_filtered_ok;
use crate::activity::lemma_fold_actions_ok;
use crate::activity::lemma_fold_dates_valid;
use crate::activity::lemma_fold_projects_ok;
use crate::date::Date;
use crate::graph::x_segments::ScaleXSegments;
use crate::graph::x_segments::SegmentsView;
use crate::graph::x_segments::lemma_spans_unique;
use crate::graph::y_activities::YActivities;
use crate::graph::y_activities::YView;
use crate::graph::y_activities::lemma_y_view_unique;
use crate::graph::y_activities::y_view_ok;

verus! {

/// The filter applied to the graph's view: a date window, allowed actions
/// and projects, and an optional description search text.
#[derive(PartialEq, Eq, Debug)]
pub struct Filter {
    pub min_date: Date,
    pub max_date: Date,
    pub actions: Vec<Action>,
    pub projects: Vec<String>,
    pub description: Option<String>,
}

/// The mathematical content of a [`Filter`].
pub struct FilterView {
    pub min_date: Date,
    pub max_date: Date,
    pub actions: Seq<Action>,
    pub projects: Seq<Seq<char>>,
    pub description: Option<Seq<char>>,
}

impl View for Filter {
    type V = FilterView;

    open spec fn view(&self) -> FilterView {
        FilterView {
            min_date: self.min_date,
            max_date: self.max_date,
            actions: self.actions@,
            projects: self.projects.deep_view(),
            description: self.description.deep_view(),
        }
    }
}

impl Clone for Filter {
    /// A clone has the same mathematical content.
    fn clone(&self) -> (r: Self)
        ensures
            r@ == self@,
    {
        let description = match &self.description {
            Some(s) => Some(s.clone()),
            None => None,
        };
        Filter {
            min_date: self.min_date,
            max_date: self.max_date,
            actions: clone_actions(&self.actions),
            projects: clone_labels(&self.projects),
            description,
        }
    }
}

/// The orchestrator: the full record set with its baseline filter and
/// segments, and the currently filtered aggregate, segments and series.
#[derive(PartialEq, Eq, Debug)]
pub struct Graph {
    pub all_activities: Activities,
    pub all_filter: Filter,
    pub all_per_scale_x_segments: ScaleXSegments,
    pub applied_filter: Filter,
    pub filtered_activities_aggregate: ActivitiesAggregate,
    pub filtered_per_scale_x_segments: ScaleXSegments,
    pub filtered_per_scale_y_activities: YActivities,
}

/// The mathematical content of a [`Graph`]: one observable snapshot.
pub struct GraphView {
    pub all_activities: Seq<ActivityView>,
    pub all_filter: FilterView,
    pub all_per_scale_x_segments: SegmentsView,
    pub applied_filter: FilterView,
    pub filtered_activities_aggregate: AggregateView,
    pub filtered_per_scale_x_segments: SegmentsView,
    pub filtered_per_scale_y_activities: YView,
}

impl View for Graph {
    type V = GraphView;

    open spec fn view(&self) -> GraphView {
        GraphView {
            all_activities: self.all_activities@,
            all_filter: self.all_filter@,
            all_per_scale_x_segments: self.all_per_scale_x_segments@,
            applied_filter: self.applied_filter@,
            filtered_activities_aggregate: self.filtered_activities_aggregate@,
            filtered_per_scale_x_segments: self.filtered_per_scale_x_segments@,
            filtered_per_scale_y_activities: self.filtered_per_scale_y_activities@,
        }
    }
}

/// The summary aggregate of the records `s`.
pub open spec fn aggregate_view_of(s: Seq<ActivityView>) -> AggregateView {
    AggregateView {
        min_date: fold_min_start(s),
        max_date: fold_max_end(s),
        actions: fold_actions(s),
        projects: fold_projects(s),
    }
}

/// The baseline filter of the records `s`: the full recorded date range,
/// every present action and project, no search text.
pub open spec fn default_filter_view(s: Seq<ActivityView>) -> FilterView {
    FilterView {
        min_date: fold_min_start(s),
        max_date: fold_max_end(s),
        actions: fold_actions(s),
        projects: fold_projects(s),
        description: None,
    }
}

/// The records of `base` passing the filter `f`.
pub open spec fn filtered_records(base: Seq<ActivityView>, f: FilterView) -> Seq<ActivityView> {
    filtered_activities(base, f.min_date, f.max_date, f.actions, f.projects, f.description)
}

/// A correct filtered view for filter `f` over the records `base`: the
/// aggregate of the passing records, the segmentation of the filter's date
/// window, and the series of the passing records over that segmentation.
pub open spec fn filtered_state_ok(g: GraphView, base: Seq<ActivityView>, f: FilterView) -> bool {
    let filtered = filtered_records(base, f);
    &&& g.applied_filter == f
    &&& g.filtered_activities_aggregate == aggregate_view_of(filtered)
    &&& g.filtered_per_scale_x_segments.wf()
    &&& g.filtered_per_scale_x_segments.spans(f.min_date, f.max_date)
    &&& g.filtered_per_scale_y_activities.actions == fold_actions(filtered)
    &&& g.filtered_per_scale_y_activities.projects == fold_projects(filtered)
    &&& y_view_ok(g.filtered_per_scale_y_activities, filtered, g.filtered_per_scale_x_segments)
}

/// The relation between the snapshots before and after one filter
/// application: the baseline is untouched, and the filtered view is a
/// correct filtered view for the new filter.
pub open spec fn filter_applied(old_g: GraphView, new_g: GraphView, f: FilterView) -> bool {
    &&& new_g.all_activities == old_g.all_activities
    &&& new_g.all_filter == old_g.all_filter
    &&& new_g.all_per_scale_x_segments == old_g.all_per_scale_x_segments
    &&& filtered_state_ok(new_g, old_g.all_activities, f)
}

impl Graph {
    /// Well-formed records: every activity valid, and few enough to sum.
    pub open spec fn wf(self) -> bool {
        all_wf(self@.all_activities) && self@.all_activities.len() <= MAX_ACTIVITIES
    }

    /// Builds the baseline graph: the full record set, its summary
    /// aggregate, the segmentation of the whole recorded range, and the
    /// series of all records; the filtered view initially equals the
    /// baseline, under the filter that passes everything recorded.
    pub fn new(all_activities: &Activities) -> (r: Graph)
        requires
            all_activities.wf(),
            all_activities@.len() <= MAX_ACTIVITIES,
        ensures
            r.wf(),
            r@.all_activities == all_activities@,
            r@.all_filter == default_filter_view(all_activities@),
            r@.applied_filter == default_filter_view(all_activities@),
            r@.all_per_scale_x_segments.wf(),
            r@.all_per_scale_x_segments.spans(
                fold_min_start(all_activities@),
                fold_max_end(all_activities@),
            ),
            r@.filtered_per_scale_x_segments == r@.all_per_scale_x_segments,
            r@.filtered_activities_aggregate == aggregate_view_of(all_activities@),
            r@.filtered_per_scale_y_activities.actions == fold_actions(all_activities@),
            r@.filtered_per_scale_y_activities.projects == fold_projects(all_activities@),
            y_view_ok(
                r@.filtered_per_scale_y_activities,
                all_activities@,
                r@.filtered_per_scale_x_segments,
            ),
    {
        proof {
            lemma_fold_dates_valid(all_activities@);
            lemma_fold_actions_ok(all_activities@);
            lemma_fold_projects_ok(all_activities@);
        }
        let filtered_activities_aggregate = all_activities.aggregate_all();
        let all_filter = Filter {
            min_date: filtered_activities_aggregate.0,
            max_date: filtered_activities_aggregate.1,
            actions: clone_actions(&filtered_activities_aggregate.2),
            projects: clone_labels(&filtered_activities_aggregate.3),
            description: None,
        };
        let all_per_scale_x_segments = ScaleXSegments::new(
            &filtered_activities_aggregate.0,
            &filtered_activities_aggregate.1,
        );
        let applied_filter = all_filter.clone();
        let filtered_per_scale_x_segments = all_per_scale_x_segments.clone();
        let filtered_per_scale_y_activities = YActivities::new(
            all_activities,
            &filtered_activities_aggregate.2,
            &filtered_activities_aggregate.3,
            &filtered_per_scale_x_segments,
        );
        Graph {
            all_activities: all_activities.clone(),
            all_filter,
            all_per_scale_x_segments,
            applied_filter,
            filtered_activities_aggregate,
            filtered_per_scale_x_segments,
            filtered_per_scale_y_activities,
        }
    }

    /// Recomputes the filtered view from scratch for `filter` and replaces
    /// it as one snapshot; the baseline is untouched.
    pub fn apply_filter(&mut self, filter: &Filter)
        requires
            old(self).wf(),
            filter.min_date.valid(),
            filter.min_date.year <= 9999,
            filter.max_date.valid(),
            filter.max_date.year <= 9999,
        ensures
            final(self).wf(),
            filter_applied(old(self)@, final(self)@, filter@),
    {
        let filtered = self.all_activities.filter(
            &filter.min_date,
            &filter.max_date,
            &filter.actions,
            &filter.projects,
            &filter.description,
        );
        proof {
            lemma_filtered_ok(
                self@.all_activities,
                filter@.min_date,
                filter@.max_date,
                filter@.actions,
                filter@.projects,
                filter@.description,
            );
            lemma_fold_dates_valid(filtered@);
            lemma_fold_actions_ok(filtered@);
            lemma_fold_projects_ok(filtered@);
        }
        self.filtered_activities_aggregate = filtered.aggregate_all();
        self.applied_filter = filter.clone();
        self.filtered_per_scale_x_segments = ScaleXSegments::new(
            &filter.min_date,
            &filter.max_date,
        );
        self.filtered_per_scale_y_activities = YActivities::new(
            &filtered,
            &self.filtered_activities_aggregate.2,
            &self.filtered_activities_aggregate.3,
            &self.filtered_per_scale_x_segments,
        );
    }
}

/// One filter applied to one record set determines the filtered snapshot:
/// two correct filtered views over the same records and filter are equal.
pub proof fn lemma_filtered_state_unique(
    g1: GraphView,
    g2: GraphView,
    base: Seq<ActivityView>,
    f: FilterView,
)
    requires
        filtered_state_ok(g1, base, f),
        filtered_state_ok(g2, base, f),
    ensures
        g1.applied_filter == g2.applied_filter,
        g1.filtered_activities_aggregate == g2.filtered_activities_aggregate,
        g1.filtered_per_scale_x_segments == g2.filtered_per_scale_x_segments,
        g1.filtered_per_scale_y_activities == g2.filtered_per_scale_y_activities,
{
    lemma_spans_unique(
        g1.filtered_per_scale_x_segments,
        g2.filtered_per_scale_x_segments,
        f.min_date,
        f.max_date,
    );
    lemma_y_view_unique(
        g1.filtered_per_scale_y_activities,
        g2.filtered_per_scale_y_activities,
        filtered_records(base, f),
        g1.filtered_per_scale_x_segments,
    );
}

/// Law: the series built from the filtered records sum to the total minutes
/// of the independently computed aggregate of the same filtered set, at
/// every scale — provided the filtered set is non-empty and no filtered
/// record ends on an earlier day than it starts.
pub proof fn lemma_series_match_aggregate(
    g: GraphView,
    base: Seq<ActivityView>,
    f: FilterView,
    agg: crate::aggregates::Aggregates,
    sc: crate::graph::scale::Scale,
)
    requires
        all_wf(base),
        filtered_state_ok(g, base, f),
        crate::aggregates::aggregates_ok(agg, filtered_records(base, f)),
        f.min_date.valid(),
        f.max_date.valid(),
        filtered_records(base, f).len() > 0,
        forall|q: int|
            0 <= q < filtered_records(base, f).len() ==> (#[trigger] filtered_records(base, f)[q]).start_datetime.date.day_index()
                <= filtered_records(base, f)[q].end_datetime.date.day_index(),
    ensures
        crate::graph::y_activities::sum_series(
            g.filtered_per_scale_y_activities.scale_total_minutes.of_scale(sc),
        ) == agg.all.total_minutes,
{
    let filtered = filtered_records(base, f);
    lemma_filtered_ok(base, f.min_date, f.max_date, f.actions, f.projects, f.description);
    assert forall|q: int|
        0 <= q < filtered.len() implies f.min_date.day_index() <= (#[trigger] filtered[q]).start_datetime.date.day_index()
        <= f.max_date.day_index() by {
        assert(crate::activity::activity_matches(
            filtered[q],
            f.min_date,
            f.max_date,
            f.actions,
            f.projects,
            f.description,
        ));
    }
    crate::graph::y_activities::lemma_series_sum_is_total(
        g.filtered_per_scale_y_activities,
        filtered,
        g.filtered_per_scale_x_segments,
        f.min_date,
        f.max_date,
        sc,
    );
}

/// Applying the same filter twice in a row yields an identical snapshot:
/// the second application sees the same baseline and produces the same
/// filtered view, so the whole graph snapshot is unchanged.
pub proof fn lemma_apply_filter_idempotent(
    g0: GraphView,
    g1: GraphView,
    g2: GraphView,
    f: FilterView,
)
    requires
        filter_applied(g0, g1, f),
        filter_applied(g1, g2, f),
    ensures
        g2 == g1,
{
    lemma_filtered_state_unique(g1, g2, g0.all_activities, f);
}

} // verus!
