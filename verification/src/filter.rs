//! A conjunctive predicate over activities: a date window, allowed actions
//! and projects, and a free-text search over descriptions.

use vstd::prelude::*;

use crate::activity::Action;
use crate::activity::Activities;
use crate::activity::ActivityView;
use crate::activity::filtered_activities;
use crate::activity::fold_actions;
use crate::activity::fold_projects;
use crate::date::Date;
use crate::date::DateTime;

verus! {

/// A conjunctive activity filter.  A record passes when its start date is
/// at or after `min_date`, its end date at or before `max_date`, its action
/// among `actions`, at least one of its projects among `projects`, and its
/// description holds `free_text` as a substring (the empty text passes
/// everything).
#[derive(PartialEq, Eq, Debug)]
pub struct Filter {
    pub min_date: Date,
    pub max_date: Date,
    pub free_text: String,
    pub projects: Vec<String>,
    pub actions: Vec<Action>,
}

/// The mathematical content of a [`Filter`].
pub struct FilterView {
    pub min_date: Date,
    pub max_date: Date,
    pub free_text: Seq<char>,
    pub projects: Seq<Seq<char>>,
    pub actions: Seq<Action>,
}

impl View for Filter {
    type V = FilterView;

    open spec fn view(&self) -> FilterView {
        FilterView {
            min_date: self.min_date,
            max_date: self.max_date,
            free_text: self.free_text@,
            projects: self.projects.deep_view(),
            actions: self.actions@,
        }
    }
}

/// The earliest start moment of a non-empty record sequence.
pub open spec fn fold_min_start_dt(s: Seq<ActivityView>) -> DateTime
    decreases s.len(),
{
    if s.len() <= 1 {
        s[0].start_datetime
    } else {
        let p = fold_min_start_dt(s.drop_last());
        if s.last().start_datetime.minute_index() < p.minute_index() {
            s.last().start_datetime
        } else {
            p
        }
    }
}

/// The latest end moment of a non-empty record sequence, never earlier
/// than the first record's start.
pub open spec fn fold_max_end_dt(s: Seq<ActivityView>) -> DateTime
    decreases s.len(),
{
    if s.len() <= 1 {
        if s[0].end_datetime.minute_index() > s[0].start_datetime.minute_index() {
            s[0].end_datetime
        } else {
            s[0].start_datetime
        }
    } else {
        let p = fold_max_end_dt(s.drop_last());
        if s.last().end_datetime.minute_index() > p.minute_index() {
            s.last().end_datetime
        } else {
            p
        }
    }
}

impl Filter {
    /// The filter that passes everything recorded: the full date range and
    /// every present action and project, with no text constraint.  Without
    /// records it keeps the sentinel bounds, a far future before a far past,
    /// and empty sets.
    #[verifier::rlimit(100)]
    #[verifier::spinoff_prover]
    pub fn new(activities: Activities) -> (r: Filter)
        requires
            activities.wf(),
        ensures
            activities@.len() > 0 ==> r@.min_date == fold_min_start_dt(activities@).date
                && r@.max_date == fold_max_end_dt(activities@).date,
            activities@.len() == 0 ==> r@.min_date == (Date { year: 9999, month: 1, day: 1 })
                && r@.max_date == (Date { year: 0, month: 1, day: 1 }),
            r@.free_text == Seq::<char>::empty(),
            r@.actions == fold_actions(activities@),
            r@.projects == fold_projects(activities@),
    {
        if activities.0.len() == 0 {
            let no_projects: Vec<String> = Vec::new();
            let no_actions: Vec<Action> = Vec::new();
            proof {
                reveal_strlit("");
                assert(""@ =~= Seq::<char>::empty());
                assert(activities@ =~= Seq::<ActivityView>::empty());
                assert(no_actions@ =~= fold_actions(activities@));
                assert(no_projects.deep_view() =~= fold_projects(activities@));
            }
            return Filter {
                min_date: Date { year: 9999, month: 1, day: 1 },
                max_date: Date { year: 0, month: 1, day: 1 },
                free_text: "".to_owned(),
                projects: no_projects,
                actions: no_actions,
            };
        }
        let first_start = activities.0[0].start_datetime;
        proof {
            assert(activities@[0] == activities.0@[0].deep_view());
            assert(activities@[0].wf());
        }
        let mut min_dt = first_start;
        let mut max_dt = if first_start.le(&activities.0[0].end_datetime) {
            activities.0[0].end_datetime
        } else {
            first_start
        };
        proof {
            assert(activities@.subrange(0, 1)[0] == activities@[0]);
            assert(min_dt == fold_min_start_dt(activities@.subrange(0, 1)));
            assert(max_dt == fold_max_end_dt(activities@.subrange(0, 1)));
        }
        let mut i: usize = 1;
        while i < activities.0.len()
            invariant
                activities.wf(),
                activities@.len() == activities.0@.len(),
                1 <= i <= activities@.len(),
                min_dt == fold_min_start_dt(activities@.subrange(0, i as int)),
                max_dt == fold_max_end_dt(activities@.subrange(0, i as int)),
                min_dt.valid(),
                max_dt.valid(),
            decreases activities@.len() - i,
        {
            let a = &activities.0[i];
            proof {
                assert(activities@[i as int] == activities.0@[i as int].deep_view());
                assert(activities@[i as int].wf());
                assert(activities@.subrange(0, i + 1).drop_last() =~= activities@.subrange(
                    0,
                    i as int,
                ));
                assert(activities@.subrange(0, i + 1).last() == activities@[i as int]);
                assert(activities@.subrange(0, i + 1)[0] == activities@[0]);
            }
            if !min_dt.le(&a.start_datetime) {
                min_dt = a.start_datetime;
            }
            if !a.end_datetime.le(&max_dt) {
                max_dt = a.end_datetime;
            }
            i = i + 1;
        }
        proof {
            assert(activities@.subrange(0, activities@.len() as int) =~= activities@);
            reveal_strlit("");
            assert(""@ =~= Seq::<char>::empty());
        }
        let agg = activities.aggregate_all();
        Filter {
            min_date: min_dt.date,
            max_date: max_dt.date,
            free_text: "".to_owned(),
            projects: agg.3,
            actions: agg.2,
        }
    }
}

/// Anything that can be narrowed by a [`Filter`].
pub trait Filterable: Sized {
    /// The records the filter narrows.
    spec fn content(&self) -> Seq<ActivityView>;

    /// Whether the records are ready to be filtered.
    spec fn content_ready(&self) -> bool;

    /// Keeps exactly the records passing the filter, in order.
    fn filter(&self, filter: &Filter) -> (r: Self)
        requires
            self.content_ready(),
            filter.min_date.valid(),
            filter.max_date.valid(),
        ensures
            r.content() == filtered_activities(
                self.content(),
                filter@.min_date,
                filter@.max_date,
                filter@.actions,
                filter@.projects,
                Some(filter@.free_text),
            ),
    ;
}

impl Filterable for Activities {
    open spec fn content(&self) -> Seq<ActivityView> {
        self@
    }

    open spec fn content_ready(&self) -> bool {
        self.wf()
    }

    fn filter(&self, filter: &Filter) -> (r: Self) {
        let text = Some(filter.free_text.clone());
        proof {
            assert(text.deep_view() == Some(filter.free_text@));
        }
        Activities::filter(
            self,
            &filter.min_date,
            &filter.max_date,
            &filter.actions,
            &filter.projects,
            &text,
        )
    }
}

} // verus!
