//! Activities: one recorded time interval with a description, one action
//! and a set of project labels, plus the ordered collection of them and its
//! summary aggregate.

use vstd::prelude::*;

use crate::date::Date;
use crate::date::DateTime;
use crate::text::contains_str;
use crate::text::dec2_str;
use crate::text::num_text2;
use crate::text::str_eq;
use crate::text::str_contains;

verus! {

/// The fixed categories of work a record can be tagged with.
#[derive(PartialEq, Eq, Structural, Debug, Copy, Clone)]
pub enum Action {
    Review,
    Meeting,
    Research,
    Code,
    Docs,
    Unknown,
}

/// The tag word that names `a`; `Unknown` is the word shown for records
/// without a recognised action tag and is never accepted as a tag itself.
pub open spec fn action_word(a: Action) -> Seq<char> {
    match a {
        Action::Review => seq!['r', 'e', 'v', 'i', 'e', 'w'],
        Action::Meeting => seq!['m', 'e', 'e', 't', 'i', 'n', 'g'],
        Action::Research => seq!['r', 'e', 's', 'e', 'a', 'r', 'c', 'h'],
        Action::Code => seq!['c', 'o', 'd', 'e'],
        Action::Docs => seq!['d', 'o', 'c', 's'],
        Action::Unknown => seq!['u', 'n', 'k', 'n', 'o', 'w', 'n'],
    }
}

impl Action {
    /// Classifies a tag word: exactly the five known action words, matched
    /// case-exactly, name an action.
    pub fn from_text(s: &str) -> (r: Option<Action>)
        ensures
            match r {
                Some(a) => a != Action::Unknown && s@ == action_word(a),
                None => forall|a: Action| a != Action::Unknown ==> s@ != action_word(a),
            },
    {
        proof {
            reveal_strlit("review");
            reveal_strlit("meeting");
            reveal_strlit("research");
            reveal_strlit("code");
            reveal_strlit("docs");
            assert("review"@ =~= action_word(Action::Review));
            assert("meeting"@ =~= action_word(Action::Meeting));
            assert("research"@ =~= action_word(Action::Research));
            assert("code"@ =~= action_word(Action::Code));
            assert("docs"@ =~= action_word(Action::Docs));
        }
        if str_eq(s, "review") {
            Some(Action::Review)
        } else if str_eq(s, "meeting") {
            Some(Action::Meeting)
        } else if str_eq(s, "research") {
            Some(Action::Research)
        } else if str_eq(s, "code") {
            Some(Action::Code)
        } else if str_eq(s, "docs") {
            Some(Action::Docs)
        } else {
            None
        }
    }

    /// The word shown for this action.
    pub fn label(&self) -> (r: &'static str)
        ensures
            r@ == action_word(*self),
    {
        proof {
            reveal_strlit("review");
            reveal_strlit("meeting");
            reveal_strlit("research");
            reveal_strlit("code");
            reveal_strlit("docs");
            reveal_strlit("unknown");
        }
        let r = match self {
            Action::Review => "review",
            Action::Meeting => "meeting",
            Action::Research => "research",
            Action::Code => "code",
            Action::Docs => "docs",
            Action::Unknown => "unknown",
        };
        proof {
            assert(r@ =~= action_word(*self));
        }
        r
    }
}

impl core::str::FromStr for Action {
    type Err = ();

    /// Parses exactly the five known action words.
    fn from_str(input: &str) -> Result<Action, ()> {
        match Action::from_text(input) {
            Some(a) => Ok(a),
            None => Err(()),
        }
    }
}

/// A classified tag: either one of the known action words or a free-form
/// project label.
#[derive(PartialEq, Eq, Debug)]
pub enum Type {
    Action(Action),
    Project(String),
}

impl Clone for Type {
    /// A clone is equal to the value it was made from.
    fn clone(&self) -> (r: Self)
        ensures
            r == *self,
    {
        match self {
            Type::Action(a) => Type::Action(*a),
            Type::Project(p) => Type::Project(p.clone()),
        }
    }
}

impl Type {
    /// Classifies a tag word: a known action word becomes an action, any
    /// other word a project label.
    pub fn from_text(s: &str) -> (r: Type)
        ensures
            match r {
                Type::Action(a) => a != Action::Unknown && s@ == action_word(a),
                Type::Project(p) => p@ == s@ && (forall|a: Action|
                    a != Action::Unknown ==> s@ != action_word(a)),
            },
    {
        match Action::from_text(s) {
            Some(a) => Type::Action(a),
            None => Type::Project(s.to_owned()),
        }
    }
}

impl core::str::FromStr for Type {
    type Err = ();

    /// Classifies a tag word; never fails.
    fn from_str(input: &str) -> Result<Type, ()> {
        Ok(Type::from_text(input))
    }
}

/// One recorded time interval.  Immutable once constructed.
#[derive(PartialEq, Eq, Debug)]
pub struct Activity {
    pub start_datetime: DateTime,
    pub end_datetime: DateTime,
    pub description: String,
    pub action: Action,
    pub projects: Vec<String>,
}

/// The mathematical content of an [`Activity`].
pub struct ActivityView {
    pub start_datetime: DateTime,
    pub end_datetime: DateTime,
    pub description: Seq<char>,
    pub action: Action,
    pub projects: Seq<Seq<char>>,
}

impl View for Activity {
    type V = ActivityView;

    open spec fn view(&self) -> ActivityView {
        ActivityView {
            start_datetime: self.start_datetime,
            end_datetime: self.end_datetime,
            description: self.description@,
            action: self.action,
            projects: self.projects.deep_view(),
        }
    }
}

impl DeepView for Activity {
    type V = ActivityView;

    open spec fn deep_view(&self) -> ActivityView {
        self.view()
    }
}

impl ActivityView {
    /// Well-formedness: valid datetimes within the supported years and
    /// pairwise-distinct project labels.
    pub open spec fn wf(self) -> bool {
        &&& self.start_datetime.valid()
        &&& self.start_datetime.date.year <= 9999
        &&& self.end_datetime.valid()
        &&& self.end_datetime.date.year <= 9999
        &&& forall|i: int, j: int|
            0 <= i < j < self.projects.len() ==> self.projects[i] != self.projects[j]
    }

    /// Minutes from start to end; negative when the record runs backwards.
    pub open spec fn duration_minutes(self) -> int {
        self.end_datetime.minute_index() - self.start_datetime.minute_index()
    }
}

/// Project labels, each wrapped in square brackets.
pub open spec fn bracketed_labels(ps: Seq<Seq<char>>) -> Seq<char>
    decreases ps.len(),
{
    if ps.len() == 0 {
        Seq::empty()
    } else {
        bracketed_labels(ps.drop_last()) + seq!['['] + ps.last() + seq![']']
    }
}

/// The one-line rendering of an activity: start and end time, the action
/// and project tags, then the description.
pub open spec fn activity_text(a: ActivityView) -> Seq<char> {
    dec2_str(a.start_datetime.hour as int) + seq!['h'] + dec2_str(a.start_datetime.minute as int)
        + seq!['-'] + dec2_str(a.end_datetime.hour as int) + seq!['h'] + dec2_str(
        a.end_datetime.minute as int,
    ) + seq![':', ' ', '['] + action_word(a.action) + seq![']'] + bracketed_labels(a.projects)
        + seq![' '] + a.description
}

impl Activity {
    /// Minutes from start to end; negative when the record runs backwards.
    pub fn duration(&self) -> (r: i64)
        requires
            self@.wf(),
        ensures
            r == self@.duration_minutes(),
    {
        self.start_datetime.minutes_until(&self.end_datetime)
    }

    /// Renders the activity as one line of the record grammar.
    pub fn label(&self) -> (r: String)
        requires
            self@.wf(),
        ensures
            r@ == activity_text(self@),
    {
        proof {
            reveal_strlit("h");
            reveal_strlit("-");
            reveal_strlit(": [");
            reveal_strlit("]");
            reveal_strlit("[");
            reveal_strlit(" ");
        }
        let mut s = num_text2(self.start_datetime.hour);
        s.append("h");
        let m1 = num_text2(self.start_datetime.minute);
        s.append(m1.as_str());
        s.append("-");
        let h2 = num_text2(self.end_datetime.hour);
        s.append(h2.as_str());
        s.append("h");
        let m2 = num_text2(self.end_datetime.minute);
        s.append(m2.as_str());
        s.append(": [");
        s.append(self.action.label());
        s.append("]");
        let ghost head = s@;
        let mut i: usize = 0;
        while i < self.projects.len()
            invariant
                i <= self.projects@.len(),
                self@.projects.len() == self.projects@.len(),
                s@ == head + bracketed_labels(self@.projects.subrange(0, i as int)),
            decreases self.projects@.len() - i,
        {
            let ghost svw = s@;
            s.append("[");
            s.append(self.projects[i].as_str());
            s.append("]");
            proof {
                reveal_strlit("[");
                reveal_strlit("]");
                let ps = self@.projects;
                assert(svw == head + bracketed_labels(ps.subrange(0, i as int)));
                assert(s@ == svw + "["@ + self.projects@[i as int]@ + "]"@);
                assert("["@ =~= seq!['[']);
                assert("]"@ =~= seq![']']);
                assert(ps.subrange(0, i + 1).drop_last() =~= ps.subrange(0, i as int));
                assert(ps.subrange(0, i + 1).last() == ps[i as int]);
                assert(bracketed_labels(ps.subrange(0, i + 1)) == bracketed_labels(
                    ps.subrange(0, i as int),
                ) + seq!['['] + ps[i as int] + seq![']']);
                assert(self.projects@[i as int]@ == ps[i as int]);
                assert(s@ =~= head + bracketed_labels(ps.subrange(0, i + 1)));
            }
            i = i + 1;
        }
        s.append(" ");
        s.append(self.description.as_str());
        proof {
            assert(self@.projects.subrange(0, self@.projects.len() as int) =~= self@.projects);
            assert(s@ =~= activity_text(self@));
        }
        s
    }
}

/// A bound on the number of records the aggregating functions accept: with
/// durations below two to the 33rd minutes in magnitude, sums of this many
/// stay well inside a signed 64-bit number.
pub const MAX_ACTIVITIES: usize = 0x1000_0000;

/// A bound on the magnitude of one record's duration in minutes, implied by
/// the supported calendar years.
pub open spec fn duration_bound() -> int {
    0x2_0000_0000
}

/// A well-formed record's duration is bounded by the calendar.
pub proof fn lemma_duration_bound(a: ActivityView)
    requires
        a.wf(),
    ensures
        -duration_bound() < a.duration_minutes() < duration_bound(),
{
}

/// Every record of the sequence is well-formed.
pub open spec fn all_wf(s: Seq<ActivityView>) -> bool {
    forall|i: int| 0 <= i < s.len() ==> #[trigger] s[i].wf()
}

/// The sum of all record durations, in minutes.
pub open spec fn total_minutes_of(s: Seq<ActivityView>) -> int
    decreases s.len(),
{
    if s.len() == 0 {
        0
    } else {
        total_minutes_of(s.drop_last()) + s.last().duration_minutes()
    }
}

/// The earliest start date of the records, or the far-future sentinel for
/// an empty sequence.
pub open spec fn fold_min_start(s: Seq<ActivityView>) -> Date
    decreases s.len(),
{
    if s.len() == 0 {
        Date { year: 9999, month: 1, day: 1 }
    } else {
        let p = fold_min_start(s.drop_last());
        let d = s.last().start_datetime.date;
        if d.day_index() < p.day_index() {
            d
        } else {
            p
        }
    }
}

/// The latest end date of the records, or the far-past sentinel for an
/// empty sequence.
pub open spec fn fold_max_end(s: Seq<ActivityView>) -> Date
    decreases s.len(),
{
    if s.len() == 0 {
        Date { year: 0, month: 1, day: 1 }
    } else {
        let p = fold_max_end(s.drop_last());
        let d = s.last().end_datetime.date;
        if d.day_index() > p.day_index() {
            d
        } else {
            p
        }
    }
}

/// The actions of the records, in order of first occurrence.
pub open spec fn fold_actions(s: Seq<ActivityView>) -> Seq<Action>
    decreases s.len(),
{
    if s.len() == 0 {
        Seq::empty()
    } else {
        let p = fold_actions(s.drop_last());
        if p.contains(s.last().action) {
            p
        } else {
            p.push(s.last().action)
        }
    }
}

/// Appends to `acc` the labels of `more` it does not hold yet, in order.
pub open spec fn merge_labels(acc: Seq<Seq<char>>, more: Seq<Seq<char>>) -> Seq<Seq<char>>
    decreases more.len(),
{
    if more.len() == 0 {
        acc
    } else {
        let acc2 = if acc.contains(more[0]) {
            acc
        } else {
            acc.push(more[0])
        };
        merge_labels(acc2, more.subrange(1, more.len() as int))
    }
}

/// The project labels of the records, in order of first occurrence.
pub open spec fn fold_projects(s: Seq<ActivityView>) -> Seq<Seq<char>>
    decreases s.len(),
{
    if s.len() == 0 {
        Seq::empty()
    } else {
        merge_labels(fold_projects(s.drop_last()), s.last().projects)
    }
}

/// Merging one more label at the end merges it into the accumulated result.
pub proof fn lemma_merge_labels_snoc(acc: Seq<Seq<char>>, more: Seq<Seq<char>>, x: Seq<char>)
    ensures
        merge_labels(acc, more.push(x)) == {
            let m = merge_labels(acc, more);
            if m.contains(x) {
                m
            } else {
                m.push(x)
            }
        },
    decreases more.len(),
{
    if more.len() == 0 {
        assert(more.push(x)[0] == x);
        assert(more.push(x).subrange(1, 1) =~= Seq::<Seq<char>>::empty());
        assert(merge_labels(acc, more) == acc);
        let accx = if acc.contains(x) {
            acc
        } else {
            acc.push(x)
        };
        assert(merge_labels(acc, more.push(x)) == merge_labels(
            accx,
            more.push(x).subrange(1, 1),
        ));
        assert(merge_labels(accx, more.push(x).subrange(1, 1)) == accx);
    } else {
        assert(more.push(x)[0] == more[0]);
        let acc2 = if acc.contains(more[0]) {
            acc
        } else {
            acc.push(more[0])
        };
        let tail = more.subrange(1, more.len() as int);
        assert(more.push(x).subrange(1, more.len() as int + 1) =~= tail.push(x));
        assert(merge_labels(acc, more) == merge_labels(acc2, tail));
        assert(merge_labels(acc, more.push(x)) == merge_labels(acc2, tail.push(x)));
        lemma_merge_labels_snoc(acc2, tail, x);
    }
}

/// Whether one activity passes a conjunctive filter: start date at or after
/// `min`, end date at or before `max`, its action among `actions`, at least
/// one of its projects among `projects`, and, when `text` is given, the
/// description holding `text` as a substring.
pub open spec fn activity_matches(
    a: ActivityView,
    min: Date,
    max: Date,
    actions: Seq<Action>,
    projects: Seq<Seq<char>>,
    text: Option<Seq<char>>,
) -> bool {
    &&& a.start_datetime.date.day_index() >= min.day_index()
    &&& a.end_datetime.date.day_index() <= max.day_index()
    &&& actions.contains(a.action)
    &&& exists|j: int| 0 <= j < a.projects.len() && projects.contains(#[trigger] a.projects[j])
    &&& match text {
        Some(t) => contains_str(a.description, t),
        None => true,
    }
}

/// The subsequence of records passing the filter, in order.
pub open spec fn filtered_activities(
    s: Seq<ActivityView>,
    min: Date,
    max: Date,
    actions: Seq<Action>,
    projects: Seq<Seq<char>>,
    text: Option<Seq<char>>,
) -> Seq<ActivityView>
    decreases s.len(),
{
    if s.len() == 0 {
        s
    } else {
        let p = filtered_activities(s.drop_last(), min, max, actions, projects, text);
        if activity_matches(s.last(), min, max, actions, projects, text) {
            p.push(s.last())
        } else {
            p
        }
    }
}

/// Whether `v` holds the action `a`.
pub fn contains_action(v: &Vec<Action>, a: Action) -> (r: bool)
    ensures
        r == v@.contains(a),
{
    let mut j: usize = 0;
    while j < v.len()
        invariant
            j <= v@.len(),
            forall|k: int| 0 <= k < j ==> v@[k] != a,
        decreases v@.len() - j,
    {
        if v[j] == a {
            return true;
        }
        j = j + 1;
    }
    false
}

/// Whether `v` holds the label `s`.
pub fn contains_label(v: &Vec<String>, s: &str) -> (r: bool)
    ensures
        r == v.deep_view().contains(s@),
{
    let mut j: usize = 0;
    while j < v.len()
        invariant
            j <= v@.len(),
            forall|k: int| 0 <= k < j ==> v.deep_view()[k] != s@,
        decreases v@.len() - j,
    {
        if str_eq(v[j].as_str(), s) {
            proof {
                assert(v.deep_view()[j as int] == s@);
            }
            return true;
        }
        j = j + 1;
    }
    proof {
        assert forall|k: int| 0 <= k < v.deep_view().len() implies v.deep_view()[k] != s@ by {}
    }
    false
}

/// Copies a vector of labels.
pub fn clone_labels(v: &Vec<String>) -> (r: Vec<String>)
    ensures
        r.deep_view() == v.deep_view(),
{
    let mut out: Vec<String> = Vec::new();
    let mut i: usize = 0;
    while i < v.len()
        invariant
            i <= v@.len(),
            out.deep_view() == v.deep_view().subrange(0, i as int),
        decreases v@.len() - i,
    {
        let ghost entry = out.deep_view();
        let ghost pre = out@;
        let item = v[i].clone();
        proof {
            assert(pre.len() == entry.len());
            assert(entry.len() == i);
        }
        out.push(item);
        proof {
            assert(out@.len() == pre.len() + 1);
            let target = v.deep_view().subrange(0, i + 1);
            assert forall|j: int| 0 <= j < i + 1 implies out.deep_view()[j] == target[j] by {
                assert(target[j] == v@[j].deep_view());
                assert(out.deep_view()[j] == out@[j].deep_view());
                if j < i {
                    assert(out@[j] == pre[j]);
                    assert(pre[j].deep_view() == entry[j]);
                    assert(entry[j] == target[j]);
                }
            }
            assert(out.deep_view() =~= target);
        }
        i = i + 1;
    }
    proof {
        assert(v.deep_view().subrange(0, v@.len() as int) =~= v.deep_view());
    }
    out
}

/// Copies a vector of actions.
pub fn clone_actions(v: &Vec<Action>) -> (r: Vec<Action>)
    ensures
        r@ == v@,
{
    let mut out: Vec<Action> = Vec::new();
    let mut i: usize = 0;
    while i < v.len()
        invariant
            i <= v@.len(),
            out@ == v@.subrange(0, i as int),
        decreases v@.len() - i,
    {
        out.push(v[i]);
        proof {
            assert(out@ =~= v@.subrange(0, i + 1));
        }
        i = i + 1;
    }
    proof {
        assert(v@.subrange(0, v@.len() as int) =~= v@);
    }
    out
}

/// The ordered collection of all activities.
#[derive(PartialEq, Eq, Debug)]
pub struct Activities(pub Vec<Activity>);

impl View for Activities {
    type V = Seq<ActivityView>;

    open spec fn view(&self) -> Seq<ActivityView> {
        self.0.deep_view()
    }
}

/// The summary of a collection of activities: the date range it spans and
/// the sets of actions and project labels present, each as a duplicate-free
/// vector in order of first occurrence.
#[derive(PartialEq, Eq, Debug)]
pub struct ActivitiesAggregate(pub Date, pub Date, pub Vec<Action>, pub Vec<String>);

/// The mathematical content of an [`ActivitiesAggregate`].
pub struct AggregateView {
    pub min_date: Date,
    pub max_date: Date,
    pub actions: Seq<Action>,
    pub projects: Seq<Seq<char>>,
}

impl View for ActivitiesAggregate {
    type V = AggregateView;

    open spec fn view(&self) -> AggregateView {
        AggregateView {
            min_date: self.0,
            max_date: self.1,
            actions: self.2@,
            projects: self.3.deep_view(),
        }
    }
}

impl Clone for ActivitiesAggregate {
    /// A clone has the same mathematical content.
    fn clone(&self) -> (r: Self)
        ensures
            r@ == self@,
    {
        ActivitiesAggregate(self.0, self.1, clone_actions(&self.2), clone_labels(&self.3))
    }
}

impl Activities {
    /// Every record is well-formed.
    pub open spec fn wf(self) -> bool {
        all_wf(self@)
    }

    /// Summarises the whole collection: earliest start date, latest end
    /// date, and the actions and project labels present.  The empty
    /// collection keeps the sentinel bounds, a far future before a far past.
    pub fn aggregate_all(&self) -> (r: ActivitiesAggregate)
        requires
            self.wf(),
        ensures
            r@.min_date == fold_min_start(self@),
            r@.max_date == fold_max_end(self@),
            r@.actions == fold_actions(self@),
            r@.projects == fold_projects(self@),
    {
        let mut min_date = Date { year: 9999, month: 1, day: 1 };
        let mut max_date = Date { year: 0, month: 1, day: 1 };
        let mut actions: Vec<Action> = Vec::new();
        let mut projects: Vec<String> = Vec::new();
        let mut i: usize = 0;
        proof {
            assert(self@.subrange(0, 0) =~= Seq::<ActivityView>::empty());
        }
        while i < self.0.len()
            invariant
                i <= self.0@.len(),
                self@.len() == self.0@.len(),
                all_wf(self@),
                min_date == fold_min_start(self@.subrange(0, i as int)),
                max_date == fold_max_end(self@.subrange(0, i as int)),
                actions@ == fold_actions(self@.subrange(0, i as int)),
                projects.deep_view() == fold_projects(self@.subrange(0, i as int)),
                min_date.valid(),
                max_date.valid(),
            decreases self.0@.len() - i,
        {
            let a = &self.0[i];
            proof {
                assert(self@[i as int] == self.0@[i as int].deep_view());
                assert(self@[i as int].wf());
            }
            let ghost prefix = self@.subrange(0, i as int);
            let ghost prefix1 = self@.subrange(0, i + 1);
            proof {
                assert(prefix1.drop_last() =~= prefix);
                assert(prefix1.last() == self@[i as int]);
            }
            let start_date = a.start_datetime.date;
            let end_date = a.end_datetime.date;
            if !min_date.le(&start_date) {
                min_date = start_date;
            }
            if !end_date.le(&max_date) {
                max_date = end_date;
            }
            if !contains_action(&actions, a.action) {
                actions.push(a.action);
            }
            let mut k: usize = 0;
            let ghost base = projects.deep_view();
            while k < a.projects.len()
                invariant
                    k <= a.projects@.len(),
                    a.deep_view().projects.len() == a.projects@.len(),
                    projects.deep_view() == merge_labels(
                        base,
                        a.deep_view().projects.subrange(0, k as int),
                    ),
                decreases a.projects@.len() - k,
            {
                let ghost ps = a.deep_view().projects;
                let ghost sofar = projects.deep_view();
                let ghost pre = projects@;
                proof {
                    assert(ps.subrange(0, k + 1).drop_last() =~= ps.subrange(0, k as int));
                    assert(ps.subrange(0, k as int).push(ps[k as int]) =~= ps.subrange(0, k + 1));
                    lemma_merge_labels_snoc(base, ps.subrange(0, k as int), ps[k as int]);
                    assert(a.projects@[k as int]@ == ps[k as int]);
                }
                if !contains_label(&projects, a.projects[k].as_str()) {
                    let item = a.projects[k].clone();
                    proof {
                        assert(pre.len() == sofar.len());
                    }
                    projects.push(item);
                    proof {
                        let target = sofar.push(ps[k as int]);
                        assert forall|j: int|
                            0 <= j < sofar.len() + 1 implies projects.deep_view()[j] == target[j] by {
                            assert(projects.deep_view()[j] == projects@[j].deep_view());
                            if j < sofar.len() {
                                assert(projects@[j] == pre[j]);
                                assert(pre[j].deep_view() == sofar[j]);
                            }
                        }
                        assert(projects.deep_view() =~= target);
                    }
                }
                k = k + 1;
            }
            proof {
                assert(a.deep_view().projects.subrange(0, a.projects@.len() as int)
                    =~= a.deep_view().projects);
                assert(fold_projects(prefix1) == merge_labels(
                    fold_projects(prefix),
                    self@[i as int].projects,
                ));
            }
            i = i + 1;
        }
        proof {
            assert(self@.subrange(0, self@.len() as int) =~= self@);
        }
        ActivitiesAggregate(min_date, max_date, actions, projects)
    }

    /// Keeps exactly the records that pass the conjunctive filter: start
    /// date at or after `start_date`, end date at or before `end_date`,
    /// action among `actions`, at least one project among `projects`, and,
    /// when `search_text` is given, the description holding it as a
    /// substring.
    pub fn filter(
        &self,
        start_date: &Date,
        end_date: &Date,
        actions: &Vec<Action>,
        projects: &Vec<String>,
        search_text: &Option<String>,
    ) -> (r: Activities)
        requires
            self.wf(),
            start_date.valid(),
            end_date.valid(),
        ensures
            r@ == filtered_activities(
                self@,
                *start_date,
                *end_date,
                actions@,
                projects.deep_view(),
                search_text.deep_view(),
            ),
            r.wf(),
    {
        let mut out: Vec<Activity> = Vec::new();
        proof {
            assert(self@.subrange(0, 0) =~= Seq::<ActivityView>::empty());
        }
        let mut i: usize = 0;
        while i < self.0.len()
            invariant
                i <= self.0@.len(),
                self@.len() == self.0@.len(),
                all_wf(self@),
                start_date.valid(),
                end_date.valid(),
                out.deep_view() == filtered_activities(
                    self@.subrange(0, i as int),
                    *start_date,
                    *end_date,
                    actions@,
                    projects.deep_view(),
                    search_text.deep_view(),
                ),
                all_wf(out.deep_view()),
            decreases self.0@.len() - i,
        {
            let a = &self.0[i];
            proof {
                assert(self@[i as int] == self.0@[i as int].deep_view());
                assert(self@[i as int].wf());
                assert(self@.subrange(0, i + 1).drop_last() =~= self@.subrange(0, i as int));
                assert(self@.subrange(0, i + 1).last() == self@[i as int]);
            }
            let ghost sofar = out.deep_view();
            let ghost pre = out@;
            if Activities::matches_one(a, start_date, end_date, actions, projects, search_text) {
                let item = a.clone();
                proof {
                    assert(pre.len() == sofar.len());
                }
                out.push(item);
                proof {
                    let target = sofar.push(self@[i as int]);
                    assert forall|j: int|
                        0 <= j < sofar.len() + 1 implies out.deep_view()[j] == target[j] by {
                        assert(out.deep_view()[j] == out@[j].deep_view());
                        if j < sofar.len() {
                            assert(out@[j] == pre[j]);
                            assert(pre[j].deep_view() == sofar[j]);
                        }
                    }
                    assert(out.deep_view() =~= target);
                }
            }
            i = i + 1;
        }
        proof {
            assert(self@.subrange(0, self@.len() as int) =~= self@);
        }
        Activities(out)
    }

    /// Whether one record passes the filter.
    fn matches_one(
        a: &Activity,
        start_date: &Date,
        end_date: &Date,
        actions: &Vec<Action>,
        projects: &Vec<String>,
        search_text: &Option<String>,
    ) -> (r: bool)
        requires
            a@.wf(),
            start_date.valid(),
            end_date.valid(),
        ensures
            r == activity_matches(
                a.deep_view(),
                *start_date,
                *end_date,
                actions@,
                projects.deep_view(),
                search_text.deep_view(),
            ),
    {
        if !start_date.le(&a.start_datetime.date) {
            return false;
        }
        if !a.end_datetime.date.le(end_date) {
            return false;
        }
        if !contains_action(actions, a.action) {
            return false;
        }
        let mut any = false;
        let mut j: usize = 0;
        while j < a.projects.len()
            invariant
                j <= a.projects@.len(),
                a.deep_view().projects.len() == a.projects@.len(),
                any ==> exists|q: int|
                    0 <= q < a.deep_view().projects.len() && projects.deep_view().contains(
                        #[trigger] a.deep_view().projects[q],
                    ),
                !any ==> forall|q: int|
                    0 <= q < j ==> !projects.deep_view().contains(#[trigger] a.deep_view().projects[q]),
            decreases a.projects@.len() - j,
        {
            if contains_label(projects, a.projects[j].as_str()) {
                proof {
                    assert(a.deep_view().projects[j as int] == a.projects@[j as int]@);
                }
                any = true;
                j = a.projects.len();
            } else {
                proof {
                    assert(a.deep_view().projects[j as int] == a.projects@[j as int]@);
                }
                j = j + 1;
            }
        }
        if !any {
            return false;
        }
        match search_text {
            Some(s) => str_contains(self_description_of(a), s.as_str()),
            None => true,
        }
    }
}

/// The description of `a`, as a borrowed string.
fn self_description_of(a: &Activity) -> (r: &str)
    ensures
        r@ == a.deep_view().description,
{
    a.description.as_str()
}

/// The rendering of a collection: one line per activity.
pub open spec fn activities_text(s: Seq<ActivityView>) -> Seq<char>
    decreases s.len(),
{
    if s.len() == 0 {
        Seq::empty()
    } else {
        activities_text(s.drop_last()) + activity_text(s.last()) + seq!['\n']
    }
}

impl Activities {
    /// Renders the collection, one line per activity.
    pub fn to_text(&self) -> (r: String)
        requires
            self.wf(),
        ensures
            r@ == activities_text(self@),
    {
        let mut s = String::new();
        proof {
            assert(self@.subrange(0, 0) =~= Seq::<ActivityView>::empty());
            assert(s@ =~= Seq::<char>::empty());
        }
        let mut i: usize = 0;
        while i < self.0.len()
            invariant
                i <= self.0@.len(),
                self@.len() == self.0@.len(),
                all_wf(self@),
                s@ == activities_text(self@.subrange(0, i as int)),
            decreases self.0@.len() - i,
        {
            proof {
                reveal_strlit("\n");
                assert(self@[i as int] == self.0@[i as int].deep_view());
                assert(self@[i as int].wf());
                assert(self@.subrange(0, i + 1).drop_last() =~= self@.subrange(0, i as int));
                assert(self@.subrange(0, i + 1).last() == self@[i as int]);
            }
            let line = self.0[i].label();
            s.append(line.as_str());
            s.append("\n");
            proof {
                assert("\n"@ =~= seq!['\n']);
                assert(s@ =~= activities_text(self@.subrange(0, i + 1)));
            }
            i = i + 1;
        }
        proof {
            assert(self@.subrange(0, self@.len() as int) =~= self@);
        }
        s
    }
}

impl Clone for Activities {
    /// A clone has the same mathematical content.
    fn clone(&self) -> (r: Self)
        ensures
            r@ == self@,
    {
        let mut out: Vec<Activity> = Vec::new();
        let mut i: usize = 0;
        while i < self.0.len()
            invariant
                i <= self.0@.len(),
                out.deep_view() == self.0.deep_view().subrange(0, i as int),
            decreases self.0@.len() - i,
        {
            let ghost entry = out.deep_view();
            let ghost pre = out@;
            let item = self.0[i].clone();
            proof {
                assert(pre.len() == entry.len());
                assert(entry.len() == i);
            }
            out.push(item);
            proof {
                assert(out@.len() == pre.len() + 1);
                let target = self.0.deep_view().subrange(0, i + 1);
                assert forall|j: int| 0 <= j < i + 1 implies out.deep_view()[j] == target[j] by {
                    assert(target[j] == self.0@[j].deep_view());
                    assert(out.deep_view()[j] == out@[j].deep_view());
                    if j < i {
                        assert(out@[j] == pre[j]);
                        assert(pre[j].deep_view() == entry[j]);
                        assert(entry[j] == target[j]);
                    }
                }
                assert(out.deep_view() =~= target);
            }
            i = i + 1;
        }
        proof {
            assert(self.0.deep_view().subrange(0, self.0@.len() as int) =~= self.0.deep_view());
        }
        Activities(out)
    }
}

/// The fold bounds are valid dates of supported years.
pub proof fn lemma_fold_dates_valid(s: Seq<ActivityView>)
    requires
        all_wf(s),
    ensures
        fold_min_start(s).valid(),
        fold_min_start(s).year <= 9999,
        fold_max_end(s).valid(),
        fold_max_end(s).year <= 9999,
    decreases s.len(),
{
    if s.len() > 0 {
        assert(all_wf(s.drop_last())) by {
            assert(forall|q: int| 0 <= q < s.len() - 1 ==> s.drop_last()[q] == s[q]);
        }
        assert(s[s.len() - 1].wf());
        lemma_fold_dates_valid(s.drop_last());
    }
}

/// The folded action list holds exactly the actions of the records, each
/// once.
pub proof fn lemma_fold_actions_ok(s: Seq<ActivityView>)
    ensures
        forall|q: int| 0 <= q < s.len() ==> fold_actions(s).contains(#[trigger] s[q].action),
        forall|x: int, y: int|
            0 <= x < y < fold_actions(s).len() ==> fold_actions(s)[x] != fold_actions(s)[y],
    decreases s.len(),
{
    if s.len() > 0 {
        lemma_fold_actions_ok(s.drop_last());
        let p = fold_actions(s.drop_last());
        let r = fold_actions(s);
        assert forall|q: int| 0 <= q < s.len() implies r.contains(#[trigger] s[q].action) by {
            if q < s.len() - 1 {
                assert(s.drop_last()[q] == s[q]);
                assert(p.contains(s[q].action));
                let w = choose|w: int| 0 <= w < p.len() && p[w] == s[q].action;
                assert(r[w] == s[q].action);
            } else {
                if p.contains(s.last().action) {
                    let w = choose|w: int| 0 <= w < p.len() && p[w] == s.last().action;
                    assert(r[w] == s.last().action);
                } else {
                    assert(r[p.len() as int] == s.last().action);
                }
            }
        }
    }
}

/// Labels merged into a duplicate-free list stay duplicate-free and cover
/// both sources.
pub proof fn lemma_merge_labels_ok(acc: Seq<Seq<char>>, more: Seq<Seq<char>>)
    requires
        forall|x: int, y: int| 0 <= x < y < acc.len() ==> acc[x] != acc[y],
    ensures
        forall|x: int, y: int|
            0 <= x < y < merge_labels(acc, more).len() ==> merge_labels(acc, more)[x]
                != merge_labels(acc, more)[y],
        forall|p: Seq<char>|
            #![trigger merge_labels(acc, more).contains(p)]
            merge_labels(acc, more).contains(p) == (acc.contains(p) || more.contains(p)),
    decreases more.len(),
{
    if more.len() == 0 {
        assert(merge_labels(acc, more) == acc);
        assert forall|p: Seq<char>|
            merge_labels(acc, more).contains(p) == (acc.contains(p) || more.contains(p)) by {
            assert(!more.contains(p));
        }
    } else {
        let acc2 = if acc.contains(more[0]) {
            acc
        } else {
            acc.push(more[0])
        };
        let tail = more.subrange(1, more.len() as int);
        assert(forall|x: int, y: int| 0 <= x < y < acc2.len() ==> acc2[x] != acc2[y]) by {
            if !acc.contains(more[0]) {
                assert forall|x: int, y: int|
                    0 <= x < y < acc2.len() implies acc2[x] != acc2[y] by {
                    if y == acc.len() {
                        assert(acc2[x] == acc[x]);
                        assert(acc.contains(acc[x]));
                    }
                }
            }
        }
        lemma_merge_labels_ok(acc2, tail);
        assert(merge_labels(acc, more) == merge_labels(acc2, tail));
        assert forall|p: Seq<char>|
            merge_labels(acc, more).contains(p) == (acc.contains(p) || more.contains(p)) by {
            assert(merge_labels(acc, more) == merge_labels(acc2, tail));
            assert(acc2.contains(p) == (acc.contains(p) || p == more[0])) by {
                if acc.contains(p) {
                    let w = choose|w: int| 0 <= w < acc.len() && acc[w] == p;
                    assert(acc2[w] == p);
                }
                if acc2.contains(p) {
                    let w = choose|w: int| 0 <= w < acc2.len() && acc2[w] == p;
                    if w < acc.len() {
                        assert(acc[w] == p);
                    }
                }
                if p == more[0] && !acc.contains(p) {
                    assert(acc2[acc.len() as int] == p);
                }
            }
            assert(more.contains(p) == (p == more[0] || tail.contains(p))) by {
                if more.contains(p) {
                    let w = choose|w: int| 0 <= w < more.len() && more[w] == p;
                    if w > 0 {
                        assert(tail[w - 1] == p);
                    }
                }
                if tail.contains(p) {
                    let w = choose|w: int| 0 <= w < tail.len() && tail[w] == p;
                    assert(more[w + 1] == p);
                }
            }
        }
    }
}

/// The folded project list holds exactly the labels of the records, each
/// once.
pub proof fn lemma_fold_projects_ok(s: Seq<ActivityView>)
    ensures
        forall|q: int, t: int|
            0 <= q < s.len() && 0 <= t < s[q].projects.len() ==> fold_projects(s).contains(
                #[trigger] s[q].projects[t],
            ),
        forall|x: int, y: int|
            0 <= x < y < fold_projects(s).len() ==> fold_projects(s)[x] != fold_projects(s)[y],
    decreases s.len(),
{
    if s.len() > 0 {
        lemma_fold_projects_ok(s.drop_last());
        lemma_merge_labels_ok(fold_projects(s.drop_last()), s.last().projects);
        assert forall|q: int, t: int|
            0 <= q < s.len() && 0 <= t < s[q].projects.len() implies fold_projects(s).contains(
            #[trigger] s[q].projects[t],
        ) by {
            if q < s.len() - 1 {
                assert(s.drop_last()[q] == s[q]);
                assert(fold_projects(s.drop_last()).contains(s[q].projects[t]));
            } else {
                assert(s.last().projects.contains(s[q].projects[t]));
            }
        }
    }
}

/// The filtered records are a subset: no longer, all well-formed, and all
/// matching the filter.
pub proof fn lemma_filtered_ok(
    s: Seq<ActivityView>,
    min: Date,
    max: Date,
    actions: Seq<Action>,
    projects: Seq<Seq<char>>,
    text: Option<Seq<char>>,
)
    ensures
        filtered_activities(s, min, max, actions, projects, text).len() <= s.len(),
        all_wf(s) ==> all_wf(filtered_activities(s, min, max, actions, projects, text)),
        forall|q: int|
            0 <= q < filtered_activities(s, min, max, actions, projects, text).len()
                ==> activity_matches(
                #[trigger] filtered_activities(s, min, max, actions, projects, text)[q],
                min,
                max,
                actions,
                projects,
                text,
            ),
    decreases s.len(),
{
    if s.len() > 0 {
        assert(all_wf(s) ==> all_wf(s.drop_last())) by {
            assert(forall|q: int| 0 <= q < s.len() - 1 ==> s.drop_last()[q] == s[q]);
        }
        lemma_filtered_ok(s.drop_last(), min, max, actions, projects, text);
        let p = filtered_activities(s.drop_last(), min, max, actions, projects, text);
        if activity_matches(s.last(), min, max, actions, projects, text) {
            assert(forall|q: int| 0 <= q < p.len() ==> p.push(s.last())[q] == p[q]);
            assert(p.push(s.last())[p.len() as int] == s.last());
            assert(all_wf(s) ==> s[s.len() - 1].wf());
        }
    }
}

impl From<Vec<Activity>> for Activities {
    /// Wraps a vector of activities.
    fn from(activities: Vec<Activity>) -> (r: Activities) {
        Activities(activities)
    }
}

impl vstd::std_specs::convert::FromSpecImpl<Vec<Activity>> for Activities {
    open spec fn obeys_from_spec() -> bool {
        true
    }

    open spec fn from_spec(v: Vec<Activity>) -> Activities {
        Activities(v)
    }
}

impl Clone for Activity {
    /// A clone has the same mathematical content.
    fn clone(&self) -> (r: Self)
        ensures
            r@ == self@,
    {
        let mut projects: Vec<String> = Vec::new();
        let mut i: usize = 0;
        while i < self.projects.len()
            invariant
                i <= self.projects@.len(),
                projects.deep_view() == self.projects.deep_view().subrange(0, i as int),
            decreases self.projects@.len() - i,
        {
            let ghost entry = projects.deep_view();
            let ghost pre = projects@;
            let item = self.projects[i].clone();
            proof {
                assert(pre.len() == entry.len());
                assert(entry.len() == i);
            }
            projects.push(item);
            proof {
                assert(projects@.len() == pre.len() + 1);
                let target = self.projects.deep_view().subrange(0, i + 1);
                assert(projects.deep_view().len() == i + 1);
                assert forall|j: int| 0 <= j < i + 1 implies projects.deep_view()[j] == target[j] by {
                    assert(target[j] == self.projects@[j].deep_view());
                    assert(projects.deep_view()[j] == projects@[j].deep_view());
                    if j < i {
                        assert(projects@[j] == pre[j]);
                        assert(pre[j].deep_view() == entry[j]);
                        assert(entry[j] == target[j]);
                    }
                }
                assert(projects.deep_view() =~= target);
            }
            i = i + 1;
        }
        let r = Activity {
            start_datetime: self.start_datetime,
            end_datetime: self.end_datetime,
            description: self.description.clone(),
            action: self.action,
            projects,
        };
        proof {
            assert(self.projects.deep_view().subrange(0, self.projects@.len() as int)
                =~= self.projects.deep_view());
        }
        r
    }
}

} // verus!
