//! Minute-level aggregates: per calendar day and over the whole set, the
//! total minutes and the minutes per project label and per action.

use vstd::prelude::*;

use crate::activity::Action;
use crate::activity::Activities;
use crate::activity::Activity;
use crate::activity::ActivityView;
use crate::activity::MAX_ACTIVITIES;
use crate::activity::all_wf;
use crate::activity::duration_bound;
use crate::activity::lemma_duration_bound;
use crate::activity::total_minutes_of;
use crate::date::Date;
use crate::text::str_eq;

verus! {

/// Minutes of the records carrying project label `p`.
pub open spec fn project_minutes_of(s: Seq<ActivityView>, p: Seq<char>) -> int
    decreases s.len(),
{
    if s.len() == 0 {
        0
    } else {
        project_minutes_of(s.drop_last(), p) + if s.last().projects.contains(p) {
            s.last().duration_minutes()
        } else {
            0
        }
    }
}

/// Minutes of the records of action `a`.
pub open spec fn action_minutes_of(s: Seq<ActivityView>, a: Action) -> int
    decreases s.len(),
{
    if s.len() == 0 {
        0
    } else {
        action_minutes_of(s.drop_last(), a) + if s.last().action == a {
            s.last().duration_minutes()
        } else {
            0
        }
    }
}

/// The records starting on day `d`, in order.
pub open spec fn day_records(s: Seq<ActivityView>, d: Date) -> Seq<ActivityView>
    decreases s.len(),
{
    if s.len() == 0 {
        s
    } else {
        let p = day_records(s.drop_last(), d);
        if s.last().start_datetime.date == d {
            p.push(s.last())
        } else {
            p
        }
    }
}

/// Whether some record starts on day `d`.
pub open spec fn has_day(s: Seq<ActivityView>, d: Date) -> bool {
    exists|i: int| 0 <= i < s.len() && (#[trigger] s[i]).start_datetime.date == d
}

/// Whether some record carries project label `p`.
pub open spec fn has_label(s: Seq<ActivityView>, p: Seq<char>) -> bool {
    exists|i: int, t: int|
        0 <= i < s.len() && 0 <= t < s[i].projects.len() && #[trigger] s[i].projects[t] == p
}

/// Whether some record has action `a`.
pub open spec fn has_action(s: Seq<ActivityView>, a: Action) -> bool {
    exists|i: int| 0 <= i < s.len() && (#[trigger] s[i]).action == a
}

/// Whether the association list holds key `p`.
pub open spec fn assoc_has_label(v: Seq<(String, i64)>, p: Seq<char>) -> bool {
    exists|j: int| 0 <= j < v.len() && (#[trigger] v[j]).0@ == p
}

/// Whether the association list holds key `a`.
pub open spec fn assoc_has_action(v: Seq<(Action, i64)>, a: Action) -> bool {
    exists|j: int| 0 <= j < v.len() && (#[trigger] v[j]).0 == a
}

/// A correct per-project minute map for the records `s`: unique keys,
/// exactly the labels present in `s`, each bound to that label's minutes.
pub open spec fn project_entries_ok(v: Seq<(String, i64)>, s: Seq<ActivityView>) -> bool {
    &&& forall|x: int, y: int| 0 <= x < y < v.len() ==> v[x].0@ != v[y].0@
    &&& forall|j: int| 0 <= j < v.len() ==> (#[trigger] v[j]).1 as int == project_minutes_of(s, v[j].0@)
    &&& forall|j: int| 0 <= j < v.len() ==> has_label(s, (#[trigger] v[j]).0@)
    &&& forall|p: Seq<char>| has_label(s, p) ==> assoc_has_label(v, p)
}

/// A correct per-action minute map for the records `s`.
pub open spec fn action_entries_ok(v: Seq<(Action, i64)>, s: Seq<ActivityView>) -> bool {
    &&& forall|x: int, y: int| 0 <= x < y < v.len() ==> v[x].0 != v[y].0
    &&& forall|j: int| 0 <= j < v.len() ==> (#[trigger] v[j]).1 as int == action_minutes_of(s, v[j].0)
    &&& forall|j: int| 0 <= j < v.len() ==> has_action(s, (#[trigger] v[j]).0)
    &&& forall|a: Action| has_action(s, a) ==> assoc_has_action(v, a)
}

/// The minute aggregate of one calendar day.
#[derive(PartialEq, Eq, Debug)]
pub struct DailyAggregate {
    pub day: Date,
    pub total_minutes: i64,
    pub project_minutes: Vec<(String, i64)>,
    pub action_minutes: Vec<(Action, i64)>,
}

/// The minute aggregate of the whole record set.
#[derive(PartialEq, Eq, Debug)]
pub struct AllAggregate {
    pub total_minutes: i64,
    pub project_minutes: Vec<(String, i64)>,
    pub action_minutes: Vec<(Action, i64)>,
}

/// Minute aggregates: one entry per day with records, in ascending day
/// order, plus the overall aggregate.
#[derive(PartialEq, Eq, Debug)]
pub struct Aggregates {
    pub daily: Vec<DailyAggregate>,
    pub all: AllAggregate,
}

/// A correct daily entry for the records `s`.
pub open spec fn daily_entry_ok(e: DailyAggregate, s: Seq<ActivityView>) -> bool {
    &&& e.total_minutes as int == total_minutes_of(day_records(s, e.day))
    &&& project_entries_ok(e.project_minutes@, day_records(s, e.day))
    &&& action_entries_ok(e.action_minutes@, day_records(s, e.day))
}

/// A correct overall aggregate for the records `s`.
pub open spec fn all_aggregate_ok(e: AllAggregate, s: Seq<ActivityView>) -> bool {
    &&& e.total_minutes as int == total_minutes_of(s)
    &&& project_entries_ok(e.project_minutes@, s)
    &&& action_entries_ok(e.action_minutes@, s)
}

/// A correct daily list for the records `s`: one entry per day with
/// records, in ascending day order, each entry aggregating its day.
pub open spec fn daily_state_ok(v: Seq<DailyAggregate>, s: Seq<ActivityView>) -> bool {
    &&& forall|x: int, y: int|
        0 <= x < y < v.len() ==> v[x].day.day_index() < v[y].day.day_index()
    &&& forall|j: int| 0 <= j < v.len() ==> (#[trigger] v[j]).day.valid()
    &&& forall|j: int| 0 <= j < v.len() ==> has_day(s, (#[trigger] v[j]).day)
    &&& forall|d: Date| has_day(s, d) ==> exists|j: int|
        0 <= j < v.len() && (#[trigger] v[j]).day == d
    &&& forall|j: int| 0 <= j < v.len() ==> daily_entry_ok(#[trigger] v[j], s)
}

/// A correct aggregate of the records `s`: the overall sums, and one entry
/// per day with records, sorted ascending.
pub open spec fn aggregates_ok(r: Aggregates, s: Seq<ActivityView>) -> bool {
    &&& all_aggregate_ok(r.all, s)
    &&& daily_state_ok(r.daily@, s)
}

/// Anything whose records can be aggregated by the minute.
pub trait Aggregatable {
    /// The records to aggregate.
    spec fn records(&self) -> Seq<ActivityView>;

    /// Whether the records are ready: well-formed and not too many.
    spec fn records_ready(&self) -> bool;

    /// Computes the minute aggregates of the records.
    fn aggregate(&self) -> (r: Aggregates)
        requires
            self.records_ready(),
        ensures
            aggregates_ok(r, self.records()),
    ;
}

/// Appending one record extends each minute sum by its duration where the
/// record qualifies.
pub proof fn lemma_minutes_push(s: Seq<ActivityView>, x: ActivityView)
    ensures
        total_minutes_of(s.push(x)) == total_minutes_of(s) + x.duration_minutes(),
        forall|p: Seq<char>|
            #![trigger project_minutes_of(s.push(x), p)]
            project_minutes_of(s.push(x), p) == project_minutes_of(s, p) + if x.projects.contains(
                p,
            ) {
                x.duration_minutes()
            } else {
                0
            },
        forall|a: Action|
            #![trigger action_minutes_of(s.push(x), a)]
            action_minutes_of(s.push(x), a) == action_minutes_of(s, a) + if x.action == a {
                x.duration_minutes()
            } else {
                0
            },
        forall|d: Date|
            #![trigger day_records(s.push(x), d)]
            day_records(s.push(x), d) == if x.start_datetime.date == d {
                day_records(s, d).push(x)
            } else {
                day_records(s, d)
            },
{
    assert(s.push(x).drop_last() =~= s);
    assert(s.push(x).last() == x);
}

/// Minute sums are bounded by one duration per record.
pub proof fn lemma_minutes_bound(s: Seq<ActivityView>, p: Seq<char>, a: Action)
    requires
        all_wf(s),
    ensures
        -(s.len() * duration_bound()) <= total_minutes_of(s) <= s.len() * duration_bound(),
        -(s.len() * duration_bound()) <= project_minutes_of(s, p) <= s.len() * duration_bound(),
        -(s.len() * duration_bound()) <= action_minutes_of(s, a) <= s.len() * duration_bound(),
    decreases s.len(),
{
    if s.len() > 0 {
        assert(all_wf(s.drop_last())) by {
            assert(forall|q: int| 0 <= q < s.len() - 1 ==> s.drop_last()[q] == s[q]);
        }
        lemma_minutes_bound(s.drop_last(), p, a);
        lemma_duration_bound(s.last());
        assert((s.len() - 1) * duration_bound() + duration_bound() == s.len() * duration_bound())
            by (nonlinear_arith);
    }
}

/// The day-restricted records are well-formed and no more numerous.
pub proof fn lemma_day_records_wf(s: Seq<ActivityView>, d: Date)
    requires
        all_wf(s),
    ensures
        all_wf(day_records(s, d)),
        day_records(s, d).len() <= s.len(),
        forall|q: int|
            0 <= q < day_records(s, d).len() ==> (#[trigger] day_records(s, d)[q]).start_datetime.date
                == d,
    decreases s.len(),
{
    if s.len() > 0 {
        assert(all_wf(s.drop_last())) by {
            assert(forall|q: int| 0 <= q < s.len() - 1 ==> s.drop_last()[q] == s[q]);
        }
        lemma_day_records_wf(s.drop_last(), d);
        if s.last().start_datetime.date == d {
            let p = day_records(s.drop_last(), d);
            assert(forall|q: int| 0 <= q < p.len() ==> p.push(s.last())[q] == p[q]);
            assert(p.push(s.last())[p.len() as int] == s.last());
        }
    }
}

/// Appending a record extends the present labels, actions and days by
/// exactly the record's own.
pub proof fn lemma_presence_push(s: Seq<ActivityView>, x: ActivityView)
    ensures
        forall|p: Seq<char>|
            #![trigger has_label(s.push(x), p)]
            has_label(s.push(x), p) == (has_label(s, p) || x.projects.contains(p)),
        forall|a: Action|
            #![trigger has_action(s.push(x), a)]
            has_action(s.push(x), a) == (has_action(s, a) || x.action == a),
        forall|d: Date|
            #![trigger has_day(s.push(x), d)]
            has_day(s.push(x), d) == (has_day(s, d) || x.start_datetime.date == d),
{
    assert forall|p: Seq<char>|
        has_label(s.push(x), p) == (has_label(s, p) || x.projects.contains(p)) by {
        if has_label(s.push(x), p) {
            let (i, t) = choose|i: int, t: int|
                0 <= i < s.push(x).len() && 0 <= t < s.push(x)[i].projects.len() && #[trigger] s.push(
                    x,
                )[i].projects[t] == p;
            if i < s.len() {
                assert(s[i].projects[t] == p);
                assert(has_label(s, p));
            } else {
                assert(x.projects[t] == p);
            }
        }
        if has_label(s, p) {
            let (i, t) = choose|i: int, t: int|
                0 <= i < s.len() && 0 <= t < s[i].projects.len() && #[trigger] s[i].projects[t]
                    == p;
            assert(s.push(x)[i].projects[t] == p);
        }
        if x.projects.contains(p) {
            let t = choose|t: int| 0 <= t < x.projects.len() && x.projects[t] == p;
            assert(s.push(x)[s.len() as int].projects[t] == p);
        }
    }
    assert forall|a: Action| has_action(s.push(x), a) == (has_action(s, a) || x.action == a) by {
        if has_action(s.push(x), a) {
            let i = choose|i: int| 0 <= i < s.push(x).len() && (#[trigger] s.push(x)[i]).action == a;
            if i < s.len() {
                assert(s[i].action == a);
            }
        }
        if has_action(s, a) {
            let i = choose|i: int| 0 <= i < s.len() && (#[trigger] s[i]).action == a;
            assert(s.push(x)[i].action == a);
        }
        if x.action == a {
            assert(s.push(x)[s.len() as int].action == a);
        }
    }
    assert forall|d: Date|
        has_day(s.push(x), d) == (has_day(s, d) || x.start_datetime.date == d) by {
        if has_day(s.push(x), d) {
            let i = choose|i: int|
                0 <= i < s.push(x).len() && (#[trigger] s.push(x)[i]).start_datetime.date == d;
            if i < s.len() {
                assert(s[i].start_datetime.date == d);
            }
        }
        if has_day(s, d) {
            let i = choose|i: int| 0 <= i < s.len() && (#[trigger] s[i]).start_datetime.date == d;
            assert(s.push(x)[i].start_datetime.date == d);
        }
        if x.start_datetime.date == d {
            assert(s.push(x)[s.len() as int].start_datetime.date == d);
        }
    }
}

/// With no record starting on `d`, the day-restricted records are empty.
pub proof fn lemma_day_records_absent(s: Seq<ActivityView>, d: Date)
    requires
        !has_day(s, d),
    ensures
        day_records(s, d) == Seq::<ActivityView>::empty(),
    decreases s.len(),
{
    if s.len() == 0 {
        assert(s =~= Seq::<ActivityView>::empty());
    } else {
        assert(!has_day(s.drop_last(), d)) by {
            if has_day(s.drop_last(), d) {
                let i = choose|i: int|
                    0 <= i < s.drop_last().len() && (#[trigger] s.drop_last()[i]).start_datetime.date
                        == d;
                assert(s[i].start_datetime.date == d);
            }
        }
        assert(s.last().start_datetime.date != d) by {
            assert(s[s.len() - 1] == s.last());
        }
        lemma_day_records_absent(s.drop_last(), d);
    }
}

/// A label or action that no record carries accumulates no minutes.
pub proof fn lemma_absent_zero(s: Seq<ActivityView>, p: Seq<char>, a: Action)
    ensures
        !has_label(s, p) ==> project_minutes_of(s, p) == 0,
        !has_action(s, a) ==> action_minutes_of(s, a) == 0,
    decreases s.len(),
{
    if s.len() > 0 {
        if !has_label(s, p) {
            assert(!has_label(s.drop_last(), p)) by {
                if has_label(s.drop_last(), p) {
                    let (i, t) = choose|i: int, t: int|
                        0 <= i < s.drop_last().len() && 0 <= t < s.drop_last()[i].projects.len()
                            && #[trigger] s.drop_last()[i].projects[t] == p;
                    assert(s[i].projects[t] == p);
                }
            }
            assert(!s.last().projects.contains(p)) by {
                if s.last().projects.contains(p) {
                    let t = choose|t: int|
                        0 <= t < s.last().projects.len() && s.last().projects[t] == p;
                    assert(s[s.len() - 1].projects[t] == p);
                }
            }
        }
        if !has_action(s, a) {
            assert(!has_action(s.drop_last(), a)) by {
                if has_action(s.drop_last(), a) {
                    let i = choose|i: int|
                        0 <= i < s.drop_last().len() && (#[trigger] s.drop_last()[i]).action == a;
                    assert(s[i].action == a);
                }
            }
            assert(s.last().action != a) by {
                assert(s[s.len() - 1] == s.last());
            }
        }
        lemma_absent_zero(s.drop_last(), p, a);
    }
}

/// Adds `delta` to the entry with key `key`, appending a fresh entry when
/// the key is absent.
fn assoc_add_label(v: &mut Vec<(String, i64)>, key: &str, delta: i64)
    requires
        forall|x: int, y: int| 0 <= x < y < old(v)@.len() ==> old(v)@[x].0@ != old(v)@[y].0@,
        forall|j: int|
            0 <= j < old(v)@.len() && old(v)@[j].0@ == key@ ==> -0x4000_0000_0000_0000 < old(v)@[j].1 + delta < 0x4000_0000_0000_0000,
    ensures
        forall|x: int, y: int| 0 <= x < y < final(v)@.len() ==> final(v)@[x].0@ != final(v)@[y].0@,
        forall|p: Seq<char>|
            #![trigger assoc_has_label(final(v)@, p)]
            assoc_has_label(final(v)@, p) == (assoc_has_label(old(v)@, p) || p == key@),
        forall|j: int|
            0 <= j < old(v)@.len() ==> (#[trigger] final(v)@[j]).0@ == old(v)@[j].0@ && final(v)@[j].1 as int == old(v)@[j].1 + if old(v)@[j].0@ == key@ {
                delta as int
            } else {
                0
            },
        assoc_has_label(old(v)@, key@) ==> final(v)@.len() == old(v)@.len(),
        !assoc_has_label(old(v)@, key@) ==> final(v)@.len() == old(v)@.len() + 1 && final(v)@[old(v)@.len() as int].0@ == key@ && final(v)@[old(v)@.len() as int].1 == delta,
{
    let ghost orig = v@;
    let mut j: usize = 0;
    while j < v.len()
        invariant
            v@ == orig,
            old(v)@ == orig,
            j <= orig.len(),
            forall|q: int| 0 <= q < j ==> orig[q].0@ != key@,
            forall|x: int, y: int| 0 <= x < y < orig.len() ==> orig[x].0@ != orig[y].0@,
            forall|q: int|
                0 <= q < orig.len() && orig[q].0@ == key@ ==> -0x4000_0000_0000_0000 < orig[q].1
                    + delta < 0x4000_0000_0000_0000,
        decreases orig.len() - j,
    {
        if str_eq(v[j].0.as_str(), key) {
            proof {
                assert(orig[j as int].0@ == key@);
                assert(assoc_has_label(orig, key@));
            }
            let pair = v.remove(j);
            v.insert(j, (pair.0, pair.1 + delta));
            proof {
                assert(v@ =~= orig.update(j as int, (orig[j as int].0, (orig[j as int].1 + delta) as i64)));
                assert(v@[j as int].0 == orig[j as int].0);
                assert(v@[j as int].1 == orig[j as int].1 + delta);
                assert(forall|q: int| 0 <= q < orig.len() && q != j ==> v@[q] == orig[q]);
                assert forall|p: Seq<char>|
                    assoc_has_label(v@, p) == (assoc_has_label(orig, p) || p == key@) by {
                    if assoc_has_label(v@, p) {
                        let w = choose|w: int| 0 <= w < v@.len() && (#[trigger] v@[w]).0@ == p;
                        assert(orig[w].0@ == p);
                    }
                    if assoc_has_label(orig, p) {
                        let w = choose|w: int| 0 <= w < orig.len() && (#[trigger] orig[w]).0@ == p;
                        assert(v@[w].0@ == p);
                    }
                    if p == key@ {
                        assert(v@[j as int].0@ == p);
                    }
                }
            }
            return ;
        }
        j = j + 1;
    }
    proof {
        assert(!assoc_has_label(orig, key@)) by {
            if assoc_has_label(orig, key@) {
                let w = choose|w: int| 0 <= w < orig.len() && (#[trigger] orig[w]).0@ == key@;
                assert(false);
            }
        }
    }
    v.push((key.to_owned(), delta));
    proof {
        assert(forall|q: int| 0 <= q < orig.len() ==> v@[q] == orig[q]);
        assert(v@[orig.len() as int].0@ == key@);
        assert forall|p: Seq<char>|
            assoc_has_label(v@, p) == (assoc_has_label(orig, p) || p == key@) by {
            if assoc_has_label(v@, p) {
                let w = choose|w: int| 0 <= w < v@.len() && (#[trigger] v@[w]).0@ == p;
                if w < orig.len() {
                    assert(orig[w].0@ == p);
                }
            }
            if assoc_has_label(orig, p) {
                let w = choose|w: int| 0 <= w < orig.len() && (#[trigger] orig[w]).0@ == p;
                assert(v@[w].0@ == p);
            }
        }
    }
}

/// Adds `delta` to the entry with key `key`, appending a fresh entry when
/// the key is absent.
fn assoc_add_action(v: &mut Vec<(Action, i64)>, key: Action, delta: i64)
    requires
        forall|x: int, y: int| 0 <= x < y < old(v)@.len() ==> old(v)@[x].0 != old(v)@[y].0,
        forall|j: int|
            0 <= j < old(v)@.len() && old(v)@[j].0 == key ==> -0x4000_0000_0000_0000 < old(v)@[j].1 + delta < 0x4000_0000_0000_0000,
    ensures
        forall|x: int, y: int| 0 <= x < y < final(v)@.len() ==> final(v)@[x].0 != final(v)@[y].0,
        forall|a: Action|
            #![trigger assoc_has_action(final(v)@, a)]
            assoc_has_action(final(v)@, a) == (assoc_has_action(old(v)@, a) || a == key),
        forall|j: int|
            0 <= j < old(v)@.len() ==> (#[trigger] final(v)@[j]).0 == old(v)@[j].0 && final(v)@[j].1 as int == old(v)@[j].1 + if old(v)@[j].0 == key {
                delta as int
            } else {
                0
            },
        assoc_has_action(old(v)@, key) ==> final(v)@.len() == old(v)@.len(),
        !assoc_has_action(old(v)@, key) ==> final(v)@.len() == old(v)@.len() + 1 && final(v)@[old(v)@.len() as int].0 == key && final(v)@[old(v)@.len() as int].1 == delta,
{
    let ghost orig = v@;
    let mut j: usize = 0;
    while j < v.len()
        invariant
            v@ == orig,
            old(v)@ == orig,
            j <= orig.len(),
            forall|q: int| 0 <= q < j ==> orig[q].0 != key,
            forall|x: int, y: int| 0 <= x < y < orig.len() ==> orig[x].0 != orig[y].0,
            forall|q: int|
                0 <= q < orig.len() && orig[q].0 == key ==> -0x4000_0000_0000_0000 < orig[q].1
                    + delta < 0x4000_0000_0000_0000,
        decreases orig.len() - j,
    {
        if v[j].0 == key {
            proof {
                assert(assoc_has_action(orig, key));
            }
            let pair = v.remove(j);
            v.insert(j, (pair.0, pair.1 + delta));
            proof {
                assert(v@ =~= orig.update(j as int, (orig[j as int].0, (orig[j as int].1 + delta) as i64)));
                assert(v@[j as int].0 == orig[j as int].0);
                assert(forall|q: int| 0 <= q < orig.len() && q != j ==> v@[q] == orig[q]);
                assert forall|a: Action|
                    assoc_has_action(v@, a) == (assoc_has_action(orig, a) || a == key) by {
                    if assoc_has_action(v@, a) {
                        let w = choose|w: int| 0 <= w < v@.len() && (#[trigger] v@[w]).0 == a;
                        assert(orig[w].0 == a);
                    }
                    if assoc_has_action(orig, a) {
                        let w = choose|w: int| 0 <= w < orig.len() && (#[trigger] orig[w]).0 == a;
                        assert(v@[w].0 == a);
                    }
                    if a == key {
                        assert(v@[j as int].0 == a);
                    }
                }
            }
            return ;
        }
        j = j + 1;
    }
    proof {
        assert(!assoc_has_action(orig, key)) by {
            if assoc_has_action(orig, key) {
                let w = choose|w: int| 0 <= w < orig.len() && (#[trigger] orig[w]).0 == key;
                assert(false);
            }
        }
    }
    v.push((key, delta));
    proof {
        assert(forall|q: int| 0 <= q < orig.len() ==> v@[q] == orig[q]);
        assert forall|a: Action|
            assoc_has_action(v@, a) == (assoc_has_action(orig, a) || a == key) by {
            if assoc_has_action(v@, a) {
                let w = choose|w: int| 0 <= w < v@.len() && (#[trigger] v@[w]).0 == a;
                if w < orig.len() {
                    assert(orig[w].0 == a);
                }
            }
            if assoc_has_action(orig, a) {
                let w = choose|w: int| 0 <= w < orig.len() && (#[trigger] orig[w]).0 == a;
                assert(v@[w].0 == a);
            }
        }
    }
}

/// Folds one record into a total and its per-project and per-action maps.
#[verifier::rlimit(100)]
#[verifier::spinoff_prover]
fn add_record_to_maps(
    total: &mut i64,
    projects_map: &mut Vec<(String, i64)>,
    actions_map: &mut Vec<(Action, i64)>,
    a: &Activity,
    Ghost(base): Ghost<Seq<ActivityView>>,
)
    requires
        a.deep_view().wf(),
        all_wf(base),
        base.len() < 0x1000_0000,
        *old(total) as int == total_minutes_of(base),
        project_entries_ok(old(projects_map)@, base),
        action_entries_ok(old(actions_map)@, base),
    ensures
        *final(total) as int == total_minutes_of(base.push(a.deep_view())),
        project_entries_ok(final(projects_map)@, base.push(a.deep_view())),
        action_entries_ok(final(actions_map)@, base.push(a.deep_view())),
{
    let ghost x = a.deep_view();
    let dur = a.duration();
    proof {
        lemma_minutes_push(base, x);
        lemma_presence_push(base, x);
        lemma_duration_bound(x);
        lemma_minutes_bound(base, Seq::empty(), x.action);
        assert(base.len() * duration_bound() < 0x1000_0000 * 0x2_0000_0000) by (nonlinear_arith)
            requires
                base.len() < 0x1000_0000,
        ;
    }
    *total = *total + dur;
    proof {
        assert forall|j: int|
            0 <= j < actions_map@.len() && actions_map@[j].0 == x.action
                implies -0x4000_0000_0000_0000 < actions_map@[j].1 + dur
                < 0x4000_0000_0000_0000 by {
            lemma_minutes_bound(base, Seq::empty(), x.action);
        }
    }
    proof {
        lemma_absent_zero(base, Seq::empty(), x.action);
    }
    assoc_add_action(actions_map, a.action, dur);
    let ghost base1 = base.push(x);
    let mut k: usize = 0;
    while k < a.projects.len()
        invariant
            x == a.deep_view(),
            x.wf(),
            all_wf(base),
            base.len() < 0x1000_0000,
            base1 == base.push(x),
            dur == x.duration_minutes(),
            k <= a.projects@.len(),
            x.projects.len() == a.projects@.len(),
            forall|q: int, w: int|
                0 <= q < w < projects_map@.len() ==> projects_map@[q].0@ != projects_map@[w].0@,
            forall|j: int|
                0 <= j < projects_map@.len() ==> (#[trigger] projects_map@[j]).1 as int
                    == project_minutes_of(base, projects_map@[j].0@) + if x.projects.subrange(
                    0,
                    k as int,
                ).contains(projects_map@[j].0@) {
                    x.duration_minutes()
                } else {
                    0
                },
            forall|p: Seq<char>|
                #![trigger assoc_has_label(projects_map@, p)]
                assoc_has_label(projects_map@, p) == (has_label(base, p) || x.projects.subrange(
                    0,
                    k as int,
                ).contains(p)),
        decreases a.projects@.len() - k,
    {
        let ghost sub0 = x.projects.subrange(0, k as int);
        let ghost sub1 = x.projects.subrange(0, k + 1);
        proof {
            assert(x.projects[k as int] == a.projects@[k as int]@);
            assert(!sub0.contains(x.projects[k as int])) by {
                if sub0.contains(x.projects[k as int]) {
                    let w = choose|w: int| 0 <= w < k && sub0[w] == x.projects[k as int];
                    assert(x.projects[w] == x.projects[k as int]);
                    assert(false);
                }
            }
            lemma_minutes_bound(base, x.projects[k as int], x.action);
            lemma_absent_zero(base, x.projects[k as int], x.action);
            assert(base.len() * duration_bound() < 0x1000_0000 * 0x2_0000_0000)
                by (nonlinear_arith)
                requires
                    base.len() < 0x1000_0000,
            ;
        }
        assoc_add_label(projects_map, a.projects[k].as_str(), dur);
        proof {
            assert forall|q: int|
                0 <= q < x.projects.len() + 0 implies (sub1.contains(#[trigger] x.projects[q])
                == (sub0.contains(x.projects[q]) || x.projects[q] == x.projects[k as int])) by {
                lemma_subrange_split(x.projects, k as int, q);
            }
            assert forall|p: Seq<char>|
                sub1.contains(p) == (sub0.contains(p) || p == x.projects[k as int]) by {
                if sub1.contains(p) {
                    let w = choose|w: int| 0 <= w < k + 1 && sub1[w] == p;
                    if w < k {
                        assert(sub0[w] == p);
                    } else {
                        assert(p == x.projects[k as int]);
                    }
                }
                if sub0.contains(p) {
                    let w = choose|w: int| 0 <= w < k && sub0[w] == p;
                    assert(sub1[w] == p);
                }
                if p == x.projects[k as int] {
                    assert(sub1[k as int] == p);
                }
            }
        }
        k = k + 1;
    }
    proof {
        assert(x.projects.subrange(0, x.projects.len() as int) =~= x.projects);
        assert forall|j: int|
            0 <= j < projects_map@.len() implies has_label(
            base1,
            (#[trigger] projects_map@[j]).0@,
        ) by {
            assert(assoc_has_label(projects_map@, projects_map@[j].0@));
        }
        assert forall|p: Seq<char>|
            has_label(base1, p) implies assoc_has_label(projects_map@, p) by {
            assert(has_label(base.push(x), p) == (has_label(base, p) || x.projects.contains(p)));
        }
    }
}

/// The position where day `d` belongs in a day-sorted daily list: all
/// earlier entries are earlier days.
fn find_day_pos(daily: &Vec<DailyAggregate>, d: &Date) -> (r: usize)
    requires
        d.valid(),
        forall|x: int, y: int|
            0 <= x < y < daily@.len() ==> daily@[x].day.day_index() < daily@[y].day.day_index(),
        forall|j: int| 0 <= j < daily@.len() ==> (#[trigger] daily@[j]).day.valid(),
    ensures
        r <= daily@.len(),
        forall|q: int| 0 <= q < r ==> daily@[q].day.day_index() < d.day_index(),
        r < daily@.len() ==> daily@[r as int].day.day_index() >= d.day_index(),
{
    let mut pos: usize = 0;
    while pos < daily.len()
        invariant
            pos <= daily@.len(),
            d.valid(),
            forall|j: int| 0 <= j < daily@.len() ==> (#[trigger] daily@[j]).day.valid(),
            forall|q: int| 0 <= q < pos ==> daily@[q].day.day_index() < d.day_index(),
        decreases daily@.len() - pos,
    {
        if d.le(&daily[pos].day) {
            return pos;
        }
        pos = pos + 1;
    }
    pos
}

/// Folds one record into the daily list: the entry of the record's start
/// day is updated, created in day order when absent.
#[verifier::rlimit(100)]
#[verifier::spinoff_prover]
fn record_into_daily(
    daily: &mut Vec<DailyAggregate>,
    a: &Activity,
    Ghost(prefix): Ghost<Seq<ActivityView>>,
)
    requires
        a.deep_view().wf(),
        all_wf(prefix),
        prefix.len() < 0x1000_0000,
        daily_state_ok(old(daily)@, prefix),
    ensures
        daily_state_ok(final(daily)@, prefix.push(a.deep_view())),
{
    let ghost x = a.deep_view();
    proof {
        lemma_minutes_push(prefix, x);
        lemma_presence_push(prefix, x);
        lemma_day_records_wf(prefix, x.start_datetime.date);
    }
    let d = a.start_datetime.date;
    let pos = find_day_pos(&daily, &d);
    let ghost orig_daily = daily@;
    if pos < daily.len() && daily[pos].day == d {
        let e = daily.remove(pos);
        let DailyAggregate {
            day: eday,
            total_minutes: mut etotal,
            project_minutes: mut eproj,
            action_minutes: mut eact,
        } = e;
        proof {
            lemma_day_records_wf(prefix, d);
        }
        add_record_to_maps(
            &mut etotal,
            &mut eproj,
            &mut eact,
            a,
            Ghost(day_records(prefix, d)),
        );
        let e2 = DailyAggregate {
            day: eday,
            total_minutes: etotal,
            project_minutes: eproj,
            action_minutes: eact,
        };
        daily.insert(pos, e2);
        proof {
            assert(daily@ =~= orig_daily.update(pos as int, e2));
            assert(day_records(prefix.push(x), d) == day_records(prefix, d).push(x));
            assert forall|j: int|
                0 <= j < daily@.len() implies daily_entry_ok(
                #[trigger] daily@[j],
                prefix.push(x),
            ) by {
                if j != pos {
                    assert(daily@[j] == orig_daily[j]);
                    assert(orig_daily[j].day.day_index() != d.day_index());
                    assert(day_records(prefix.push(x), orig_daily[j].day) == day_records(
                        prefix,
                        orig_daily[j].day,
                    ));
                }
            }
            assert forall|dd: Date|
                has_day(prefix.push(x), dd) implies exists|j: int|
                0 <= j < daily@.len() && (#[trigger] daily@[j]).day == dd by {
                if has_day(prefix, dd) {
                    let j = choose|j: int|
                        0 <= j < orig_daily.len() && (#[trigger] orig_daily[j]).day == dd;
                    assert(daily@[j].day == dd);
                } else {
                    assert(dd == d);
                    assert(daily@[pos as int].day == dd);
                }
            }
        }
    } else {
        proof {
            assert(!has_day(prefix, d)) by {
                if has_day(prefix, d) {
                    let j = choose|j: int|
                        0 <= j < orig_daily.len() && (#[trigger] orig_daily[j]).day == d;
                    if j < pos {
                        assert(orig_daily[j].day.day_index() < d.day_index());
                    } else {
                        crate::date::lemma_index_order(orig_daily[j].day, d);
                        if j == pos {
                            assert(false);
                        } else {
                            assert(orig_daily[pos as int].day.day_index()
                                < orig_daily[j].day.day_index());
                            crate::date::lemma_index_order(orig_daily[pos as int].day, d);
                        }
                    }
                }
            }
            lemma_day_records_absent(prefix, d);
        }
        let mut etotal: i64 = 0;
        let mut eproj: Vec<(String, i64)> = Vec::new();
        let mut eact: Vec<(Action, i64)> = Vec::new();
        add_record_to_maps(
            &mut etotal,
            &mut eproj,
            &mut eact,
            a,
            Ghost(Seq::<ActivityView>::empty()),
        );
        let e2 = DailyAggregate {
            day: d,
            total_minutes: etotal,
            project_minutes: eproj,
            action_minutes: eact,
        };
        daily.insert(pos, e2);
        proof {
            assert(daily@ =~= orig_daily.insert(pos as int, e2));
            assert(day_records(prefix.push(x), d) == day_records(prefix, d).push(x));
            assert(Seq::<ActivityView>::empty().push(x) =~= day_records(prefix.push(x), d));
            assert forall|j: int|
                0 <= j < daily@.len() implies daily_entry_ok(
                #[trigger] daily@[j],
                prefix.push(x),
            ) by {
                if j < pos {
                    assert(daily@[j] == orig_daily[j]);
                    assert(orig_daily[j].day.day_index() != d.day_index());
                    assert(day_records(prefix.push(x), orig_daily[j].day) == day_records(
                        prefix,
                        orig_daily[j].day,
                    ));
                } else if j > pos {
                    assert(daily@[j] == orig_daily[j - 1]);
                    assert(orig_daily[j - 1].day.day_index() >= d.day_index());
                    crate::date::lemma_index_order(orig_daily[j - 1].day, d);
                    assert(orig_daily[j - 1].day.day_index() != d.day_index());
                    assert(day_records(prefix.push(x), orig_daily[j - 1].day)
                        == day_records(prefix, orig_daily[j - 1].day));
                }
            }
            assert forall|x1: int, y1: int|
                0 <= x1 < y1 < daily@.len() implies daily@[x1].day.day_index()
                < daily@[y1].day.day_index() by {
                if pos < daily@.len() - 1 && orig_daily.len() > pos {
                    crate::date::lemma_index_order(orig_daily[pos as int].day, d);
                }
            }
            assert forall|dd: Date|
                has_day(prefix.push(x), dd) implies exists|j: int|
                0 <= j < daily@.len() && (#[trigger] daily@[j]).day == dd by {
                if has_day(prefix, dd) {
                    let j = choose|j: int|
                        0 <= j < orig_daily.len() && (#[trigger] orig_daily[j]).day == dd;
                    if j < pos {
                        assert(daily@[j].day == dd);
                    } else {
                        assert(daily@[j + 1].day == dd);
                    }
                } else {
                    assert(dd == d);
                    assert(daily@[pos as int].day == dd);
                }
            }
        }
    }
}

impl Aggregatable for Activities {
    open spec fn records(&self) -> Seq<ActivityView> {
        self@
    }

    open spec fn records_ready(&self) -> bool {
        self.wf() && self@.len() <= MAX_ACTIVITIES
    }

    /// One left-to-right pass: each record's minutes go to the overall
    /// aggregate and to its start day's entry, kept in ascending day order.
    fn aggregate(&self) -> (r: Aggregates) {
        let mut daily: Vec<DailyAggregate> = Vec::new();
        let mut all_total: i64 = 0;
        let mut all_projects: Vec<(String, i64)> = Vec::new();
        let mut all_actions: Vec<(Action, i64)> = Vec::new();
        proof {
            assert(self@.subrange(0, 0) =~= Seq::<ActivityView>::empty());
        }
        let mut t: usize = 0;
        while t < self.0.len()
            invariant
                self.wf(),
                self@.len() <= 0x1000_0000,
                self@.len() == self.0@.len(),
                t <= self@.len(),
                all_total as int == total_minutes_of(self@.subrange(0, t as int)),
                project_entries_ok(all_projects@, self@.subrange(0, t as int)),
                action_entries_ok(all_actions@, self@.subrange(0, t as int)),
                daily_state_ok(daily@, self@.subrange(0, t as int)),
            decreases self@.len() - t,
        {
            let a = &self.0[t];
            let ghost prefix = self@.subrange(0, t as int);
            let ghost x = a.deep_view();
            proof {
                assert(self@[t as int] == self.0@[t as int].deep_view());
                assert(self@[t as int].wf());
                assert(all_wf(prefix)) by {
                    assert(forall|q: int| 0 <= q < t ==> prefix[q] == self@[q]);
                }
                assert(prefix.push(x) =~= self@.subrange(0, t + 1));
            }
            add_record_to_maps(&mut all_total, &mut all_projects, &mut all_actions, a, Ghost(prefix));
            record_into_daily(&mut daily, a, Ghost(prefix));
            t = t + 1;
        }
        proof {
            assert(self@.subrange(0, self@.len() as int) =~= self@);
        }
        Aggregates {
            daily,
            all: AllAggregate {
                total_minutes: all_total,
                project_minutes: all_projects,
                action_minutes: all_actions,
            },
        }
    }
}

/// Whether the daily list holds an entry for day `d`.
pub open spec fn daily_has_day(v: Seq<DailyAggregate>, d: Date) -> bool {
    exists|j: int| 0 <= j < v.len() && (#[trigger] v[j]).day == d
}

/// Whether two daily entries hold the same day and sums.
pub open spec fn daily_entry_eq(a: DailyAggregate, b: DailyAggregate) -> bool {
    &&& a.day == b.day
    &&& a.total_minutes == b.total_minutes
    &&& a.project_minutes@ == b.project_minutes@
    &&& a.action_minutes@ == b.action_minutes@
}

/// Copies a per-project minute map.
fn clone_label_entries(v: &Vec<(String, i64)>) -> (r: Vec<(String, i64)>)
    ensures
        r@ == v@,
{
    let mut out: Vec<(String, i64)> = Vec::new();
    let mut j: usize = 0;
    while j < v.len()
        invariant
            j <= v@.len(),
            out@ == v@.subrange(0, j as int),
        decreases v@.len() - j,
    {
        out.push((v[j].0.clone(), v[j].1));
        proof {
            assert(out@ =~= v@.subrange(0, j + 1));
        }
        j = j + 1;
    }
    proof {
        assert(v@.subrange(0, v@.len() as int) =~= v@);
    }
    out
}

/// Copies a per-action minute map.
fn clone_action_entries(v: &Vec<(Action, i64)>) -> (r: Vec<(Action, i64)>)
    ensures
        r@ == v@,
{
    let mut out: Vec<(Action, i64)> = Vec::new();
    let mut j: usize = 0;
    while j < v.len()
        invariant
            j <= v@.len(),
            out@ == v@.subrange(0, j as int),
        decreases v@.len() - j,
    {
        out.push(v[j]);
        proof {
            assert(out@ =~= v@.subrange(0, j + 1));
        }
        j = j + 1;
    }
    proof {
        assert(v@.subrange(0, v@.len() as int) =~= v@);
    }
    out
}

impl Clone for DailyAggregate {
    /// A clone holds the same day and sums.
    fn clone(&self) -> (r: Self)
        ensures
            daily_entry_eq(r, *self),
    {
        DailyAggregate {
            day: self.day,
            total_minutes: self.total_minutes,
            project_minutes: clone_label_entries(&self.project_minutes),
            action_minutes: clone_action_entries(&self.action_minutes),
        }
    }
}

impl Clone for AllAggregate {
    /// A clone holds the same sums.
    fn clone(&self) -> (r: Self)
        ensures
            r.total_minutes == self.total_minutes,
            r.project_minutes@ == self.project_minutes@,
            r.action_minutes@ == self.action_minutes@,
    {
        AllAggregate {
            total_minutes: self.total_minutes,
            project_minutes: clone_label_entries(&self.project_minutes),
            action_minutes: clone_action_entries(&self.action_minutes),
        }
    }
}

impl Aggregates {
    /// Re-expresses the daily aggregates over the inclusive day range
    /// `start_date..=end_date`: days without an entry get a zero entry,
    /// entries outside the range are dropped, and the overall aggregate is
    /// kept.  An inverted range yields an empty, zeroed result.
    pub fn over_specific_days(&self, start_date: &Date, end_date: &Date) -> (r: Aggregates)
        requires
            start_date.valid(),
            start_date.year <= 9999,
            end_date.valid(),
            end_date.year <= 9999,
            forall|x: int, y: int|
                0 <= x < y < self.daily@.len() ==> self.daily@[x].day.day_index()
                    < self.daily@[y].day.day_index(),
            forall|j: int| 0 <= j < self.daily@.len() ==> (#[trigger] self.daily@[j]).day.valid(),
        ensures
            start_date.day_index() > end_date.day_index() ==> r.daily@.len() == 0
                && r.all.total_minutes == 0 && r.all.project_minutes@.len() == 0
                && r.all.action_minutes@.len() == 0,
            start_date.day_index() <= end_date.day_index() ==> {
                &&& r.all.total_minutes == self.all.total_minutes
                &&& r.all.project_minutes@ == self.all.project_minutes@
                &&& r.all.action_minutes@ == self.all.action_minutes@
                &&& r.daily@.len() == end_date.day_index() - start_date.day_index() + 1
                &&& forall|j: int|
                    0 <= j < r.daily@.len() ==> (#[trigger] r.daily@[j]).day.valid()
                        && r.daily@[j].day.day_index() == start_date.day_index() + j
                &&& forall|j: int|
                    0 <= j < r.daily@.len() && daily_has_day(self.daily@, (#[trigger] r.daily@[j]).day)
                        ==> exists|j2: int|
                        0 <= j2 < self.daily@.len() && (#[trigger] self.daily@[j2]).day
                            == r.daily@[j].day && daily_entry_eq(r.daily@[j], self.daily@[j2])
                &&& forall|j: int|
                    0 <= j < r.daily@.len() && !daily_has_day(
                        self.daily@,
                        (#[trigger] r.daily@[j]).day,
                    ) ==> r.daily@[j].total_minutes == 0 && r.daily@[j].project_minutes@.len() == 0
                        && r.daily@[j].action_minutes@.len() == 0
            },
    {
        if !start_date.le(end_date) {
            return Aggregates {
                daily: Vec::new(),
                all: AllAggregate {
                    total_minutes: 0,
                    project_minutes: Vec::new(),
                    action_minutes: Vec::new(),
                },
            };
        }
        let mut out: Vec<DailyAggregate> = Vec::new();
        let n0 = start_date.day_number();
        let n1 = end_date.day_number();
        let mut cur = *start_date;
        let mut idx2: usize = 0;
        let mut processed: u64 = 0;
        while processed <= n1 - n0
            invariant
                start_date.valid(),
                end_date.valid(),
                end_date.year <= 9999,
                n0 as int == start_date.day_index(),
                n1 as int == end_date.day_index(),
                n0 <= n1,
                processed <= n1 - n0 + 1,
                cur.valid(),
                cur.day_index() == n0 + processed,
                idx2 <= self.daily@.len(),
                forall|x: int, y: int|
                    0 <= x < y < self.daily@.len() ==> self.daily@[x].day.day_index()
                        < self.daily@[y].day.day_index(),
                forall|j: int|
                    0 <= j < self.daily@.len() ==> (#[trigger] self.daily@[j]).day.valid(),
                forall|q: int| 0 <= q < idx2 ==> self.daily@[q].day.day_index() < cur.day_index(),
                out@.len() == processed,
                forall|j: int|
                    0 <= j < out@.len() ==> (#[trigger] out@[j]).day.valid()
                        && out@[j].day.day_index() == n0 + j,
                forall|j: int|
                    0 <= j < out@.len() && daily_has_day(self.daily@, (#[trigger] out@[j]).day)
                        ==> exists|j2: int|
                        0 <= j2 < self.daily@.len() && (#[trigger] self.daily@[j2]).day
                            == out@[j].day && daily_entry_eq(out@[j], self.daily@[j2]),
                forall|j: int|
                    0 <= j < out@.len() && !daily_has_day(self.daily@, (#[trigger] out@[j]).day)
                        ==> out@[j].total_minutes == 0 && out@[j].project_minutes@.len() == 0
                        && out@[j].action_minutes@.len() == 0,
            decreases n1 - n0 + 1 - processed,
        {
            while idx2 < self.daily.len() && !cur.le(&self.daily[idx2].day)
                invariant
                    cur.valid(),
                    idx2 <= self.daily@.len(),
                    forall|j: int|
                        0 <= j < self.daily@.len() ==> (#[trigger] self.daily@[j]).day.valid(),
                    forall|q: int|
                        0 <= q < idx2 ==> self.daily@[q].day.day_index() < cur.day_index(),
                decreases self.daily@.len() - idx2,
            {
                idx2 = idx2 + 1;
            }
            if idx2 < self.daily.len() && self.daily[idx2].day == cur {
                let entry = self.daily[idx2].clone();
                out.push(entry);
                proof {
                    assert(out@.last().day == cur);
                    assert(self.daily@[idx2 as int].day == cur);
                }
            } else {
                proof {
                    assert(!daily_has_day(self.daily@, cur)) by {
                        if daily_has_day(self.daily@, cur) {
                            let j = choose|j: int|
                                0 <= j < self.daily@.len() && (#[trigger] self.daily@[j]).day
                                    == cur;
                            if j < idx2 {
                                assert(self.daily@[j].day.day_index() < cur.day_index());
                            } else if j == idx2 {
                                assert(false);
                            } else {
                                assert(self.daily@[idx2 as int].day.day_index()
                                    < self.daily@[j].day.day_index());
                                crate::date::lemma_index_order(self.daily@[idx2 as int].day, cur);
                            }
                        }
                    }
                }
                out.push(
                    DailyAggregate {
                        day: cur,
                        total_minutes: 0,
                        project_minutes: Vec::new(),
                        action_minutes: Vec::new(),
                    },
                );
            }
            proof {
                crate::date::lemma_index_strictly_monotone(
                    *end_date,
                    Date { year: 10000, month: 1, day: 1 },
                );
            }
            cur = cur.next_day();
            processed = processed + 1;
        }
        Aggregates {
            daily: out,
            all: AllAggregate {
                total_minutes: self.all.total_minutes,
                project_minutes: clone_label_entries(&self.all.project_minutes),
                action_minutes: clone_action_entries(&self.all.action_minutes),
            },
        }
    }
}

/// Membership in a one-longer prefix is membership in the prefix or
/// equality with the added element.
proof fn lemma_subrange_split(ps: Seq<Seq<char>>, k: int, q: int)
    requires
        0 <= k < ps.len(),
        0 <= q < ps.len(),
    ensures
        ps.subrange(0, k + 1).contains(ps[q]) == (ps.subrange(0, k).contains(ps[q]) || ps[q]
            == ps[k]),
{
    let sub0 = ps.subrange(0, k);
    let sub1 = ps.subrange(0, k + 1);
    if sub1.contains(ps[q]) {
        let w = choose|w: int| 0 <= w < k + 1 && sub1[w] == ps[q];
        if w < k {
            assert(sub0[w] == ps[q]);
        }
    }
    if sub0.contains(ps[q]) {
        let w = choose|w: int| 0 <= w < k && sub0[w] == ps[q];
        assert(sub1[w] == ps[q]);
    }
    if ps[q] == ps[k] {
        assert(sub1[k] == ps[q]);
    }
}

} // verus!
