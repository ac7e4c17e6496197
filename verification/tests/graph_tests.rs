use timespent::activity::Action;
use timespent::activity::Activities;
use timespent::activity::Activity;
use timespent::date::Date;
use timespent::date::DateTime;
use timespent::graph::scale::Scale;
use timespent::graph::scale::naive_date_to_scale_x;
use timespent::graph::ui::Filter;
use timespent::graph::ui::Graph;
use timespent::graph::x_segments::ScaleXSegments;
use timespent::graph::x_segments::XSegment;
use timespent::graph::y_activities::YActivities;

fn dt(year: i32, month: u8, day: u8, hour: u8, minute: u8) -> DateTime {
    DateTime { date: Date { year, month, day }, hour, minute }
}

fn day(year: i32, month: u8, day: u8) -> Date {
    Date { year, month, day }
}

fn seg(scale: Scale, start: DateTime, end: DateTime) -> XSegment {
    XSegment { scale, start_datetime: start, end_datetime: end }
}

fn act(
    start: DateTime,
    end: DateTime,
    description: &str,
    action: Action,
    projects: &[&str],
) -> Activity {
    Activity {
        start_datetime: start,
        end_datetime: end,
        description: description.to_string(),
        action,
        projects: projects.iter().map(|p| p.to_string()).collect(),
    }
}

#[test]
fn test_xsegment_display() {
    let start = dt(2022, 3, 14, 12, 0);
    let end = dt(2022, 3, 15, 12, 0);

    assert_eq!(seg(Scale::Day, start, end).label(), "2022-03-14", "wrong format for scale day");
    assert_eq!(seg(Scale::Week, start, end).label(), "2022-w11", "wrong format for scale week");
    assert_eq!(seg(Scale::Month, start, end).label(), "2022-03", "wrong format for scale month");
    assert_eq!(seg(Scale::Year, start, end).label(), "2022", "wrong format for scale year");
    assert_eq!(seg(Scale::All, start, end).label(), "all", "wrong format for scale all");
}

#[test]
fn test_xscalesegments_new() {
    let sxs = ScaleXSegments::new(&day(2022, 12, 31), &day(2023, 1, 2));

    assert_eq!(Scale::iterator().len(), 5, "wrong number of scales");

    assert_eq!(
        sxs.values(Scale::Day),
        &vec![
            seg(Scale::Day, dt(2022, 12, 31, 0, 0), dt(2023, 1, 1, 0, 0)),
            seg(Scale::Day, dt(2023, 1, 1, 0, 0), dt(2023, 1, 2, 0, 0)),
            seg(Scale::Day, dt(2023, 1, 2, 0, 0), dt(2023, 1, 3, 0, 0)),
        ],
        "wrong x_segments for scale day"
    );

    assert_eq!(
        sxs.values(Scale::Week),
        &vec![
            seg(Scale::Week, dt(2022, 12, 26, 0, 0), dt(2023, 1, 2, 0, 0)),
            seg(Scale::Week, dt(2023, 1, 2, 0, 0), dt(2023, 1, 9, 0, 0)),
        ],
        "wrong x_segments for scale week"
    );

    assert_eq!(
        sxs.values(Scale::Month),
        &vec![
            seg(Scale::Month, dt(2022, 12, 1, 0, 0), dt(2023, 1, 1, 0, 0)),
            seg(Scale::Month, dt(2023, 1, 1, 0, 0), dt(2023, 2, 1, 0, 0)),
        ],
        "wrong x_segments for scale month"
    );

    assert_eq!(
        sxs.values(Scale::Year),
        &vec![
            seg(Scale::Year, dt(2022, 1, 1, 0, 0), dt(2023, 1, 1, 0, 0)),
            seg(Scale::Year, dt(2023, 1, 1, 0, 0), dt(2024, 1, 1, 0, 0)),
        ],
        "wrong x_segments for scale year"
    );

    assert_eq!(
        sxs.values(Scale::All),
        &vec![seg(Scale::All, dt(2022, 12, 31, 0, 0), dt(2023, 1, 3, 0, 0))],
        "wrong x_segments for scale all"
    );
}

#[test]
fn test_new_y_activities() {
    let activities = Activities(vec![
        act(dt(2022, 7, 20, 12, 0), dt(2022, 7, 20, 13, 0), "activity 1", Action::Code, &[
            "tag1",
            "tag2",
        ]),
        act(dt(2022, 7, 21, 12, 0), dt(2022, 7, 21, 13, 0), "activity 1", Action::Code, &[
            "tag1",
            "tag2",
        ]),
        act(dt(2022, 7, 22, 11, 0), dt(2022, 7, 22, 12, 0), "activity 1", Action::Code, &["tag3"]),
        act(dt(2022, 7, 22, 12, 0), dt(2022, 7, 22, 13, 0), "activity 1", Action::Code, &[
            "tag1",
            "tag2",
        ]),
        act(dt(2022, 7, 25, 12, 0), dt(2022, 7, 25, 13, 0), "activity 2", Action::Review, &[
            "tag2",
            "tag3",
        ]),
    ]);

    let agg_activities = activities.aggregate_all();
    let sxs = ScaleXSegments::new(&agg_activities.0, &agg_activities.1);
    let y_activities = YActivities::new(&activities, &agg_activities.2, &agg_activities.3, &sxs);

    assert_eq!(
        y_activities.scale_total_minutes.get(Scale::Day),
        &vec![60, 60, 120, 0, 0, 60],
        "day total minutes: {:?}",
        sxs.values(Scale::Day),
    );
    assert_eq!(
        y_activities.scale_total_minutes.get(Scale::Week),
        &vec![240, 60],
        "week total minutes"
    );
    assert_eq!(
        y_activities.scale_total_minutes.get(Scale::Month),
        &vec![300],
        "month total minutes"
    );
    assert_eq!(
        y_activities.scale_total_minutes.get(Scale::Year),
        &vec![300],
        "year total minutes"
    );
    assert_eq!(
        y_activities.scale_total_minutes.get(Scale::All),
        &vec![300],
        "all total minutes"
    );

    let code_row = y_activities.actions.iter().position(|a| *a == Action::Code).unwrap();
    let review_row = y_activities.actions.iter().position(|a| *a == Action::Review).unwrap();
    assert_eq!(
        y_activities.scale_actions_total_minutes.get(Scale::Day)[code_row],
        vec![60, 60, 120, 0, 0, 0]
    );
    assert_eq!(
        y_activities.scale_actions_total_minutes.get(Scale::Day)[review_row],
        vec![0, 0, 0, 0, 0, 60]
    );

    let tag1_row = y_activities.projects.iter().position(|p| p == "tag1").unwrap();
    let tag2_row = y_activities.projects.iter().position(|p| p == "tag2").unwrap();
    let tag3_row = y_activities.projects.iter().position(|p| p == "tag3").unwrap();
    assert_eq!(
        y_activities.scale_projects_total_minutes.get(Scale::Day)[tag1_row],
        vec![60, 60, 60, 0, 0, 0]
    );
    assert_eq!(
        y_activities.scale_projects_total_minutes.get(Scale::Day)[tag2_row],
        vec![60, 60, 60, 0, 0, 60]
    );
    assert_eq!(
        y_activities.scale_projects_total_minutes.get(Scale::Day)[tag3_row],
        vec![0, 0, 60, 0, 0, 60]
    );
}

#[test]
fn test_new_graph() {
    let activities = Activities(vec![
        act(dt(2022, 7, 22, 12, 0), dt(2022, 7, 22, 13, 0), "description", Action::Code, &[
            "tag2",
            "tag1",
        ]),
        act(dt(2022, 7, 25, 12, 0), dt(2022, 7, 25, 13, 0), "description", Action::Review, &[
            "tag2",
            "tag3",
        ]),
    ]);

    let graph = Graph::new(&activities);
    let act_agg = activities.aggregate_all();

    let filter = Filter {
        min_date: day(2022, 7, 22),
        max_date: day(2022, 7, 25),
        actions: vec![Action::Code, Action::Review],
        projects: vec!["tag2".to_string(), "tag1".to_string(), "tag3".to_string()],
        description: None,
    };

    let sxs = ScaleXSegments::new(&day(2022, 7, 22), &day(2022, 7, 25));
    let y_act = YActivities::new(&activities, &act_agg.2, &act_agg.3, &sxs);

    assert_eq!(graph.all_activities, activities, "all activities");
    assert_eq!(graph.filtered_activities_aggregate, act_agg, "activity agg");
    assert_eq!(graph.applied_filter, filter, "filter");
    assert_eq!(graph.filtered_per_scale_x_segments, sxs, "x segments");
    assert_eq!(graph.filtered_per_scale_y_activities, y_act, "y activities");
}

#[test]
fn test_graph_filter() {
    let activities = Activities(vec![
        act(dt(2022, 7, 22, 12, 0), dt(2022, 7, 22, 13, 0), "act 1", Action::Code, &[
            "tag1",
            "tag2",
        ]),
        act(dt(2022, 7, 25, 12, 0), dt(2022, 7, 25, 13, 0), "act", Action::Review, &[
            "tag2",
            "tag3",
        ]),
    ]);

    let mut graph = Graph::new(&activities);

    let filter = Filter {
        min_date: day(2022, 7, 22),
        max_date: day(2022, 7, 22),
        actions: vec![Action::Code, Action::Review],
        projects: vec!["tag2".to_string()],
        description: None,
    };
    graph.apply_filter(&filter);

    let sxs = ScaleXSegments::new(&day(2022, 7, 22), &day(2022, 7, 22));
    let filtered_activities = activities.filter(
        &day(2022, 7, 22),
        &day(2022, 7, 22),
        &vec![Action::Code],
        &vec!["tag2".to_string()],
        &None,
    );
    let act_agg = filtered_activities.aggregate_all();
    let y_act = YActivities::new(&filtered_activities, &act_agg.2, &act_agg.3, &sxs);

    assert_eq!(graph.all_activities, activities, "all activities");
    assert_eq!(graph.filtered_activities_aggregate, act_agg, "activity agg");
    assert_eq!(graph.applied_filter, filter, "filter");
    assert_eq!(graph.filtered_per_scale_x_segments, sxs, "x segments");
    assert_eq!(graph.filtered_per_scale_y_activities, y_act, "y activities");
}

#[test]
fn test_apply_same_filter_twice() {
    let activities = Activities(vec![
        act(dt(2022, 7, 22, 12, 0), dt(2022, 7, 22, 13, 0), "act 1", Action::Code, &[
            "tag1",
            "tag2",
        ]),
        act(dt(2022, 7, 25, 12, 0), dt(2022, 7, 25, 13, 0), "act", Action::Review, &[
            "tag2",
            "tag3",
        ]),
    ]);
    let filter = Filter {
        min_date: day(2022, 7, 22),
        max_date: day(2022, 7, 23),
        actions: vec![Action::Code],
        projects: vec!["tag2".to_string()],
        description: Some("act".to_string()),
    };
    let mut once = Graph::new(&activities);
    once.apply_filter(&filter);
    let mut twice = Graph::new(&activities);
    twice.apply_filter(&filter);
    twice.apply_filter(&filter);
    assert_eq!(once, twice);
}

#[test]
fn test_series_sum_matches_durations() {
    let activities = Activities(vec![
        act(dt(2015, 7, 22, 12, 0), dt(2015, 7, 22, 13, 0), "a", Action::Code, &["tag1", "tag2"]),
        act(dt(2022, 7, 25, 12, 0), dt(2022, 7, 25, 13, 0), "b", Action::Review, &[
            "tag2",
            "tag3",
        ]),
        act(dt(2022, 7, 26, 12, 0), dt(2022, 7, 26, 13, 0), "c", Action::Code, &["tag1", "tag2"]),
        act(dt(2030, 7, 27, 12, 0), dt(2030, 7, 27, 13, 0), "d", Action::Review, &[
            "tag2",
            "tag3",
        ]),
    ]);
    let agg = activities.aggregate_all();
    let sxs = ScaleXSegments::new(&agg.0, &agg.1);
    let y = YActivities::new(&activities, &agg.2, &agg.3, &sxs);

    let scales = Scale::iterator();
    for sc in &scales {
        let total: i64 = y.scale_total_minutes.get(*sc).iter().sum();
        assert_eq!(total, 240, "sum at one scale differs from the duration sum");
    }
}

#[test]
fn test_sparse_range_series() {
    let activities = Activities(vec![
        act(dt(2015, 7, 22, 12, 0), dt(2015, 7, 22, 13, 0), "a", Action::Code, &["tag1", "tag2"]),
        act(dt(2022, 7, 25, 12, 0), dt(2022, 7, 25, 13, 0), "b", Action::Review, &[
            "tag2",
            "tag3",
        ]),
        act(dt(2022, 7, 26, 12, 0), dt(2022, 7, 26, 13, 0), "c", Action::Code, &["tag1", "tag2"]),
        act(dt(2030, 7, 27, 12, 0), dt(2030, 7, 27, 13, 0), "d", Action::Review, &[
            "tag2",
            "tag3",
        ]),
    ]);
    let agg = activities.aggregate_all();
    let sxs = ScaleXSegments::new(&agg.0, &agg.1);
    let y = YActivities::new(&activities, &agg.2, &agg.3, &sxs);

    let days = y.scale_total_minutes.get(Scale::Day);
    let day_count = Date { year: 2030, month: 7, day: 27 }.day_number()
        - Date { year: 2015, month: 7, day: 22 }.day_number() + 1;
    assert_eq!(days.len() as u64, day_count);
    let nonzero: Vec<i64> = days.iter().copied().filter(|m| *m != 0).collect();
    assert_eq!(nonzero, vec![60, 60, 60, 60]);

    let years = y.scale_total_minutes.get(Scale::Year);
    assert_eq!(years.len(), 16);
    let nonzero_years: Vec<i64> = years.iter().copied().filter(|m| *m != 0).collect();
    assert_eq!(nonzero_years, vec![60, 120, 60]);
}

#[test]
fn test_segments_sorted_and_day_count() {
    let sxs = ScaleXSegments::new(&day(2022, 2, 20), &day(2022, 3, 10));
    let scales = Scale::iterator();
    for sc in &scales {
        let segs = sxs.values(*sc);
        assert!(segs.len() >= 1);
        for i in 0..segs.len() - 1 {
            assert_eq!(segs[i].end_datetime, segs[i + 1].start_datetime);
        }
    }
    assert_eq!(sxs.values(Scale::Day).len(), 19);
    assert_eq!(sxs.values(Scale::All).len(), 1);
}

#[test]
fn test_inverted_range_is_empty() {
    let sxs = ScaleXSegments::new(&day(2022, 3, 10), &day(2022, 2, 20));
    let scales = Scale::iterator();
    for sc in &scales {
        assert_eq!(sxs.values(*sc).len(), 0);
    }
}

#[test]
fn test_find_corresponding_segment() {
    let sxs = ScaleXSegments::new(&day(2022, 12, 31), &day(2023, 1, 2));
    assert_eq!(sxs.find_correponding_x_segment_idx(&Scale::Day, &dt(2023, 1, 1, 15, 30)), Some(1));
    assert_eq!(sxs.find_correponding_x_segment_idx(&Scale::Week, &dt(2023, 1, 2, 0, 0)), Some(1));
    assert_eq!(sxs.find_correponding_x_segment_idx(&Scale::Year, &dt(2022, 5, 5, 0, 0)), Some(0));
    assert_eq!(sxs.find_correponding_x_segment_idx(&Scale::Day, &dt(2024, 1, 1, 0, 0)), None);
    assert_eq!(sxs.find_correponding_x_segment_idx(&Scale::All, &dt(2024, 1, 1, 0, 0)), Some(0));
}

#[test]
fn test_filter_by_date() {
    let sxs = ScaleXSegments::new(&day(2022, 12, 31), &day(2023, 1, 2));
    let narrowed = sxs.filter_by_date(&day(2023, 1, 1), &day(2023, 1, 3));
    assert_eq!(
        narrowed.values(Scale::Day),
        &vec![
            seg(Scale::Day, dt(2023, 1, 1, 0, 0), dt(2023, 1, 2, 0, 0)),
            seg(Scale::Day, dt(2023, 1, 2, 0, 0), dt(2023, 1, 3, 0, 0)),
        ]
    );
    assert_eq!(narrowed.values(Scale::Year).len(), 0);

    // A one-day window keeps that day's own segment.
    let one_day = sxs.filter_by_date(&day(2023, 1, 1), &day(2023, 1, 1));
    assert_eq!(
        one_day.values(Scale::Day),
        &vec![seg(Scale::Day, dt(2023, 1, 1, 0, 0), dt(2023, 1, 2, 0, 0))]
    );

    // A window holding the whole covered range keeps everything.
    let whole = sxs.filter_by_date(&day(2022, 12, 26), &day(2023, 1, 8));
    assert_eq!(whole.values(Scale::Day).len(), 3);
    assert_eq!(whole.values(Scale::Week).len(), 2);
    assert_eq!(whole.values(Scale::All).len(), 1);
}

#[test]
fn test_naive_date_to_scale_x() {
    let d = day(2022, 3, 14);
    assert_eq!(naive_date_to_scale_x(&d, &Scale::Day), "2022-03-14");
    assert_eq!(naive_date_to_scale_x(&d, &Scale::Week), "2022-11");
    assert_eq!(naive_date_to_scale_x(&d, &Scale::Month), "2022-3");
    assert_eq!(naive_date_to_scale_x(&d, &Scale::Year), "2022");
    assert_eq!(naive_date_to_scale_x(&d, &Scale::All), "all");
}

#[test]
fn test_week_label_across_new_year() {
    let sxs = ScaleXSegments::new(&day(2022, 12, 31), &day(2023, 1, 2));
    let weeks = sxs.values(Scale::Week);
    assert_eq!(weeks[0].label(), "2022-w52");
    assert_eq!(weeks[1].label(), "2023-w01");
}
