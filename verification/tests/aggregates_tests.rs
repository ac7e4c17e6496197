use timespent::activity::Action;
use timespent::activity::Activities;
use timespent::activity::Activity;
use timespent::aggregates::Aggregatable;
use timespent::aggregates::Aggregates;
use timespent::aggregates::AllAggregate;
use timespent::aggregates::DailyAggregate;
use timespent::date::Date;
use timespent::date::DateTime;

fn dt(year: i32, month: u8, day: u8, hour: u8, minute: u8) -> DateTime {
    DateTime { date: Date { year, month, day }, hour, minute }
}

fn day(year: i32, month: u8, day: u8) -> Date {
    Date { year, month, day }
}

#[test]
fn test_new_aggregate() {
    let activities = Activities(vec![
        Activity {
            start_datetime: dt(2022, 7, 22, 12, 0),
            end_datetime: dt(2022, 7, 22, 13, 0),
            description: "description".to_string(),
            action: Action::Code,
            projects: vec!["tag2".to_string(), "tag3".to_string()],
        },
        Activity {
            start_datetime: dt(2022, 7, 25, 12, 0),
            end_datetime: dt(2022, 7, 25, 13, 1),
            description: "description".to_string(),
            action: Action::Review,
            projects: vec!["tag2".to_string(), "tag3".to_string()],
        },
    ]);

    let expected = Aggregates {
        daily: vec![
            DailyAggregate {
                day: day(2022, 7, 22),
                total_minutes: 60,
                project_minutes: vec![("tag2".to_string(), 60), ("tag3".to_string(), 60)],
                action_minutes: vec![(Action::Code, 60)],
            },
            DailyAggregate {
                day: day(2022, 7, 25),
                total_minutes: 61,
                project_minutes: vec![("tag2".to_string(), 61), ("tag3".to_string(), 61)],
                action_minutes: vec![(Action::Review, 61)],
            },
        ],
        all: AllAggregate {
            total_minutes: 121,
            project_minutes: vec![("tag2".to_string(), 121), ("tag3".to_string(), 121)],
            action_minutes: vec![(Action::Code, 60), (Action::Review, 61)],
        },
    };

    let expected_over_days = Aggregates {
        daily: vec![
            DailyAggregate {
                day: day(2022, 7, 22),
                total_minutes: 60,
                project_minutes: vec![("tag2".to_string(), 60), ("tag3".to_string(), 60)],
                action_minutes: vec![(Action::Code, 60)],
            },
            DailyAggregate {
                day: day(2022, 7, 23),
                total_minutes: 0,
                project_minutes: vec![],
                action_minutes: vec![],
            },
            DailyAggregate {
                day: day(2022, 7, 24),
                total_minutes: 0,
                project_minutes: vec![],
                action_minutes: vec![],
            },
            DailyAggregate {
                day: day(2022, 7, 25),
                total_minutes: 61,
                project_minutes: vec![("tag2".to_string(), 61), ("tag3".to_string(), 61)],
                action_minutes: vec![(Action::Review, 61)],
            },
        ],
        all: AllAggregate {
            total_minutes: 121,
            project_minutes: vec![("tag2".to_string(), 121), ("tag3".to_string(), 121)],
            action_minutes: vec![(Action::Code, 60), (Action::Review, 61)],
        },
    };

    let agg = activities.aggregate();
    assert_eq!(agg, expected);

    let agg_s = agg.over_specific_days(&day(2022, 7, 22), &day(2022, 7, 25));
    assert_eq!(agg_s, expected_over_days);
}

#[test]
fn test_over_specific_days_inverted_range() {
    let activities = Activities(vec![Activity {
        start_datetime: dt(2022, 7, 22, 12, 0),
        end_datetime: dt(2022, 7, 22, 13, 0),
        description: "description".to_string(),
        action: Action::Code,
        projects: vec!["tag1".to_string()],
    }]);
    let agg = activities.aggregate();
    let empty = agg.over_specific_days(&day(2022, 7, 25), &day(2022, 7, 22));
    assert_eq!(empty.daily.len(), 0);
    assert_eq!(empty.all.total_minutes, 0);
    assert_eq!(empty.all.project_minutes.len(), 0);
    assert_eq!(empty.all.action_minutes.len(), 0);
}

#[test]
fn test_aggregate_empty() {
    let activities = Activities(vec![]);
    let agg = activities.aggregate();
    assert_eq!(agg.daily.len(), 0);
    assert_eq!(agg.all.total_minutes, 0);
}

#[test]
fn test_aggregate_negative_duration() {
    let activities = Activities(vec![Activity {
        start_datetime: dt(2022, 7, 22, 13, 0),
        end_datetime: dt(2022, 7, 22, 12, 30),
        description: "backwards".to_string(),
        action: Action::Code,
        projects: vec![],
    }]);
    let agg = activities.aggregate();
    assert_eq!(agg.all.total_minutes, -30);
    assert_eq!(agg.daily.len(), 1);
    assert_eq!(agg.daily[0].total_minutes, -30);
}
