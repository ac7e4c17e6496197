use std::str::FromStr;

use timespent::activity::Action;
use timespent::activity::Activities;
use timespent::activity::ActivitiesAggregate;
use timespent::activity::Activity;
use timespent::activity::Type;
use timespent::date::Date;
use timespent::date::DateTime;

fn dt(year: i32, month: u8, day: u8, hour: u8, minute: u8) -> DateTime {
    DateTime { date: Date { year, month, day }, hour, minute }
}

fn act(
    start: DateTime,
    end: DateTime,
    description: &str,
    action: Action,
    projects: &[&str],
) -> Activity {
    Activity {
        start_datetime: start,
        end_datetime: end,
        description: description.to_string(),
        action,
        projects: projects.iter().map(|p| p.to_string()).collect(),
    }
}

#[test]
fn test_action_from_str() {
    assert_eq!(Action::from_str("review").unwrap(), Action::Review);
    assert_eq!(Action::from_str("meeting").unwrap(), Action::Meeting);
    assert_eq!(Action::from_str("research").unwrap(), Action::Research);
    assert_eq!(Action::from_str("code").unwrap(), Action::Code);
    assert_eq!(Action::from_str("docs").unwrap(), Action::Docs);
    assert!(Action::from_str("other").is_err());
}

#[test]
fn test_type_from_str() {
    assert_eq!(Type::from_str("review").unwrap(), Type::Action(Action::Review));
    assert_eq!(Type::from_str("meeting").unwrap(), Type::Action(Action::Meeting));
    assert_eq!(Type::from_str("research").unwrap(), Type::Action(Action::Research));
    assert_eq!(Type::from_str("code").unwrap(), Type::Action(Action::Code));
    assert_eq!(Type::from_str("docs").unwrap(), Type::Action(Action::Docs));
    assert_eq!(Type::from_str("other").unwrap(), Type::Project("other".to_string()));
}

#[test]
fn test_activities_aggregate() {
    let activities = Activities(vec![
        act(
            dt(2022, 7, 22, 12, 0),
            dt(2022, 7, 22, 13, 0),
            "description",
            Action::Code,
            &["tag2", "tag3"],
        ),
        act(
            dt(2022, 7, 25, 12, 0),
            dt(2022, 7, 25, 13, 0),
            "description",
            Action::Review,
            &["tag2", "tag3"],
        ),
    ]);

    assert_eq!(
        activities.aggregate_all(),
        ActivitiesAggregate(
            Date { year: 2022, month: 7, day: 22 },
            Date { year: 2022, month: 7, day: 25 },
            vec![Action::Code, Action::Review],
            vec!["tag2".to_string(), "tag3".to_string()],
        )
    );
}

#[test]
fn test_activities_filter() {
    let activities = Activities(vec![
        act(
            dt(2022, 7, 22, 12, 0),
            dt(2022, 7, 22, 13, 0),
            "description",
            Action::Code,
            &["tag2", "tag1"],
        ),
        act(
            dt(2022, 7, 25, 12, 0),
            dt(2022, 7, 25, 13, 0),
            "description",
            Action::Review,
            &["tag2", "tag3"],
        ),
    ]);

    let expected = Activities(vec![act(
        dt(2022, 7, 25, 12, 0),
        dt(2022, 7, 25, 13, 0),
        "description",
        Action::Review,
        &["tag2", "tag3"],
    )]);

    assert_eq!(
        activities.filter(
            &Date { year: 2022, month: 7, day: 23 },
            &Date { year: 2022, month: 7, day: 30 },
            &vec![Action::Code, Action::Review],
            &vec!["tag2".to_string()],
            &None,
        ),
        expected
    );

    assert_eq!(
        activities.filter(
            &Date { year: 2022, month: 7, day: 23 },
            &Date { year: 2022, month: 7, day: 30 },
            &vec![Action::Code, Action::Review],
            &vec!["tag2".to_string(), "tag3".to_string()],
            &Some("desc".to_string()),
        ),
        expected
    );

    assert_eq!(
        activities.filter(
            &Date { year: 2022, month: 7, day: 23 },
            &Date { year: 2022, month: 7, day: 30 },
            &vec![Action::Code, Action::Review],
            &vec!["tag2".to_string(), "tag3".to_string()],
            &Some("proto".to_string()),
        ),
        Activities(vec![])
    );
}

#[test]
fn test_activity_display() {
    let a = act(
        dt(2022, 7, 22, 12, 0),
        dt(2022, 7, 22, 13, 0),
        "description",
        Action::Code,
        &["tag2"],
    );

    assert_eq!(a.label(), "12h00-13h00: [code][tag2] description");
}

#[test]
fn test_activities_to_text() {
    let activities = Activities(vec![
        act(dt(2022, 7, 22, 12, 0), dt(2022, 7, 22, 13, 0), "one", Action::Code, &["tag1"]),
        act(dt(2022, 7, 23, 9, 30), dt(2022, 7, 23, 10, 45), "two", Action::Docs, &[]),
    ]);
    assert_eq!(
        activities.to_text(),
        "12h00-13h00: [code][tag1] one\n09h30-10h45: [docs] two\n"
    );
}

#[test]
fn test_action_label() {
    assert_eq!(Action::Unknown.label(), "unknown");
    assert_eq!(Action::Docs.label(), "docs");
}
