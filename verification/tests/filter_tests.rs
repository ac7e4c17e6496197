use timespent::activity::Action;
use timespent::activity::Activities;
use timespent::activity::Activity;
use timespent::date::Date;
use timespent::date::DateTime;
use timespent::filter::Filter;
use timespent::filter::Filterable;

fn dt(year: i32, month: u8, day: u8, hour: u8, minute: u8) -> DateTime {
    DateTime { date: Date { year, month, day }, hour, minute }
}

#[test]
fn test_new_filter() {
    let activities = Activities(vec![
        Activity {
            start_datetime: dt(2022, 2, 5, 12, 0),
            end_datetime: dt(2022, 2, 5, 13, 0),
            description: "description".to_string(),
            action: Action::Code,
            projects: vec!["tag2".to_string(), "tag3".to_string()],
        },
        Activity {
            start_datetime: dt(2022, 2, 6, 12, 0),
            end_datetime: dt(2022, 2, 6, 13, 1),
            description: "description".to_string(),
            action: Action::Review,
            projects: vec!["tag2".to_string(), "tag3".to_string()],
        },
    ]);

    let expected_filter = Filter {
        min_date: Date { year: 2022, month: 2, day: 5 },
        max_date: Date { year: 2022, month: 2, day: 6 },
        free_text: "".to_string(),
        projects: vec!["tag2".to_string(), "tag3".to_string()],
        actions: vec![Action::Code, Action::Review],
    };

    assert_eq!(Filter::new(activities), expected_filter);
}

#[test]
fn test_new_filter_empty() {
    let filter = Filter::new(Activities(vec![]));
    assert_eq!(filter.min_date, Date { year: 9999, month: 1, day: 1 });
    assert_eq!(filter.max_date, Date { year: 0, month: 1, day: 1 });
    assert_eq!(filter.free_text, "");
    assert!(filter.projects.is_empty());
    assert!(filter.actions.is_empty());
}

#[test]
fn test_filterable_narrows() {
    let activities = Activities(vec![
        Activity {
            start_datetime: dt(2022, 2, 5, 12, 0),
            end_datetime: dt(2022, 2, 5, 13, 0),
            description: "writing notes".to_string(),
            action: Action::Code,
            projects: vec!["tag2".to_string()],
        },
        Activity {
            start_datetime: dt(2022, 2, 6, 12, 0),
            end_datetime: dt(2022, 2, 6, 13, 1),
            description: "reading notes".to_string(),
            action: Action::Review,
            projects: vec!["tag3".to_string()],
        },
    ]);

    let filter = Filter {
        min_date: Date { year: 2022, month: 2, day: 5 },
        max_date: Date { year: 2022, month: 2, day: 6 },
        free_text: "notes".to_string(),
        projects: vec!["tag2".to_string()],
        actions: vec![Action::Code, Action::Review],
    };

    let narrowed = Filterable::filter(&activities, &filter);
    assert_eq!(narrowed.0.len(), 1);
    assert_eq!(narrowed.0[0].description, "writing notes");

    let empty_text = Filter { free_text: "".to_string(), ..filter };
    let narrowed = Filterable::filter(&activities, &empty_text);
    assert_eq!(narrowed.0.len(), 1, "the empty text passes everything");
}
