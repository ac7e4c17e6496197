use timespent::activity::Action;
use timespent::activity::Activity;
use timespent::date::Date;
use timespent::date::DateTime;
use timespent::parser::ParseError;
use timespent::parser::parse_activity;
use timespent::parser::parse_date;
use timespent::parser::parse_tag;
use timespent::parser::parse_tags;
use timespent::parser::parse_time;

fn dt(year: i32, month: u8, day: u8, hour: u8, minute: u8) -> DateTime {
    DateTime { date: Date { year, month, day }, hour, minute }
}

#[test]
fn test_parse_time() {
    let date = Date { year: 2022, month: 7, day: 5 };

    let (rest, time) = parse_time(&date, "12h00", 0).unwrap();
    assert_eq!(rest, "12h00".len());
    assert_eq!(time, dt(2022, 7, 5, 12, 0));

    let (rest, time) = parse_time(&date, "12h00   ", 0).unwrap();
    assert_eq!(rest, "12h00   ".len());
    assert_eq!(time, dt(2022, 7, 5, 12, 0));

    let (rest, time) = parse_time(&date, "  12h00   ", 0).unwrap();
    assert_eq!(rest, "  12h00   ".len());
    assert_eq!(time, dt(2022, 7, 5, 12, 0));
}

#[test]
fn test_parse_time_rejects() {
    let date = Date { year: 2022, month: 7, day: 5 };
    assert_eq!(parse_time(&date, "25h00", 0), Err(ParseError::Time));
    assert_eq!(parse_time(&date, "12h61", 0), Err(ParseError::Time));
    assert_eq!(parse_time(&date, "12x00", 0), Err(ParseError::Time));
    assert_eq!(parse_time(&date, "12h0", 0), Err(ParseError::Time));
}

#[test]
fn test_parse_tag() {
    let (rest, tag) = parse_tag("[tag1]", 0).unwrap();
    assert_eq!(rest, "[tag1]".len());
    assert_eq!(tag, "tag1");

    let (rest, tag) = parse_tag("[tag-1]", 0).unwrap();
    assert_eq!(rest, "[tag-1]".len());
    assert_eq!(tag, "tag-1");

    let (rest, tag) = parse_tag("[  tag2   ]", 0).unwrap();
    assert_eq!(rest, "[  tag2   ]".len());
    assert_eq!(tag, "tag2");

    let (rest, tag) = parse_tag("  [  tag3   ]", 0).unwrap();
    assert_eq!(rest, "  [  tag3   ]".len());
    assert_eq!(tag, "tag3");

    let (rest, tag) = parse_tag("  [  tag4   ]  ", 0).unwrap();
    assert_eq!(rest, "  [  tag4   ]  ".len());
    assert_eq!(tag, "tag4");
}

#[test]
fn test_parse_tags() {
    let (rest, action, projects) = parse_tags("[tag1]", 0);
    assert_eq!(rest, "[tag1]".len());
    assert!(action.is_none());
    assert_eq!(projects, vec!["tag1".to_string()]);

    let (rest, action, projects) = parse_tags("[tag1][tag2][review]", 0);
    assert_eq!(rest, "[tag1][tag2][review]".len());
    assert_eq!(action, Some(Action::Review));
    assert_eq!(projects, vec!["tag1".to_string(), "tag2".to_string()]);

    let (rest, action, projects) = parse_tags("[tag1][tag2][review]   ", 0);
    assert_eq!(rest, "[tag1][tag2][review]   ".len());
    assert_eq!(action, Some(Action::Review));
    assert_eq!(projects, vec!["tag1".to_string(), "tag2".to_string()]);

    let (rest, action, projects) = parse_tags("[tag1][tag2][review]   [tag3]", 0);
    assert_eq!(rest, "[tag1][tag2][review]   [tag3]".len());
    assert_eq!(action, Some(Action::Review));
    assert_eq!(projects, vec!["tag1".to_string(), "tag2".to_string(), "tag3".to_string()]);
}

#[test]
fn test_parse_activity() {
    let date = Date { year: 2022, month: 7, day: 5 };

    let target_act = Activity {
        start_datetime: dt(2022, 7, 5, 12, 0),
        end_datetime: dt(2022, 7, 5, 13, 0),
        description: "description".to_string(),
        action: Action::Review,
        projects: vec!["tag2".to_string(), "tag3".to_string()],
    };
    let target_act_dash = Activity {
        start_datetime: dt(2022, 7, 5, 12, 0),
        end_datetime: dt(2022, 7, 5, 13, 0),
        description: "description".to_string(),
        action: Action::Code,
        projects: vec!["re-tash-yo".to_string(), "tag2".to_string(), "tag3".to_string()],
    };
    let target_act_spaces = Activity {
        start_datetime: dt(2022, 7, 5, 12, 0),
        end_datetime: dt(2022, 7, 5, 13, 0),
        description: "description of my tests".to_string(),
        action: Action::Review,
        projects: vec!["tag2".to_string(), "tag3".to_string()],
    };
    let target_emptydesc = Activity {
        start_datetime: dt(2022, 7, 5, 12, 0),
        end_datetime: dt(2022, 7, 5, 13, 0),
        description: "".to_string(),
        action: Action::Review,
        projects: vec!["tag2".to_string(), "tag3".to_string()],
    };

    let test_cases = vec![
        ("usual case", "12h00-13h00: [review][tag2][tag3] description", &target_act),
        ("space after time", "12h00-13h00 : [review][tag2][tag3] description", &target_act),
        ("two spaces after :", "12h00-13h00:  [review][tag2][tag3] description", &target_act),
        ("spaces between tags", "12h00-13h00: [review] [tag2]  [tag3] description", &target_act),
        (
            "spaces before description",
            "12h00-13h00: [review] [tag2]  [tag3]  description",
            &target_act,
        ),
        ("space in tag", "12h00-13h00: [review ][tag2][tag3] description", &target_act),
        (
            "dash in tag",
            "12h00-13h00: [re-tash-yo][tag2][tag3][code] description",
            &target_act_dash,
        ),
        (
            "spaces in desc",
            "12h00-13h00: [review][tag2][tag3] description of my tests ",
            &target_act_spaces,
        ),
        ("empty desc", "12h00-13h00: [review][tag2][tag3]", &target_emptydesc),
    ];

    for tc in test_cases {
        let a = parse_activity(&date, tc.1).unwrap();
        assert_eq!(&a, tc.2, "{} could not be parsed", tc.0);
    }
}

#[test]
fn test_parse_activity_errors() {
    let date = Date { year: 2022, month: 7, day: 5 };
    assert_eq!(
        parse_activity(&date, "12h0x-13h00: [tag1] d"),
        Err(ParseError::Time)
    );
    assert_eq!(
        parse_activity(&date, "12h00 13h00: [tag1] d"),
        Err(ParseError::Dash)
    );
    assert_eq!(
        parse_activity(&date, "12h00-13h00 [tag1] d"),
        Err(ParseError::Colon)
    );
    assert_eq!(
        parse_activity(&date, "12h00-13h00: [tag1"),
        Err(ParseError::Tag)
    );
}

#[test]
fn test_parse_date() {
    assert_eq!(
        parse_date("2022.07.05").unwrap(),
        Date { year: 2022, month: 7, day: 5 }
    );
    assert_eq!(
        parse_date("2020.02.29").unwrap(),
        Date { year: 2020, month: 2, day: 29 }
    );
    assert_eq!(parse_date("2021.02.29"), Err(ParseError::Date));
    assert_eq!(parse_date("2022.13.01"), Err(ParseError::Date));
    assert_eq!(parse_date("2022-07-05"), Err(ParseError::Date));
    assert_eq!(parse_date("2022.07.0"), Err(ParseError::Date));
}

#[test]
fn test_parse_activity_first_action_wins() {
    let date = Date { year: 2022, month: 7, day: 5 };
    let a = parse_activity(&date, "12h00-13h00: [docs][review] notes").unwrap();
    assert_eq!(a.action, Action::Docs);
    assert!(a.projects.is_empty());
}

#[test]
fn test_parse_activity_no_action_is_unknown() {
    let date = Date { year: 2022, month: 7, day: 5 };
    let a = parse_activity(&date, "12h00-13h00: [tag1] notes").unwrap();
    assert_eq!(a.action, Action::Unknown);
}
