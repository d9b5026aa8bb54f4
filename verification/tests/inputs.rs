//! Goal loading, the survey's goal-to-record mapping, and the two interactive
//! input parsers (minutes and date).

use accountability_rs::{parse_activity_goals, parse_date, parse_minutes, survey, Date};

const TWO_GOALS: &str = "{\"activity_goals\":[{\"name\":\"A\",\"description\":\"goal a\",\"minimum_minutes\":10,\"maximum_minutes\":60},{\"name\":\"B\",\"description\":\"goal b\",\"minimum_minutes\":null,\"maximum_minutes\":null}]}";

#[test]
fn goals_map_to_records_in_order() {
    let goals = parse_activity_goals(TWO_GOALS).unwrap();
    assert_eq!(goals.activity_goals.len(), 2);
    let records = survey(goals.activity_goals, vec![15, 5]);
    assert_eq!(records.len(), 2);
    assert_eq!(records[0].name, "A");
    assert_eq!(records[0].minutes_spent, 15);
    assert_eq!(records[0].minimum_minutes, Some(10));
    assert_eq!(records[0].maximum_minutes, Some(60));
    assert_eq!(records[1].name, "B");
    assert_eq!(records[1].minutes_spent, 5);
    assert_eq!(records[1].minimum_minutes, None);
    assert_eq!(records[1].maximum_minutes, None);
}

#[test]
fn goals_file_may_end_in_a_newline() {
    let text = format!("  {}\n", TWO_GOALS);
    let goals = parse_activity_goals(&text).unwrap();
    assert_eq!(goals.activity_goals.len(), 2);
    assert_eq!(goals.activity_goals[0].description, "goal a");
}

#[test]
fn empty_goals_list_parses() {
    let goals = parse_activity_goals("{\"activity_goals\":[]}").unwrap();
    assert_eq!(goals.activity_goals.len(), 0);
}

#[test]
fn malformed_goals_are_rejected() {
    assert!(parse_activity_goals("").is_err());
    assert!(parse_activity_goals("{\"activity_goals\":").is_err());
    assert!(parse_activity_goals("{\"activity_goals\":[}").is_err());
    assert!(parse_activity_goals("{\"goals\":[]}").is_err());
}

#[test]
fn invalid_minutes_then_valid_minutes() {
    // the survey loop re-prompts on the first answer and accepts the second
    let first = parse_minutes("abc");
    assert!(first.is_err());
    let second = parse_minutes("42");
    assert_eq!(second.unwrap(), 42);
}

#[test]
fn minutes_bounds() {
    assert_eq!(parse_minutes("0").unwrap(), 0);
    assert_eq!(parse_minutes("65535").unwrap(), 65535);
    assert_eq!(parse_minutes("007").unwrap(), 7);
    assert!(parse_minutes("65536").is_err());
    assert!(parse_minutes("").is_err());
    assert!(parse_minutes("4 2").is_err());
    assert!(parse_minutes("-1").is_err());
}

#[test]
fn dates_are_calendar_checked() {
    assert_eq!(parse_date("2024-02-29").unwrap(), Date::new(2024, 2, 29).unwrap());
    assert!(parse_date("2023-02-29").is_err());
    assert!(parse_date("2100-02-29").is_err());
    assert_eq!(parse_date("2000-02-29").unwrap(), Date::new(2000, 2, 29).unwrap());
    assert!(parse_date("2023-13-01").is_err());
    assert!(parse_date("2023-00-10").is_err());
    assert!(parse_date("2023-04-31").is_err());
    assert!(parse_date("2023-1-01").is_err());
    assert!(parse_date("2023-01-01extra").is_err());
}

#[test]
fn dates_format_zero_padded() {
    let d = Date::new(812, 7, 4).unwrap();
    assert_eq!(d.format_ymd(), "0812-07-04");
    assert_eq!(parse_date("0812-07-04").unwrap(), d);
}

#[test]
fn pretty_printed_goals_file_parses() {
    let text = "{\n  \"activity_goals\": [\n    {\n      \"name\": \"A\",\n      \"description\": \"goal a\",\n      \"minimum_minutes\": 10,\n      \"maximum_minutes\": 60\n    },\n    {\n      \"name\": \"B\",\n      \"description\": \"goal b\",\n      \"minimum_minutes\": null,\n      \"maximum_minutes\": null\n    }\n  ]\n}\n";
    let goals = parse_activity_goals(text).unwrap();
    assert_eq!(goals.activity_goals.len(), 2);
    assert_eq!(goals.activity_goals[0].name, "A");
    assert_eq!(goals.activity_goals[0].minimum_minutes, Some(10));
    assert_eq!(goals.activity_goals[1].name, "B");
    assert_eq!(goals.activity_goals[1].maximum_minutes, None);
}

#[test]
fn empty_goals_list_with_whitespace_parses() {
    let goals = parse_activity_goals("{ \"activity_goals\" : [ ] }").unwrap();
    assert_eq!(goals.activity_goals.len(), 0);
}

#[test]
fn goal_fields_in_any_order_parse() {
    let text = "{\"activity_goals\":[{\"description\":\"goal a\",\"name\":\"A\",\"maximum_minutes\":60,\"minimum_minutes\":10}]}";
    let goals = parse_activity_goals(text).unwrap();
    assert_eq!(goals.activity_goals.len(), 1);
    assert_eq!(goals.activity_goals[0].name, "A");
    assert_eq!(goals.activity_goals[0].description, "goal a");
    assert_eq!(goals.activity_goals[0].minimum_minutes, Some(10));
    assert_eq!(goals.activity_goals[0].maximum_minutes, Some(60));
}

#[test]
fn repeated_or_missing_goal_fields_are_rejected() {
    assert!(parse_activity_goals(
        "{\"activity_goals\":[{\"name\":\"A\",\"name\":\"B\",\"description\":\"d\",\"minimum_minutes\":null,\"maximum_minutes\":null}]}"
    )
    .is_err());
    assert!(parse_activity_goals(
        "{\"activity_goals\":[{\"name\":\"A\",\"description\":\"d\",\"minimum_minutes\":null}]}"
    )
    .is_err());
}
