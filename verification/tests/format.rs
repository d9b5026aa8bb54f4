//! The log line format: exact rendering, round trips, and per-line failure
//! isolation when reading a whole log.

use accountability_rs::{
    encode_log_line, parse_activity_log, parse_line, ActivitiesRecord, ActivityGoal,
    ActivityRecord, Date, Timestamp,
};

fn goal(name: &str, description: &str, min: Option<u16>, max: Option<u16>) -> ActivityGoal {
    ActivityGoal {
        name: name.to_string(),
        description: description.to_string(),
        minimum_minutes: min,
        maximum_minutes: max,
    }
}

fn sample_record() -> ActivitiesRecord {
    let a = ActivityRecord::from_goal(goal("jogging", "morning run", Some(10), Some(60)), 15);
    let b = ActivityRecord::from_goal(goal("reading", "any book", None, None), 5);
    ActivitiesRecord::new(
        Timestamp::new(1_699_999_999, 500_000_000),
        Date::new(2024, 3, 5).unwrap(),
        vec![a, b],
    )
}

#[test]
fn encode_exact_line() {
    let rec = ActivitiesRecord::new(
        Timestamp::new(1_699_999_999, 500_000_000),
        Date::new(2024, 3, 5).unwrap(),
        vec![ActivityRecord::from_goal(goal("jogging", "morning run", Some(10), None), 15)],
    );
    let line = encode_log_line(&rec);
    assert_eq!(
        line,
        "{\"timestamp\":1699999999.500000000,\"record_date\":\"2024-03-05\",\"activities\":[{\"name\":\"jogging\",\"description\":\"morning run\",\"minutes_spent\":15,\"minimum_minutes\":10,\"maximum_minutes\":null}]}"
    );
}

#[test]
fn round_trip_preserves_everything() {
    let rec = sample_record();
    let line = encode_log_line(&rec);
    let back = parse_line(line).unwrap();
    assert_eq!(back.timestamp, Timestamp::new(1_699_999_999, 500_000_000));
    assert_eq!(back.record_date, Date::new(2024, 3, 5).unwrap());
    assert_eq!(back.activities.len(), 2);
    assert_eq!(back.activities[0].name, "jogging");
    assert_eq!(back.activities[0].description, "morning run");
    assert_eq!(back.activities[0].minutes_spent, 15);
    assert_eq!(back.activities[0].minimum_minutes, Some(10));
    assert_eq!(back.activities[0].maximum_minutes, Some(60));
    assert_eq!(back.activities[1].name, "reading");
    assert_eq!(back.activities[1].description, "any book");
    assert_eq!(back.activities[1].minutes_spent, 5);
    assert_eq!(back.activities[1].minimum_minutes, None);
    assert_eq!(back.activities[1].maximum_minutes, None);
}

#[test]
fn round_trip_empty_survey() {
    let rec = ActivitiesRecord::new(
        Timestamp::new(0, 0),
        Date::new(1999, 12, 31).unwrap(),
        Vec::new(),
    );
    let line = encode_log_line(&rec);
    assert_eq!(
        line,
        "{\"timestamp\":0.000000000,\"record_date\":\"1999-12-31\",\"activities\":[]}"
    );
    let back = parse_line(line).unwrap();
    assert_eq!(back.activities.len(), 0);
    assert_eq!(back.timestamp, Timestamp::new(0, 0));
}

#[test]
fn round_trip_largest_timestamp() {
    let rec = ActivitiesRecord::new(
        Timestamp::new(u64::MAX, 999_999_999),
        Date::new(9999, 12, 31).unwrap(),
        Vec::new(),
    );
    let back = parse_line(encode_log_line(&rec)).unwrap();
    assert_eq!(back.timestamp, Timestamp::new(u64::MAX, 999_999_999));
    assert_eq!(back.record_date, Date::new(9999, 12, 31).unwrap());
}

#[test]
fn malformed_middle_line_is_isolated() {
    let first = encode_log_line(&sample_record());
    let third = encode_log_line(&ActivitiesRecord::new(
        Timestamp::new(1_700_086_399, 0),
        Date::new(2024, 3, 6).unwrap(),
        vec![ActivityRecord::from_goal(goal("reading", "any book", None, None), 30)],
    ));
    let content = format!("{}\nthis is not json\n{}\n", first, third);
    let results = parse_activity_log(&content);
    assert_eq!(results.len(), 3);
    assert!(results[0].is_ok());
    assert!(results[1].is_err());
    assert!(results[2].is_ok());
    assert_eq!(results[0].as_ref().unwrap().record_date, Date::new(2024, 3, 5).unwrap());
    assert_eq!(results[2].as_ref().unwrap().record_date, Date::new(2024, 3, 6).unwrap());
}

#[test]
fn appended_lines_stay_in_write_order() {
    let mut log = String::new();
    let mut dates = Vec::new();
    for day in 1..=4u8 {
        let rec = ActivitiesRecord::new(
            Timestamp::new(1_700_000_000 + day as u64, 0),
            Date::new(2024, 3, day as u8).unwrap(),
            vec![ActivityRecord::from_goal(goal("jogging", "morning run", None, None), day as u16)],
        );
        log.push_str(&encode_log_line(&rec));
        log.push('\n');
        dates.push(rec.record_date);
    }
    let results = parse_activity_log(&log);
    assert_eq!(results.len(), 4);
    for (k, r) in results.iter().enumerate() {
        let rec = r.as_ref().unwrap();
        assert_eq!(rec.record_date, dates[k]);
        assert_eq!(rec.activities[0].minutes_spent, (k + 1) as u16);
    }
}

#[test]
fn trailing_garbage_is_rejected() {
    let line = encode_log_line(&sample_record());
    assert!(parse_line(format!("{}x", line)).is_err());
    assert!(parse_line(format!("{} \n ", line)).is_ok());
}

#[test]
fn escapes_and_controls_are_rejected() {
    assert!(parse_line(
        "{\"timestamp\":1.000000000,\"record_date\":\"2024-03-05\",\"activities\":[{\"name\":\"a\\\\b\",\"description\":\"x\",\"minutes_spent\":1,\"minimum_minutes\":null,\"maximum_minutes\":null}]}".to_string()
    )
    .is_err());
}

#[test]
fn encoded_line_is_plain_json() {
    let line = encode_log_line(&sample_record());
    let v: serde_json::Value = serde_json::from_str(&line).unwrap();
    assert_eq!(v["record_date"], "2024-03-05");
    assert_eq!(v["timestamp"].as_f64().unwrap(), 1_699_999_999.5);
    let acts = v["activities"].as_array().unwrap();
    assert_eq!(acts.len(), 2);
    assert_eq!(acts[0]["name"], "jogging");
    assert_eq!(acts[0]["minutes_spent"].as_u64(), Some(15));
    assert_eq!(acts[0]["minimum_minutes"].as_u64(), Some(10));
    assert_eq!(acts[1]["maximum_minutes"], serde_json::Value::Null);
}

#[test]
fn whitespace_between_tokens_is_accepted() {
    let line = "{ \"timestamp\" : 1699999999.5 , \"record_date\" : \"2024-03-05\" , \"activities\" : [ { \"name\" : \"jogging\" , \"description\" : \"morning run\" , \"minutes_spent\" : 15 , \"minimum_minutes\" : 10 , \"maximum_minutes\" : null } ] }";
    let rec = parse_line(line.to_string()).unwrap();
    assert_eq!(rec.timestamp, Timestamp::new(1_699_999_999, 500_000_000));
    assert_eq!(rec.record_date, Date::new(2024, 3, 5).unwrap());
    assert_eq!(rec.activities.len(), 1);
    assert_eq!(rec.activities[0].name, "jogging");
    assert_eq!(rec.activities[0].minutes_spent, 15);
    assert_eq!(rec.activities[0].minimum_minutes, Some(10));
    assert_eq!(rec.activities[0].maximum_minutes, None);
}

#[test]
fn short_fractions_scale_to_nanoseconds() {
    let rec = parse_line(
        "{\"timestamp\":1699999999.5,\"record_date\":\"2024-03-05\",\"activities\":[]}".to_string(),
    )
    .unwrap();
    assert_eq!(rec.timestamp, Timestamp::new(1_699_999_999, 500_000_000));
    let rec = parse_line(
        "{\"timestamp\":7.000000001,\"record_date\":\"2024-03-05\",\"activities\":[]}".to_string(),
    )
    .unwrap();
    assert_eq!(rec.timestamp, Timestamp::new(7, 1));
    let rec = parse_line(
        "{\"timestamp\":7,\"record_date\":\"2024-03-05\",\"activities\":[]}".to_string(),
    )
    .unwrap();
    assert_eq!(rec.timestamp, Timestamp::new(7, 0));
}

#[test]
fn overlong_or_empty_fractions_are_rejected() {
    assert!(parse_line(
        "{\"timestamp\":7.0000000001,\"record_date\":\"2024-03-05\",\"activities\":[]}".to_string()
    )
    .is_err());
    assert!(parse_line(
        "{\"timestamp\":7.,\"record_date\":\"2024-03-05\",\"activities\":[]}".to_string()
    )
    .is_err());
}

#[test]
fn reordered_fields_are_accepted() {
    // JSON object keys are unordered: any permutation of the fields parses
    let rec = parse_line(
        "{\"record_date\":\"2024-03-05\",\"activities\":[{\"maximum_minutes\":60,\"minutes_spent\":15,\"name\":\"jogging\",\"minimum_minutes\":10,\"description\":\"morning run\"}],\"timestamp\":7.0}".to_string()
    )
    .unwrap();
    assert_eq!(rec.record_date, Date::new(2024, 3, 5).unwrap());
    assert_eq!(rec.timestamp, Timestamp::new(7, 0));
    assert_eq!(rec.activities[0].name, "jogging");
    assert_eq!(rec.activities[0].description, "morning run");
    assert_eq!(rec.activities[0].minutes_spent, 15);
    assert_eq!(rec.activities[0].minimum_minutes, Some(10));
    assert_eq!(rec.activities[0].maximum_minutes, Some(60));
}

#[test]
fn repeated_or_unknown_keys_are_rejected() {
    assert!(parse_line(
        "{\"timestamp\":7.0,\"timestamp\":8.0,\"record_date\":\"2024-03-05\",\"activities\":[]}".to_string()
    )
    .is_err());
    assert!(parse_line(
        "{\"timestamp\":7.0,\"record_date\":\"2024-03-05\",\"activities\":[],\"extra\":1}".to_string()
    )
    .is_err());
    assert!(parse_line(
        "{\"timestamp\":7.0,\"record_date\":\"2024-03-05\"}".to_string()
    )
    .is_err());
}
