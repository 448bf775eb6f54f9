use sbatchman::errors::JobError;
use sbatchman::timefmt::{parse_time_to_seconds, parse_timestamp};

#[test]
fn test_parse_time_hhmmss_format() {
    assert_eq!(parse_time_to_seconds("01:30:45").unwrap(), 5445);
    assert_eq!(parse_time_to_seconds("00:00:01").unwrap(), 1);
    assert_eq!(parse_time_to_seconds("23:59:59").unwrap(), 86399);
    assert_eq!(parse_time_to_seconds("10:00:00").unwrap(), 36000);
}

#[test]
fn test_parse_time_d_hhmmss_format() {
    assert_eq!(parse_time_to_seconds("1-00:00:00").unwrap(), 86400);
    assert_eq!(parse_time_to_seconds("2-12:30:45").unwrap(), 217845);
    assert_eq!(parse_time_to_seconds("0-01:00:00").unwrap(), 3600);
    assert_eq!(parse_time_to_seconds("7-00:00:00").unwrap(), 604800);
}

#[test]
fn test_parse_time_invalid_formats() {
    assert!(parse_time_to_seconds("invalid").is_err());
    assert!(parse_time_to_seconds("1:2").is_err());
    assert!(parse_time_to_seconds("1:2:3:4").is_err());
    assert!(parse_time_to_seconds("1-2").is_err());
    assert!(parse_time_to_seconds("1-2:3").is_err());
    assert!(parse_time_to_seconds("a:b:c").is_err());
    assert!(parse_time_to_seconds("1-a:b:c").is_err());
}

#[test]
fn test_parse_time_edge_cases() {
    assert_eq!(parse_time_to_seconds("00:00:00").unwrap(), 0);
    assert_eq!(parse_time_to_seconds("0-00:00:00").unwrap(), 0);
}

#[test]
fn test_parse_time_error_carries_input() {
    match parse_time_to_seconds("invalid") {
        Err(JobError::InvalidTimeFormat(s)) => assert_eq!(s, "invalid"),
        other => panic!("expected an InvalidTimeFormat error, got {:?}", other),
    }
}

#[test]
fn test_parse_valid_timestamp() {
    let ts_str = "2025-10-28 09:40:12.366";
    let dt = parse_timestamp(ts_str).expect("Failed to parse timestamp");

    assert_eq!(dt.year(), 2025);
    assert_eq!(dt.month(), 10);
    assert_eq!(dt.day(), 28);
    assert_eq!(dt.hour(), 9);
    assert_eq!(dt.minute(), 40);
    assert_eq!(dt.second(), 12);
    assert_eq!(dt.millisecond(), 366);
}

#[test]
fn test_parse_invalid_timestamp() {
    let bad_ts = "2025/10/28 09:40:12"; // Wrong format
    let result = parse_timestamp(bad_ts);
    assert!(result.is_err(), "Expected parsing to fail for invalid format");
}

#[test]
fn test_error_messages() {
    let e = JobError::ConfigNotFound("gpu".to_string());
    assert_eq!(e.message(), "Config 'gpu' not found for cluster");
    let e = JobError::SpawnError("boom".to_string());
    assert_eq!(e.message(), "Job Spawn: boom");
    let e = sbatchman::errors::map_err_adding_description(
        &"denied".to_string(),
        "Could not prepare Job directory",
    );
    assert_eq!(e.message(), "IO Error: Could not prepare Job directory: denied");
}
