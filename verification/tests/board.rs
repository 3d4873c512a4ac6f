use transit_board::datetime::{checked_add_minutes, diff_minutes, DateTime};
use transit_board::parse::{parse_i64, parse_timestamp};
use transit_board::records::{
    act_stop_records, bart_records, ActOutcome, BartError, Estimate, Etd, Prediction, Station,
    StopInfo, Trip,
};
use transit_board::clock::time_from_fields;
use transit_board::render::render_line;

fn dt(year: i64, month: u8, day: u8, hour: u8, minute: u8, second: u8) -> DateTime {
    DateTime { year, month, day, hour, minute, second }
}

#[test]
fn timestamp_morning() {
    let parsed = parse_timestamp("2024-01-01T08:05:00");
    assert_eq!(parsed, Some(dt(2024, 1, 1, 8, 5, 0)));
}

#[test]
fn timestamp_leap_day() {
    assert_eq!(
        parse_timestamp("2024-02-29T23:59:59"),
        Some(dt(2024, 2, 29, 23, 59, 59))
    );
    assert_eq!(parse_timestamp("2023-02-29T00:00:00"), None);
}

#[test]
fn timestamp_malformed_fails() {
    assert_eq!(parse_timestamp(""), None);
    assert_eq!(parse_timestamp("garbage"), None);
    assert_eq!(parse_timestamp("2024-01-01 08:05:00"), None);
    assert_eq!(parse_timestamp("2024-13-01T08:05:00"), None);
    assert_eq!(parse_timestamp("2024-00-01T08:05:00"), None);
    assert_eq!(parse_timestamp("2024-04-31T08:05:00"), None);
    assert_eq!(parse_timestamp("2024-01-01T24:05:00"), None);
    assert_eq!(parse_timestamp("2024-01-01T08:60:00"), None);
    assert_eq!(parse_timestamp("2024-01-01T08:05:0x"), None);
    assert_eq!(parse_timestamp("2024-01-01T08:05:000"), None);
}

#[test]
fn minutes_strings() {
    assert_eq!(parse_i64("0"), Some(0));
    assert_eq!(parse_i64("12"), Some(12));
    assert_eq!(parse_i64("-5"), Some(-5));
    assert_eq!(parse_i64("007"), Some(7));
    assert_eq!(parse_i64("9223372036854775807"), Some(i64::MAX));
    assert_eq!(parse_i64("9223372036854775808"), None);
    assert_eq!(parse_i64("-9223372036854775808"), Some(i64::MIN));
    assert_eq!(parse_i64("-9223372036854775809"), None);
    assert_eq!(parse_i64(""), None);
    assert_eq!(parse_i64("-"), None);
    assert_eq!(parse_i64("1a"), None);
    assert_eq!(parse_i64("+5"), Some(5));
    assert_eq!(parse_i64("+"), None);
    assert_eq!(parse_i64("+-5"), None);
}

#[test]
fn add_minutes_crosses_year() {
    let late = dt(2023, 12, 31, 23, 59, 0);
    assert_eq!(
        checked_add_minutes(&late, 2),
        Some(dt(2024, 1, 1, 0, 1, 0))
    );
    assert_eq!(
        checked_add_minutes(&late, -1440),
        Some(dt(2023, 12, 30, 23, 59, 0))
    );
    assert_eq!(checked_add_minutes(&dt(0, 1, 1, 0, 0, 0), -1), None);
}

#[test]
fn add_minutes_leap_february() {
    assert_eq!(
        checked_add_minutes(&dt(2024, 2, 28, 23, 30, 0), 60),
        Some(dt(2024, 2, 29, 0, 30, 0))
    );
    assert_eq!(
        checked_add_minutes(&dt(2023, 2, 28, 23, 30, 0), 60),
        Some(dt(2023, 3, 1, 0, 30, 0))
    );
}

#[test]
fn add_minutes_crosses_month() {
    assert_eq!(
        checked_add_minutes(&dt(2024, 4, 30, 23, 59, 0), 1),
        Some(dt(2024, 5, 1, 0, 0, 0))
    );
}

#[test]
fn timestamp_year_zero() {
    assert_eq!(
        parse_timestamp("0000-01-01T00:00:00"),
        Some(dt(0, 1, 1, 0, 0, 0))
    );
}

#[test]
fn diff_minutes_truncates_toward_zero() {
    let base = dt(2024, 1, 1, 8, 0, 0);
    assert_eq!(diff_minutes(&dt(2024, 1, 1, 8, 1, 30), &base), 1);
    assert_eq!(diff_minutes(&dt(2024, 1, 1, 7, 58, 30), &base), -1);
    assert_eq!(diff_minutes(&dt(2024, 1, 2, 8, 0, 0), &base), 1440);
    assert_eq!(diff_minutes(&base, &base), 0);
}

#[test]
fn clock_fields_pack_exactly_when_valid() {
    assert_eq!(
        time_from_fields(2024, 1, 1, 8, 5, 0),
        Some(dt(2024, 1, 1, 8, 5, 0))
    );
    assert_eq!(time_from_fields(2024, 13, 1, 8, 5, 0), None);
    assert_eq!(time_from_fields(2023, 2, 29, 8, 5, 0), None);
    assert_eq!(time_from_fields(-1, 1, 1, 8, 5, 0), None);
    assert_eq!(time_from_fields(2024, 1, 1, 24, 0, 0), None);
}

#[test]
fn current_time_is_well_formed() {
    let now = transit_board::clock::current_time().expect("system clock out of range");
    assert!(1 <= now.month && now.month <= 12);
    assert!(1 <= now.day && now.day <= 31);
    assert!(now.hour <= 23);
    assert!(now.minute <= 59);
    assert!(now.second <= 59);
    assert!(0 <= now.year && now.year <= 100_000);
}

fn one_trip() -> Vec<Trip> {
    vec![Trip { trip_id: 7, direction: "Northbound".to_string() }]
}

fn prediction(trip_id: u32, route_name: &str, departure: &str) -> Prediction {
    Prediction {
        trip_id,
        route_name: route_name.to_string(),
        predicted_departure: departure.to_string(),
    }
}

#[test]
fn unavailable_predictions_yield_one_fallback() {
    let outcomes = act_stop_records("51B", "Main St", &one_trip(), &None);
    assert_eq!(outcomes.len(), 1);
    match &outcomes[0] {
        ActOutcome::Record(info) => {
            assert_eq!(info.route, "51B");
            assert_eq!(info.name, "Main St");
            assert!(info.direction.is_none());
            assert!(info.prediction.is_none());
        }
        _ => panic!("expected the fallback record"),
    }
}

#[test]
fn foreign_route_predictions_are_excluded() {
    let preds = vec![
        prediction(7, "27", "2024-01-01T08:05:00"),
        prediction(7, "51B", "2024-01-01T08:05:00"),
        prediction(7, "F", "2024-01-01T08:05:00"),
    ];
    let outcomes = act_stop_records("51B", "Main St", &one_trip(), &Some(preds));
    assert_eq!(outcomes.len(), 1);
    match &outcomes[0] {
        ActOutcome::Record(info) => {
            assert_eq!(info.direction.as_deref(), Some("Northbound"));
            assert_eq!(info.prediction, Some(dt(2024, 1, 1, 8, 5, 0)));
        }
        _ => panic!("expected one joined record"),
    }
}

#[test]
fn missing_trip_is_surfaced_per_record() {
    let preds = vec![prediction(9, "51B", "2024-01-01T08:05:00")];
    let outcomes = act_stop_records("51B", "Main St", &one_trip(), &Some(preds));
    assert_eq!(outcomes.len(), 2);
    assert!(matches!(outcomes[0], ActOutcome::MissingTrip { trip_id: 9 }));
    match &outcomes[1] {
        ActOutcome::Record(info) => {
            assert!(info.direction.is_none());
            assert!(info.prediction.is_none());
        }
        _ => panic!("expected the fallback record after the inconsistency"),
    }
}

#[test]
fn later_trip_entry_shadows_earlier() {
    let trips = vec![
        Trip { trip_id: 7, direction: "Northbound".to_string() },
        Trip { trip_id: 7, direction: "Southbound".to_string() },
    ];
    let preds = vec![prediction(7, "51B", "2024-01-01T08:05:00")];
    let outcomes = act_stop_records("51B", "Main St", &trips, &Some(preds));
    assert_eq!(outcomes.len(), 1);
    match &outcomes[0] {
        ActOutcome::Record(info) => {
            assert_eq!(info.direction.as_deref(), Some("Southbound"));
        }
        _ => panic!("expected a joined record"),
    }
}

#[test]
fn bad_departure_timestamp_is_surfaced() {
    let preds = vec![prediction(7, "51B", "08:05")];
    let outcomes = act_stop_records("51B", "Main St", &one_trip(), &Some(preds));
    assert_eq!(outcomes.len(), 2);
    match &outcomes[0] {
        ActOutcome::BadTimestamp { trip_id, text } => {
            assert_eq!(*trip_id, 7);
            assert_eq!(text.as_str(), "08:05");
        }
        _ => panic!("expected the malformed timestamp to be surfaced"),
    }
}

fn station(name: &str, destination: &str, minutes: &str, color: &str) -> Station {
    Station {
        name: name.to_string(),
        etds: vec![Etd {
            destination: destination.to_string(),
            estimates: vec![Estimate {
                minutes: minutes.to_string(),
                color: color.to_string(),
            }],
        }],
    }
}

#[test]
fn leaving_maps_to_zero_minutes() {
    let now = dt(2024, 1, 1, 8, 0, 0);
    let stations = vec![station("Rockridge", "San Francisco", "Leaving", "YELLOW")];
    let records = bart_records(&stations, &now).expect("flatten should succeed");
    assert_eq!(records.len(), 1);
    assert_eq!(records[0].prediction, Some(now));
    assert_eq!(diff_minutes(&records[0].prediction.unwrap(), &now), 0);
}

#[test]
fn rail_records_flatten_in_order() {
    let now = dt(2024, 1, 1, 8, 0, 0);
    let stations = vec![
        Station {
            name: "Rockridge".to_string(),
            etds: vec![
                Etd {
                    destination: "San Francisco".to_string(),
                    estimates: vec![
                        Estimate { minutes: "3".to_string(), color: "YELLOW".to_string() },
                        Estimate { minutes: "18".to_string(), color: "YELLOW".to_string() },
                    ],
                },
                Etd {
                    destination: "Antioch".to_string(),
                    estimates: vec![Estimate {
                        minutes: "7".to_string(),
                        color: "YELLOW".to_string(),
                    }],
                },
            ],
        },
        station("Ashby", "Richmond", "11", "RED"),
    ];
    let records = bart_records(&stations, &now).expect("flatten should succeed");
    assert_eq!(records.len(), 4);
    assert_eq!(records[0].prediction, Some(dt(2024, 1, 1, 8, 3, 0)));
    assert_eq!(records[1].prediction, Some(dt(2024, 1, 1, 8, 18, 0)));
    assert_eq!(records[2].name, "Rockridge");
    assert_eq!(records[2].direction.as_deref(), Some("Antioch"));
    assert_eq!(records[2].prediction, Some(dt(2024, 1, 1, 8, 7, 0)));
    assert_eq!(records[3].route, "RED");
    assert_eq!(records[3].name, "Ashby");
    assert_eq!(records[3].prediction, Some(dt(2024, 1, 1, 8, 11, 0)));
}

#[test]
fn rail_bad_minutes_fails_the_fetch() {
    let now = dt(2024, 1, 1, 8, 0, 0);
    let stations = vec![station("Rockridge", "San Francisco", "soon", "YELLOW")];
    match bart_records(&stations, &now) {
        Err(BartError::InvalidMinutes { minutes }) => assert_eq!(minutes, "soon"),
        _ => panic!("a minutes field that spells no integer must fail"),
    }
}

#[test]
fn rail_out_of_range_prediction_fails_the_fetch() {
    let now = dt(2024, 1, 1, 8, 0, 0);
    let stations = vec![station("Rockridge", "San Francisco", "-2000000000", "YELLOW")];
    match bart_records(&stations, &now) {
        Err(BartError::OutOfRangePrediction) => {}
        _ => panic!("a prediction before year 0 must fail"),
    }
}

#[test]
fn line_with_prediction_matches_format() {
    let now = dt(2024, 1, 1, 8, 0, 0);
    let info = StopInfo {
        route: "51B".to_string(),
        name: "Main St".to_string(),
        direction: Some("Northbound".to_string()),
        prediction: Some(dt(2024, 1, 1, 8, 5, 0)),
    };
    let line = render_line(&info, &now).expect("record is printable");
    assert_eq!(line, "51B Northbound: Main St at 08:05 AM (5m away)");
}

#[test]
fn line_without_prediction_matches_format() {
    let now = dt(2024, 1, 1, 8, 0, 0);
    let info = StopInfo {
        route: "51B".to_string(),
        name: "Main St".to_string(),
        direction: None,
        prediction: None,
    };
    let line = render_line(&info, &now).expect("record is printable");
    assert_eq!(line, "51B: Main St (no prediction)");
}

#[test]
fn twelve_hour_clock_edges() {
    let now = dt(2024, 1, 1, 0, 0, 0);
    let info = StopInfo {
        route: "YELLOW".to_string(),
        name: "Rockridge".to_string(),
        direction: Some("San Francisco".to_string()),
        prediction: Some(dt(2024, 1, 1, 0, 7, 0)),
    };
    let line = render_line(&info, &now).unwrap();
    assert_eq!(line, "YELLOW San Francisco: Rockridge at 12:07 AM (7m away)");

    let noonish = StopInfo {
        route: "YELLOW".to_string(),
        name: "Rockridge".to_string(),
        direction: Some("San Francisco".to_string()),
        prediction: Some(dt(2024, 1, 1, 12, 0, 0)),
    };
    let line = render_line(&noonish, &now).unwrap();
    assert_eq!(line, "YELLOW San Francisco: Rockridge at 12:00 PM (720m away)");
}

#[test]
fn negative_minutes_render_with_sign() {
    let now = dt(2024, 1, 1, 8, 0, 0);
    let info = StopInfo {
        route: "27".to_string(),
        name: "Main St".to_string(),
        direction: Some("Eastbound".to_string()),
        prediction: Some(dt(2024, 1, 1, 7, 57, 0)),
    };
    let line = render_line(&info, &now).unwrap();
    assert_eq!(line, "27 Eastbound: Main St at 07:57 AM (-3m away)");
}

#[test]
fn prediction_without_direction_is_not_printable() {
    let now = dt(2024, 1, 1, 8, 0, 0);
    let info = StopInfo {
        route: "27".to_string(),
        name: "Main St".to_string(),
        direction: None,
        prediction: Some(dt(2024, 1, 1, 8, 5, 0)),
    };
    assert!(render_line(&info, &now).is_none());
}

#[test]
fn empty_predictions_list_yields_fallback() {
    let outcomes = act_stop_records("51B", "Main St", &one_trip(), &Some(vec![]));
    assert_eq!(outcomes.len(), 1);
    match &outcomes[0] {
        ActOutcome::Record(info) => {
            assert!(info.direction.is_none());
            assert!(info.prediction.is_none());
        }
        _ => panic!("expected the fallback record"),
    }
}
