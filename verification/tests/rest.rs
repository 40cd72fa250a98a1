use serde_json::Value;
use waiting_for_a_signal::darwin::rest::{
    board_services, CallingPoint, CallingPointGroup, ServiceItem, ServiceLocation, StationBoard,
};
use waiting_for_a_signal::darwin::{board_url, received, DarwinError, Service};

fn text(v: &Value, key: &str) -> String {
    v.get(key).and_then(Value::as_str).unwrap_or("").to_string()
}

fn optional(v: &Value, key: &str) -> Option<String> {
    v.get(key).and_then(Value::as_str).map(str::to_string)
}

fn list<'a>(v: &'a Value, key: &str) -> Vec<&'a Value> {
    v.get(key).and_then(Value::as_array).map(|a| a.iter().collect()).unwrap_or_default()
}

fn item(v: &Value) -> ServiceItem {
    ServiceItem {
        service_id: text(v, "serviceID"),
        std: text(v, "std"),
        etd: text(v, "etd"),
        platform: optional(v, "platform"),
        is_cancelled: v.get("isCancelled").and_then(Value::as_bool).unwrap_or(false),
        cancel_reason: optional(v, "cancelReason"),
        delay_reason: optional(v, "delayReason"),
        destination: list(v, "destination")
            .into_iter()
            .map(|d| ServiceLocation { location_name: text(d, "locationName"), crs: text(d, "crs") })
            .collect(),
        subsequent_calling_points: list(v, "subsequentCallingPoints")
            .into_iter()
            .map(|g| CallingPointGroup {
                calling_points: list(g, "callingPoint")
                    .into_iter()
                    .map(|c| CallingPoint { crs: text(c, "crs") })
                    .collect(),
            })
            .collect(),
    }
}

fn board(json: &str) -> StationBoard {
    let v: Value = serde_json::from_str(json).expect("json");
    StationBoard {
        train_services: v
            .get("trainServices")
            .and_then(Value::as_array)
            .map(|a| a.iter().map(item).collect()),
    }
}

fn parse_departure_board(json: &str) -> Vec<Service> {
    board_services(&board(json))
}

fn sample_json() -> &'static str {
    r#"{
        "generatedAt": "2024-01-15T12:30:00+00:00",
        "locationName": "London Waterloo",
        "crs": "WAT",
        "platformAvailable": true,
        "areServicesAvailable": true,
        "trainServices": [
            {
                "serviceID": "ABC123",
                "std": "12:34",
                "etd": "On time",
                "platform": "4",
                "isCancelled": false,
                "destination": [
                    {"locationName": "Reading", "crs": "RDG"}
                ]
            },
            {
                "serviceID": "DEF456",
                "std": "12:50",
                "etd": "13:05",
                "platform": "7",
                "isCancelled": false,
                "delayReason": "signalling problems",
                "destination": [
                    {"locationName": "Woking", "crs": "WOK"}
                ]
            }
        ]
    }"#
}

#[test]
fn parses_two_services() {
    let services = parse_departure_board(sample_json());
    assert_eq!(services.len(), 2);

    let s = &services[0];
    assert_eq!(s.service_id, "ABC123");
    assert_eq!(s.std, "12:34");
    assert_eq!(s.etd, "On time");
    assert_eq!(s.platform, Some("4".to_string()));
    assert_eq!(s.destination_crs, "RDG");
    assert_eq!(s.destination_name, "Reading");
    assert!(!s.is_cancelled);
    assert!(s.delay_reason.is_none());

    let s2 = &services[1];
    assert_eq!(s2.service_id, "DEF456");
    assert_eq!(s2.etd, "13:05");
    assert_eq!(s2.delay_reason.as_deref(), Some("signalling problems"));
}

#[test]
fn empty_train_services_returns_empty_vec() {
    let json = r#"{"locationName":"Waterloo","crs":"WAT"}"#;
    let services = parse_departure_board(json);
    assert!(services.is_empty());
}

#[test]
fn null_train_services_returns_empty_vec() {
    let json = r#"{"locationName":"Waterloo","crs":"WAT","trainServices":null}"#;
    let services = parse_departure_board(json);
    assert!(services.is_empty());
}

#[test]
fn cancelled_service_parses() {
    let json = r#"{
        "trainServices": [{
            "serviceID": "CAN001",
            "std": "14:00",
            "etd": "Cancelled",
            "isCancelled": true,
            "cancelReason": "a train fault",
            "destination": [{"locationName": "Brighton", "crs": "BTN"}]
        }]
    }"#;
    let services = parse_departure_board(json);
    assert_eq!(services.len(), 1);
    assert!(services[0].is_cancelled);
    assert_eq!(services[0].cancel_reason.as_deref(), Some("a train fault"));
}

#[test]
fn service_without_id_is_skipped() {
    let json = r#"{
        "trainServices": [
            {"serviceID": "", "std": "10:00", "etd": "On time", "destination": []},
            {"serviceID": "OK001", "std": "10:05", "etd": "On time", "destination": [{"locationName": "York", "crs": "YRK"}]}
        ]
    }"#;
    let services = parse_departure_board(json);
    assert_eq!(services.len(), 1);
    assert_eq!(services[0].service_id, "OK001");
}

#[test]
fn missing_etd_becomes_unknown() {
    let json = r#"{
        "trainServices": [{
            "serviceID": "X1",
            "std": "09:00",
            "destination": [{"locationName": "Bristol", "crs": "BRI"}]
        }]
    }"#;
    let services = parse_departure_board(json);
    assert_eq!(services[0].etd, "Unknown");
}

#[test]
fn calling_points_of_all_groups() {
    let json = r#"{
        "trainServices": [{
            "serviceID": "X1",
            "subsequentCallingPoints": [
                {"callingPoint": [{"crs": " wok "}, {"crs": ""}, {"crs": "BSK"}]},
                {"callingPoint": [{"crs": "gld"}]}
            ]
        }]
    }"#;
    let services = received("wat", &board(json));
    assert_eq!(services[0].calling_point_crs, vec!["WOK", "BSK", "GLD"]);
    assert_eq!(services[0].origin_crs, "WAT");
    assert_eq!(services[0].destination_crs, "");
}

#[test]
fn board_urls() {
    assert_eq!(
        board_url("https://x/api", "WAT", 149, &None),
        "https://x/api/GetDepBoardWithDetails/WAT?numRows=149"
    );
    assert_eq!(
        board_url("https://x/api", "WAT", 10, &Some("RDG".to_string())),
        "https://x/api/GetDepBoardWithDetails/WAT?numRows=10&filterCrs=RDG"
    );
}

#[test]
fn capture_names() {
    let now = waiting_for_a_signal::clock::Timestamp { secs: 1_781_105_400, nanos: 123_456_789 };
    assert_eq!(
        waiting_for_a_signal::darwin::capture_file_name(&now, "WAT", 149, &Some("RDG".to_string())),
        "2026-06-10T15-30-00.123456Z_WAT_rows149_filterRDG.json.gz"
    );
    assert_eq!(
        waiting_for_a_signal::darwin::capture_file_name(&now, "WAT", 10, &None),
        "2026-06-10T15-30-00.123456Z_WAT_rows10.json.gz"
    );
    assert_eq!(waiting_for_a_signal::darwin::capture_dir_name(&now), "10Jun2026");
}

#[test]
fn darwin_errors_in_words() {
    assert_eq!(DarwinError::Http("timeout".to_string()).text(), "HTTP error: timeout");
    assert_eq!(DarwinError::Parse("bad".to_string()).text(), "Parse error: bad");
}
