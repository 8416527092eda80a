use dmv_api::response::{decode_response, AvailabilityResponse};
use dmv_api::structs::SchedulerError;

fn available(body: &str) -> Result<bool, SchedulerError> {
    decode_response(200, body.as_bytes()).map(|response| response.is_available())
}

#[test]
fn the_sentinel_means_no_slot() {
    assert_eq!(
        available("{\"next\": \"No Appointments Available\"}"),
        Ok(false)
    );
}

#[test]
fn a_date_means_a_slot() {
    assert_eq!(available("{\"next\": \"2024-05-01\"}"), Ok(true));
}

#[test]
fn no_next_field_means_no_slot() {
    assert_eq!(available("{}"), Ok(false));
    assert_eq!(available("{\"Next\": \"2024-05-01\"}"), Ok(false));
}

#[test]
fn other_fields_are_of_no_account() {
    assert_eq!(
        available("{\"next\": \"2024-05-01\", \"note\": \"x\", \"count\": 3, \"more\": {\"a\": [1, null]}}"),
        Ok(true)
    );
    assert_eq!(
        available("{\"count\": 3, \"next\": \"No Appointments Available\", \"open\": true}"),
        Ok(false)
    );
    assert_eq!(available("{\"count\": 3, \"open\": null}"), Ok(false));
}

#[test]
fn anything_but_the_sentinel_is_a_slot() {
    assert_eq!(available("{\"next\": \"\"}"), Ok(true));
    assert_eq!(available("{\"next\": \"no appointments available\"}"), Ok(true));
    assert_eq!(available("{\"next\": \"No Appointments Available \"}"), Ok(true));
}

#[test]
fn a_next_that_is_no_string_is_a_transport_error() {
    for body in [
        "{\"next\": 5}",
        "{\"next\": null}",
        "{\"next\": true}",
        "{\"next\": [\"2024-05-01\"]}",
        "{\"next\": {\"date\": \"2024-05-01\"}}",
        "{\"next\": \"2024-05-01\", \"next\": null}",
    ] {
        assert_eq!(available(body), Err(SchedulerError::TransportError), "{}", body);
    }
    assert_eq!(available("{\"next\": null, \"next\": \"2024-05-01\"}"), Ok(true));
}

#[test]
fn the_last_of_two_fields_of_one_name_counts() {
    assert_eq!(
        available("{\"next\": \"2024-05-01\", \"next\": \"No Appointments Available\"}"),
        Ok(false)
    );
}

#[test]
fn a_body_that_is_no_object_is_a_transport_error() {
    for body in ["", "not json", "[]", "\"next\"", "{\"next\": ", "{} {}", "null"] {
        assert_eq!(available(body), Err(SchedulerError::TransportError), "{}", body);
    }
    assert!(matches!(
        decode_response(200, &[0xff, 0xfe]),
        Err(SchedulerError::TransportError)
    ));
}

#[test]
fn a_status_outside_2xx_is_a_transport_error() {
    let body = "{\"next\": \"2024-05-01\"}".as_bytes();
    for status in [0, 100, 199, 300, 301, 404, 500, 503, u16::MAX] {
        assert!(
            matches!(decode_response(status, body), Err(SchedulerError::TransportError)),
            "{}",
            status
        );
    }
    for status in [200, 201, 204, 299] {
        assert_eq!(
            decode_response(status, body).map(|response| response.is_available()),
            Ok(true)
        );
    }
}

#[test]
fn an_answer_can_be_put_together_by_hand() {
    let mut response = AvailabilityResponse::new();
    assert_eq!(response.get("next"), None);
    assert!(!response.is_available());
    response.insert(String::from("next"), String::from("No Appointments Available"));
    assert!(!response.is_available());
    response.insert(String::from("other"), String::from("x"));
    response.insert(String::from("next"), String::from("2024-05-01"));
    assert!(response.is_available());
    assert_eq!(response.get("next"), Some(&String::from("2024-05-01")));
    assert_eq!(response.get("other"), Some(&String::from("x")));
    assert_eq!(response.get("Other"), None);
}

#[test]
fn members_that_are_no_strings_are_no_fields() {
    let response = decode_response(
        200,
        "{\"count\": 3, \"note\": \"x\", \"open\": null}".as_bytes(),
    )
    .unwrap();
    assert_eq!(response.get("note"), Some(&String::from("x")));
    assert_eq!(response.get("count"), None);
    assert_eq!(response.get("open"), None);
    assert_eq!(response.get("next"), None);
}
