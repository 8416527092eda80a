use dmv_api::endpoint::{
    base_url, build_endpoint, confirm, documented_endpoint, stem, DmvEndpoints,
};
use dmv_api::structs::SchedulerError;
use dmv_api::text::{push_form_encoded, push_segment_encoded, text_eq};

#[test]
fn the_query_address_of_an_office() {
    assert_eq!(
        build_endpoint(DmvEndpoints::GetNextAvailableDate, "197"),
        Ok(String::from(
            "https://telegov.njportal.com/njmvc/CustomerCreateAppointments/GetNextAvailableDate?appointmentTypeId=15&locationId=197"
        ))
    );
}

#[test]
fn the_booking_address_of_an_office() {
    assert_eq!(
        build_endpoint(DmvEndpoints::AppointmentWizard, "197"),
        Ok(String::from(
            "https://telegov.njportal.com/njmvc/AppointmentWizard/15/197"
        ))
    );
}

#[test]
fn the_query_address_has_two_parameters_whatever_the_id() {
    let built = build_endpoint(DmvEndpoints::GetNextAvailableDate, "a b&c=d/é#?").unwrap();
    assert_eq!(
        built,
        "https://telegov.njportal.com/njmvc/CustomerCreateAppointments/GetNextAvailableDate?appointmentTypeId=15&locationId=a+b%26c%3Dd%2F%C3%A9%23%3F"
    );
    let parsed = url::Url::parse(&built).unwrap();
    let pairs: Vec<(String, String)> = parsed.query_pairs().into_owned().collect();
    assert_eq!(
        pairs,
        vec![
            (String::from("appointmentTypeId"), String::from("15")),
            (String::from("locationId"), String::from("a b&c=d/é#?")),
        ]
    );
    assert_eq!(parsed.fragment(), None);
}

#[test]
fn the_booking_address_ends_with_type_and_id() {
    let built = build_endpoint(DmvEndpoints::AppointmentWizard, "203").unwrap();
    let parsed = url::Url::parse(&built).unwrap();
    assert!(parsed.path().ends_with("/15/203"));
    assert_eq!(parsed.query(), None);
    assert_eq!(parsed.fragment(), None);
}

#[test]
fn an_empty_id_gives_the_bare_addresses() {
    assert_eq!(
        build_endpoint(DmvEndpoints::GetNextAvailableDate, "").unwrap(),
        "https://telegov.njportal.com/njmvc/CustomerCreateAppointments/GetNextAvailableDate?appointmentTypeId=15&locationId="
    );
    assert_eq!(
        build_endpoint(DmvEndpoints::AppointmentWizard, "").unwrap(),
        "https://telegov.njportal.com/njmvc/AppointmentWizard/15/"
    );
}

#[test]
fn a_booking_id_stands_as_one_encoded_segment() {
    let cases = [
        ("197", "197"),
        ("A-1_b.c~", "A-1_b.c~"),
        ("a b", "a%20b"),
        ("a?b", "a%3Fb"),
        ("a#b", "a%23b"),
        ("a/b", "a%2Fb"),
        ("a\\b", "a%5Cb"),
        ("../197", "..%2F197"),
        ("//example.com/x", "%2F%2Fexample.com%2Fx"),
        ("https://example.com/", "https%3A%2F%2Fexample.com%2F"),
        ("é", "%C3%A9"),
        ("100%", "100%25"),
        ("%2e", "%252e"),
        ("...", "..."),
        ("a+b&c=d*", "a%2Bb%26c%3Dd%2A"),
    ];
    for (id, segment) in cases {
        let built = build_endpoint(DmvEndpoints::AppointmentWizard, id);
        assert_eq!(
            built,
            Ok(format!(
                "https://telegov.njportal.com/njmvc/AppointmentWizard/15/{}",
                segment
            )),
            "{}",
            id
        );
        let parsed = url::Url::parse(&built.unwrap()).unwrap();
        assert_eq!(parsed.query(), None, "{}", id);
        assert_eq!(parsed.fragment(), None, "{}", id);
        let segments: Vec<&str> = parsed.path_segments().unwrap().collect();
        assert_eq!(segments, vec!["njmvc", "AppointmentWizard", "15", segment], "{}", id);
    }
}

#[test]
fn a_booking_id_that_is_a_step_in_the_path_is_refused() {
    for id in [".", ".."] {
        assert_eq!(
            build_endpoint(DmvEndpoints::AppointmentWizard, id),
            Err(SchedulerError::ConfigError),
            "{}",
            id
        );
        assert!(build_endpoint(DmvEndpoints::GetNextAvailableDate, id).is_ok());
    }
}

#[test]
fn the_documented_address_is_what_the_url_crate_builds() {
    for id in ["197", "", "a b", "100%", "~", "é€", "*-._"] {
        assert_eq!(
            build_endpoint(DmvEndpoints::GetNextAvailableDate, id),
            Ok(documented_endpoint(DmvEndpoints::GetNextAvailableDate, id)),
            "{}",
            id
        );
    }
    for id in ["197", "", "a b", "a?b", "100%", "~", "é€", "*-._"] {
        assert_eq!(
            build_endpoint(DmvEndpoints::AppointmentWizard, id),
            Ok(documented_endpoint(DmvEndpoints::AppointmentWizard, id)),
            "{}",
            id
        );
    }
    assert_eq!(
        documented_endpoint(DmvEndpoints::AppointmentWizard, ".."),
        "https://telegov.njportal.com/njmvc/AppointmentWizard/15/.."
    );
}

#[test]
fn the_stems_and_the_base() {
    assert_eq!(base_url(), "https://telegov.njportal.com/njmvc/");
    assert_eq!(
        stem(DmvEndpoints::GetNextAvailableDate),
        "https://telegov.njportal.com/njmvc/CustomerCreateAppointments/GetNextAvailableDate"
    );
    assert_eq!(
        stem(DmvEndpoints::AppointmentWizard),
        "https://telegov.njportal.com/njmvc/AppointmentWizard/15/"
    );
}

#[test]
fn only_the_expected_text_is_confirmed() {
    assert_eq!(
        confirm(Ok(String::from("https://a/")), "https://a/"),
        Some(String::from("https://a/"))
    );
    assert_eq!(confirm(Ok(String::from("https://a/")), "https://a"), None);
    assert_eq!(confirm(Ok(String::new()), "x"), None);
    assert_eq!(confirm(Err(url::ParseError::EmptyHost), ""), None);
}

#[test]
fn the_form_encoding_of_every_kind_of_byte() {
    let mut target = String::from(">");
    push_form_encoded(&mut target, "az AZ09*-._~+%\n/é");
    assert_eq!(target, ">az+AZ09*-._%7E%2B%25%0A%2F%C3%A9");
    let mut empty = String::new();
    push_form_encoded(&mut empty, "");
    assert_eq!(empty, "");
}

#[test]
fn the_segment_encoding_of_every_kind_of_byte() {
    let mut target = String::from(">");
    push_segment_encoded(&mut target, "az AZ09*-._~+%\n/?#é");
    assert_eq!(target, ">az%20AZ09%2A-._~%2B%25%0A%2F%3F%23%C3%A9");
    let mut empty = String::new();
    push_segment_encoded(&mut empty, "");
    assert_eq!(empty, "");
}

#[test]
fn texts_are_compared_letter_for_letter() {
    assert!(text_eq("", ""));
    assert!(text_eq("é197", "é197"));
    assert!(!text_eq("197", "198"));
    assert!(!text_eq("197", "1970"));
    assert!(!text_eq("a", "A"));
}
