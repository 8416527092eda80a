use dmv_api::structs::{Location, LocationMap, SchedulerError};
use dmv_api::utils::Utils;

fn office(id: &str, title: &str, street: &str, town: &str, zip: &str) -> (String, Location) {
    (
        String::from(id),
        Location {
            location_id: String::from(id),
            location_title: String::from(title),
            location_street: String::from(street),
            location_town: String::from(town),
            location_zip: String::from(zip),
        },
    )
}

fn licensing_locations() -> Vec<(String, Location)> {
    vec![
        office("186", "Bakers Basin", "3200 Brunswick Pike", "Lawrenceville", "08648"),
        office("197", "Freehold", "811 Okerson Road", "Freehold", "07728"),
        office("203", "Newark", "228 Frelinghuysen Avenue", "Newark", "07114"),
    ]
}

#[test]
fn it_creates_a_utils_struct() {
    Utils::new(licensing_locations()).unwrap();
}

#[test]
fn it_returns_the_location_mapping() {
    let utils = Utils::new(licensing_locations()).unwrap();
    let expected = LocationMap::from_entries(licensing_locations()).unwrap();
    assert_eq!(&expected, utils.get_location_mapping())
}

#[test]
fn it_returns_the_correct_location() {
    let utils = Utils::new(licensing_locations()).unwrap();
    let freehold_location = Location {
        location_id: String::from("197"),
        location_title: String::from("Freehold"),
        location_street: String::from("811 Okerson Road"),
        location_town: String::from("Freehold"),
        location_zip: String::from("07728"),
    };
    assert_eq!(
        utils
            .get_location_from_id(&freehold_location.location_id.to_string())
            .unwrap(),
        &freehold_location
    )
}

#[test]
fn every_id_looks_up_what_was_entered() {
    let entries = licensing_locations();
    let utils = Utils::new(licensing_locations()).unwrap();
    for (id, location) in entries.iter() {
        assert_eq!(utils.get_location_from_id(id), Ok(location));
    }
}

#[test]
fn ids_come_in_the_order_of_the_entries() {
    let utils = Utils::new(licensing_locations()).unwrap();
    assert_eq!(
        utils.get_location_id_collection(),
        vec![String::from("186"), String::from("197"), String::from("203")]
    );
    let map = utils.get_location_mapping();
    assert_eq!(map.len(), 3);
    assert_eq!(map.id_at(0), "186");
    assert_eq!(map.location_at(2).location_title, "Newark");
    assert_eq!(map.position("203"), Some(2));
    assert_eq!(map.position("204"), None);
}

#[test]
fn an_unknown_id_is_not_found() {
    let utils = Utils::new(licensing_locations()).unwrap();
    assert_eq!(
        utils.get_location_from_id("1"),
        Err(SchedulerError::NotFoundError)
    );
    assert_eq!(
        utils.get_location_from_id(""),
        Err(SchedulerError::NotFoundError)
    );
}

#[test]
fn a_repeated_id_is_a_configuration_error() {
    let mut entries = licensing_locations();
    entries.push(office("197", "Freehold Annex", "1 Main Street", "Freehold", "07728"));
    assert!(matches!(
        Utils::new(entries),
        Err(SchedulerError::ConfigError)
    ));
}

#[test]
fn the_key_and_not_the_record_names_an_office() {
    let mut entries = licensing_locations();
    entries[0].0 = String::from("A");
    let utils = Utils::new(entries).unwrap();
    assert_eq!(
        utils.get_location_from_id("A").unwrap().location_id,
        "186"
    );
    assert_eq!(
        utils.get_location_from_id("186"),
        Err(SchedulerError::NotFoundError)
    );
}

#[test]
fn an_empty_directory_is_a_directory() {
    let utils = Utils::new(Vec::new()).unwrap();
    assert_eq!(utils.get_location_mapping().len(), 0);
    assert!(utils.get_location_id_collection().is_empty());
}

#[test]
fn the_default_location_is_empty() {
    let empty = Location::default();
    assert_eq!(empty.location_id, "");
    assert_eq!(empty.location_zip, "");
    assert_eq!(empty.clone(), empty);
}

#[test]
fn errors_describe_themselves() {
    assert_eq!(SchedulerError::ConfigError.describe(), "configuration error");
    assert_eq!(SchedulerError::NotFoundError.describe(), "unknown location");
    assert_eq!(
        SchedulerError::TransportError.describe(),
        "availability request error"
    );
    assert_eq!(SchedulerError::NotificationError.describe(), "sms error");
}
