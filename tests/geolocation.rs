use campaign_router::geo::{location_from_lookup, location_lookup_url, IpLocation};

fn answer(status: &str, lat: Option<&str>, lon: Option<&str>) -> IpLocation {
    IpLocation {
        lat: lat.map(|s| s.to_string()),
        lon: lon.map(|s| s.to_string()),
        country: Some("Indonesia".to_string()),
        region_name: Some("Jakarta".to_string()),
        city: Some("Jakarta Selatan".to_string()),
        status: status.to_string(),
    }
}

#[test]
fn successful_answer_gives_place_and_link() {
    let (place, link) = location_from_lookup(Some(answer("success", Some("-6.2"), Some("106.8"))));
    assert_eq!(place, "Jakarta Selatan, Jakarta, Indonesia");
    assert_eq!(link, "https://www.google.com/maps?q=-6.2,106.8");
}

#[test]
fn missing_parts_are_dashes() {
    let mut a = answer("success", Some("1.5"), Some("2.5"));
    a.city = None;
    a.country = None;
    let (place, link) = location_from_lookup(Some(a));
    assert_eq!(place, "-, Jakarta, -");
    assert_eq!(link, "https://www.google.com/maps?q=1.5,2.5");
}

#[test]
fn missing_coordinate_gives_empty_texts() {
    let (place, link) = location_from_lookup(Some(answer("success", Some("1.5"), None)));
    assert_eq!((place.as_str(), link.as_str()), ("", ""));
    let (place, link) = location_from_lookup(Some(answer("success", None, Some("1.5"))));
    assert_eq!((place.as_str(), link.as_str()), ("", ""));
}

#[test]
fn failed_status_gives_empty_texts() {
    let (place, link) = location_from_lookup(Some(answer("fail", Some("1"), Some("2"))));
    assert_eq!((place.as_str(), link.as_str()), ("", ""));
}

#[test]
fn unreachable_service_gives_empty_texts() {
    let (place, link) = location_from_lookup(None);
    assert_eq!((place.as_str(), link.as_str()), ("", ""));
}

#[test]
fn lookup_address() {
    assert_eq!(location_lookup_url("114.10.153.22"), "http://ip-api.com/json/114.10.153.22");
}
