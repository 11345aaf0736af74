use campaign_router::device::{classify_device, classify_lowered, get_device_type, DeviceType};

#[test]
fn iphone_user_agent_is_mobile() {
    assert_eq!(
        classify_device(Some("Mozilla/5.0 (iPhone; CPU iPhone OS 14_0)")),
        DeviceType::Mobile
    );
    assert_eq!(get_device_type(Some("Mozilla/5.0 (iPhone; CPU iPhone OS 14_0)")), "Mobile");
}

#[test]
fn missing_user_agent_is_unknown() {
    assert_eq!(classify_device(None), DeviceType::Unknown);
    assert_eq!(get_device_type(None), "Unknown");
}

#[test]
fn desktop_browser_is_desktop() {
    let ua = "Mozilla/5.0 (Windows NT 10.0; Win64; x64) AppleWebKit/537.36 (KHTML, like Gecko) Chrome/120.0 Safari/537.36";
    assert_eq!(classify_device(Some(ua)), DeviceType::Desktop);
    assert_eq!(get_device_type(Some(ua)), "Desktop");
}

#[test]
fn matching_ignores_case() {
    assert_eq!(classify_device(Some("SOME ANDROID PHONE")), DeviceType::Mobile);
    assert_eq!(classify_device(Some("iPad; CPU OS")), DeviceType::Mobile);
    assert_eq!(classify_device(Some("Opera MOBILE")), DeviceType::Mobile);
}

#[test]
fn lowered_text_is_matched_as_given() {
    assert_eq!(classify_lowered("android"), DeviceType::Mobile);
    assert_eq!(classify_lowered("ANDROID"), DeviceType::Desktop);
    assert_eq!(classify_lowered(""), DeviceType::Desktop);
    assert_eq!(classify_lowered("ipa"), DeviceType::Desktop);
}

#[test]
fn empty_user_agent_is_desktop() {
    assert_eq!(classify_device(Some("")), DeviceType::Desktop);
}

#[test]
fn labels() {
    assert_eq!(DeviceType::Mobile.label(), "Mobile");
    assert_eq!(DeviceType::Desktop.label(), "Desktop");
    assert_eq!(DeviceType::Unknown.label(), "Unknown");
}
