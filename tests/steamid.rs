use demo_cheat_detect::steamid::{normalize_steamid, steamid_32_to_64, steamid_64_to_32};

#[test]
fn short_to_long() {
    assert_eq!(steamid_32_to_64("[U:1:123]"), Some(String::from("76561197960265851")));
    assert_eq!(steamid_32_to_64("[U:1:0]"), Some(String::from("76561197960265728")));
    assert_eq!(steamid_32_to_64("U:1:+5"), Some(String::from("76561197960265733")));
}

#[test]
fn short_to_long_failures() {
    assert_eq!(steamid_32_to_64("[U:1:]"), None);
    assert_eq!(steamid_32_to_64("[U:1]"), None);
    assert_eq!(steamid_32_to_64("[U:1:12x]"), None);
    assert_eq!(steamid_32_to_64("[U:1:18446744073709551615]"), None);
    assert_eq!(steamid_32_to_64("[U:1:5:6]"), Some(String::from("76561197960265733")));
}

#[test]
fn long_to_short() {
    assert_eq!(steamid_64_to_32("76561197960265851"), Some(String::from("[U:1:123]")));
    assert_eq!(steamid_64_to_32("76561197960265728"), None);
    assert_eq!(steamid_64_to_32("abc"), None);
    assert_eq!(steamid_64_to_32("99999999999999999999"), None);
}

#[test]
fn normalize_either_form() {
    assert_eq!(
        normalize_steamid("[U:1:123]"),
        Some((String::from("[U:1:123]"), String::from("76561197960265851")))
    );
    assert_eq!(
        normalize_steamid("76561197960265851"),
        Some((String::from("[U:1:123]"), String::from("76561197960265851")))
    );
    assert_eq!(normalize_steamid("123"), None);
    assert_eq!(normalize_steamid("7656119796026585x"), None);
    assert_eq!(normalize_steamid("[U:1:x]"), None);
}
