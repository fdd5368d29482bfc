use std::str::FromStr;

use ant_msgbus::uuid4::UuidError;
use ant_msgbus::UUID4;

fn text(u: &UUID4) -> String {
    String::from_utf8(u.as_bytes()[..36].to_vec()).unwrap()
}

#[test]
fn test_new() {
    let uuid = UUID4::new();
    let uuid_string = text(&uuid);
    let parsed = uuid::Uuid::parse_str(&uuid_string).unwrap();
    assert_eq!(parsed.get_version().unwrap(), uuid::Version::Random);
    assert_eq!(parsed.to_string().len(), 36);
    assert_eq!(&uuid_string[14..15], "4");
    let variant_char = &uuid_string[19..20];
    assert!(matches!(variant_char, "8" | "9" | "a" | "b" | "A" | "B"));
    assert_eq!(uuid.as_bytes()[36], 0);
}

#[test]
fn test_default() {
    let uuid = UUID4::default();
    let parsed = uuid::Uuid::parse_str(&text(&uuid)).unwrap();
    assert_eq!(parsed.get_version().unwrap(), uuid::Version::Random);
}

#[test]
fn random_bytes_get_version_and_variant_bits() {
    let u = UUID4::from_random_bytes([0xff; 16]);
    assert_eq!(text(&u), "ffffffff-ffff-4fff-bfff-ffffffffffff");
    let u = UUID4::from_random_bytes([0; 16]);
    assert_eq!(text(&u), "00000000-0000-4000-8000-000000000000");
    let bytes = [0x12, 0x34, 0x56, 0x78, 0x9a, 0xbc, 0xde, 0xf0, 0x12, 0x34, 0x56, 0x78, 0x9a, 0xbc, 0xde, 0xf0];
    assert_eq!(text(&UUID4::from_random_bytes(bytes)), "12345678-9abc-4ef0-9234-56789abcdef0");
}

#[test]
fn validate_v4_checks_version_and_variant() {
    let mut b = [0u8; 16];
    b[6] = 0x40;
    b[8] = 0x80;
    assert!(UUID4::validate_v4(&b));
    b[6] = 0x10;
    assert!(!UUID4::validate_v4(&b));
    b[6] = 0x4f;
    b[8] = 0xc0;
    assert!(!UUID4::validate_v4(&b));
}

#[test]
fn parse_round_trips_the_text() {
    let s = "2d89666b-1a1e-4a75-b193-4eb3b454c757";
    let u = UUID4::from_str(s).unwrap();
    assert_eq!(text(&u), s);
    let upper = UUID4::from_text("2D89666B1A1E4A75B1934EB3B454C757").unwrap();
    assert!(upper.same_as(&u));
    assert_eq!(upper, u);
}

#[test]
fn parse_rejects_other_versions_and_garbage() {
    assert!(matches!(
        UUID4::from_text("2d89666b-1a1e-1a75-b193-4eb3b454c757"),
        Err(UuidError::NotVersion4)
    ));
    assert!(matches!(UUID4::from_text("not a uuid"), Err(UuidError::Parse(_))));
}

#[test]
fn fresh_uuids_differ() {
    let a = UUID4::new();
    let b = UUID4::new();
    assert!(!a.same_as(&b));
    assert!(a.same_as(&a));
}
