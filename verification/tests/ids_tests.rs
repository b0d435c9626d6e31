use wishlist::ids::{contains_id, dedup_ids_exec, Uuid};

fn uuid(value: u128) -> Uuid {
    Uuid { value }
}

#[test]
fn parse_simple_value() {
    let parsed = Uuid::parse_str("00000000-0000-0000-0000-000000000001");
    assert_eq!(parsed, Some(uuid(1)));
}

#[test]
fn parse_full_value() {
    let parsed = Uuid::parse_str("ffffffff-ffff-ffff-ffff-ffffffffffff");
    assert_eq!(parsed, Some(uuid(u128::MAX)));
}

#[test]
fn parse_mixed_case() {
    let lower = Uuid::parse_str("936da01f-9abd-4d9d-80c7-02af85c822a8");
    let upper = Uuid::parse_str("936DA01F-9ABD-4D9D-80C7-02AF85C822A8");
    assert!(lower.is_some());
    assert_eq!(lower, upper);
    assert_eq!(lower.unwrap().value, 0x936da01f_9abd_4d9d_80c7_02af85c822a8);
}

#[test]
fn parse_rejects_wrong_length() {
    assert_eq!(Uuid::parse_str(""), None);
    assert_eq!(Uuid::parse_str("936da01f-9abd-4d9d-80c7-02af85c822a"), None);
    assert_eq!(Uuid::parse_str("936da01f-9abd-4d9d-80c7-02af85c822a8f"), None);
}

#[test]
fn parse_rejects_simple_form() {
    assert_eq!(Uuid::parse_str("936da01f9abd4d9d80c702af85c822a8"), None);
}

#[test]
fn parse_rejects_misplaced_hyphen() {
    assert_eq!(Uuid::parse_str("936da01f9-abd-4d9d-80c7-02af85c822a8"), None);
}

#[test]
fn parse_rejects_bad_digit() {
    assert_eq!(Uuid::parse_str("936da01g-9abd-4d9d-80c7-02af85c822a8"), None);
}

#[test]
fn format_is_hyphenated_lowercase() {
    let s = uuid(1).to_hyphenated();
    assert_eq!(s, "00000000-0000-0000-0000-000000000001");
    let s = uuid(0x936da01f_9abd_4d9d_80c7_02af85c822a8).to_hyphenated();
    assert_eq!(s, "936da01f-9abd-4d9d-80c7-02af85c822a8");
}

#[test]
fn format_then_parse_round_trip() {
    for value in [0u128, 1, 15, 16, u128::MAX, 0xdeadbeef_0000_4321_8765_001122334455] {
        let u = uuid(value);
        assert_eq!(Uuid::parse_str(&u.to_hyphenated()), Some(u));
    }
}

#[test]
fn fresh_ids_round_trip() {
    let u = Uuid::new_v4();
    assert_eq!(Uuid::parse_str(&u.to_hyphenated()), Some(u));
}

#[test]
fn contains_id_finds_members() {
    let v = vec![uuid(1), uuid(2), uuid(3)];
    assert!(contains_id(&v, uuid(2)));
    assert!(!contains_id(&v, uuid(4)));
}

#[test]
fn dedup_keeps_first_occurrences() {
    let v = vec![uuid(1), uuid(2), uuid(1), uuid(3), uuid(2)];
    let d = dedup_ids_exec(&v);
    assert_eq!(d, vec![uuid(1), uuid(2), uuid(3)]);
}
