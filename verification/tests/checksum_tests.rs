use sofa_registry::checksum::{slot_of_checksum, slot_of_key};

#[test]
fn slot_of_key_uses_crc32c() {
    // CRC-32C of "123456789" is 0xE3069283.
    assert_eq!(slot_of_key("123456789", 256), 0x83);
    assert_eq!(slot_of_key("123456789", 1000), 3808858755u32 % 1000);
    assert_eq!(slot_of_checksum(0xE3069283, 256), 0x83);
}

#[test]
fn slot_of_key_stays_below_slot_count() {
    for key in ["a", "svc.A#default#GRP", "", "some-longer-data-id"] {
        assert!(slot_of_key(key, 7) < 7);
    }
    assert_eq!(slot_of_key("anything", 1), 0);
}
