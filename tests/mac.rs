use actionkv::mac::MacAddress;

#[test]
fn new_address_is_local_and_unicast() {
    let mac = MacAddress::new();
    assert!(mac.is_local());
    assert!(mac.is_unicast());
}

#[test]
fn from_octets_sets_low_bits() {
    let mac = MacAddress::from_octets([0x00, 0x11, 0x22, 0x33, 0x44, 0x55]);
    assert_eq!(mac.0, [0x03, 0x11, 0x22, 0x33, 0x44, 0x55]);
    let mac = MacAddress::from_octets([0xfc, 0, 0, 0, 0, 0]);
    assert_eq!(mac.0[0], 0xff);
}

#[test]
fn bit_tests() {
    assert!(!MacAddress([0x00, 0, 0, 0, 0, 0]).is_local());
    assert!(!MacAddress([0x00, 0, 0, 0, 0, 0]).is_unicast());
    assert!(MacAddress([0x02, 0, 0, 0, 0, 0]).is_local());
    assert!(!MacAddress([0x02, 0, 0, 0, 0, 0]).is_unicast());
    assert!(MacAddress([0x01, 0, 0, 0, 0, 0]).is_unicast());
    assert!(!MacAddress([0x01, 0, 0, 0, 0, 0]).is_local());
}

#[test]
fn to_string_is_colon_separated_hex() {
    let mac = MacAddress([0x02, 0x00, 0x5e, 0x10, 0xab, 0xff]);
    assert_eq!(mac.to_string(), "02:00:5e:10:ab:ff");
}
