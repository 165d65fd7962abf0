use capdl_initializer::descriptor::NetworkDescriptor;

#[test]
fn new_keeps_address_and_length() {
    let d = NetworkDescriptor::new(0x4000, 1500);
    assert_eq!(d.encoded_addr(), 0x4000);
    assert_eq!(d.len(), 1500);
}

#[test]
fn setters_change_one_field() {
    let mut d = NetworkDescriptor::new(0x4000, 1500);
    d.set_encoded_addr(0x8000);
    assert_eq!(d.encoded_addr(), 0x8000);
    assert_eq!(d.len(), 1500);
    d.set_len(64);
    assert_eq!(d.len(), 64);
    assert_eq!(d.encoded_addr(), 0x8000);
}

#[test]
fn range_round_trip() {
    let d = NetworkDescriptor::from_encoded_addr_range(0x1000..0x1600);
    assert_eq!(d.encoded_addr(), 0x1000);
    assert_eq!(d.len(), 0x600);
    assert_eq!(d.encoded_addr_range(), 0x1000..0x1600);
}

#[test]
fn reversed_range_is_empty() {
    #[allow(clippy::reversed_empty_ranges)]
    let d = NetworkDescriptor::from_encoded_addr_range(0x2000..0x1000);
    assert_eq!(d.encoded_addr(), 0x2000);
    assert_eq!(d.len(), 0);
    assert_eq!(d.encoded_addr_range(), 0x2000..0x2000);
}

#[test]
fn largest_length_range() {
    let d = NetworkDescriptor::from_encoded_addr_range(10..10 + 65535);
    assert_eq!(d.len(), u16::MAX);
    assert_eq!(d.encoded_addr_range(), 10..65545);
}
