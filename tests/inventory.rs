use capdl_initializer::inventory::{check_expected_untypeds, decode_untyped_descs, InitError, UntypedDesc};

fn desc(paddr: u64, size_bits: u8, is_device: bool) -> UntypedDesc {
    UntypedDesc { paddr, size_bits, is_device }
}

#[test]
fn no_expected_list_passes() {
    let actual = vec![desc(0, 20, false)];
    assert_eq!(check_expected_untypeds(&actual, &vec![]), Ok(()));
}

#[test]
fn equal_lists_pass() {
    let actual = vec![desc(0x1000_0000, 20, false), desc(0xfe00_0000, 12, true)];
    assert_eq!(check_expected_untypeds(&actual, &actual.clone()), Ok(()));
}

#[test]
fn size_mismatch_is_reported_at_its_index() {
    let actual = vec![desc(0, 20, false), desc(0, 21, false)];
    let expected = vec![desc(0, 20, false), desc(0, 22, false)];
    assert_eq!(
        check_expected_untypeds(&actual, &expected),
        Err(InitError::InventoryMismatch { index: 1 })
    );
}

#[test]
fn device_flag_mismatch_is_reported() {
    let actual = vec![desc(0, 12, true)];
    let expected = vec![desc(0, 12, false)];
    assert_eq!(
        check_expected_untypeds(&actual, &expected),
        Err(InitError::InventoryMismatch { index: 0 })
    );
}

#[test]
fn device_address_mismatch_is_reported() {
    let actual = vec![desc(0xfe00_0000, 12, true)];
    let expected = vec![desc(0xfe00_1000, 12, true)];
    assert_eq!(
        check_expected_untypeds(&actual, &expected),
        Err(InitError::InventoryMismatch { index: 0 })
    );
}

#[test]
fn ram_address_is_not_compared() {
    let actual = vec![desc(0x1000_0000, 20, false)];
    let expected = vec![desc(0x2000_0000, 20, false)];
    assert_eq!(check_expected_untypeds(&actual, &expected), Ok(()));
}

#[test]
fn length_mismatch_is_reported_after_common_prefix() {
    let actual = vec![desc(0, 20, false), desc(0, 21, false)];
    let expected = vec![desc(0, 20, false)];
    assert_eq!(
        check_expected_untypeds(&actual, &expected),
        Err(InitError::InventoryMismatch { index: 1 })
    );
}

fn encode(d: &UntypedDesc) -> Vec<u8> {
    let mut v = d.paddr.to_le_bytes().to_vec();
    v.push(d.size_bits);
    v.push(d.is_device as u8);
    v.extend_from_slice(&[0; 6]);
    v
}

#[test]
fn decode_reads_little_endian_entries() {
    let a = desc(0x0102_0304_0506_0708, 20, false);
    let b = desc(0xfe00_0000, 12, true);
    let mut bytes = encode(&a);
    bytes.extend(encode(&b));
    bytes.extend(vec![0u8; 32]);
    assert_eq!(decode_untyped_descs(&bytes, 2, 230), vec![a, b]);
}

#[test]
fn decode_is_cut_to_maximum_and_buffer() {
    let a = desc(0x1000, 16, false);
    let mut bytes = encode(&a);
    bytes.extend(encode(&a));
    assert_eq!(decode_untyped_descs(&bytes, 5, 1), vec![a]);
    assert_eq!(decode_untyped_descs(&bytes, 5, 230), vec![a, a]);
    assert_eq!(decode_untyped_descs(&bytes, 0, 230), vec![]);
}
