use capdl_initializer::boot::{frame_contents, user_image_bounds, BootPhase};
use capdl_initializer::uart::{imx_can_transmit, meson_can_transmit, meson_control_enabled, transmit_word};

#[test]
fn phases_run_in_order() {
    let mut p = BootPhase::ReceivingBootInfo;
    let order = [
        BootPhase::ValidatingInventory,
        BootPhase::MaterializingObjects,
        BootPhase::WiringCapabilities,
        BootPhase::PopulatingAddressSpaces,
        BootPhase::LaunchingThreads,
        BootPhase::Quiescent,
    ];
    for next in order {
        assert!(!p.is_terminal());
        p = p.next_phase(true);
        assert_eq!(p, next);
    }
    assert!(p.is_terminal());
    assert_eq!(p.next_phase(false), BootPhase::Quiescent);
}

#[test]
fn any_failure_aborts_for_good() {
    assert_eq!(BootPhase::WiringCapabilities.next_phase(false), BootPhase::Aborted);
    assert_eq!(BootPhase::ReceivingBootInfo.next_phase(false), BootPhase::Aborted);
    assert_eq!(BootPhase::Aborted.next_phase(true), BootPhase::Aborted);
    assert!(BootPhase::Aborted.is_terminal());
}

#[test]
fn image_bounds_are_kept() {
    assert_eq!(user_image_bounds(0x40_0000, 0x48_0000), 0x40_0000..0x48_0000);
}

#[test]
fn frame_holds_image_range_then_zeros() {
    let image: Vec<u8> = (1u8..=32).collect();
    let f = frame_contents(&image, 8, 4, 16).unwrap();
    assert_eq!(f, vec![9, 10, 11, 12, 0, 0, 0, 0, 0, 0, 0, 0, 0, 0, 0, 0]);
    assert_eq!(frame_contents(&image, 0, 32, 32).unwrap(), image);
}

#[test]
fn frame_content_out_of_bounds() {
    let image: Vec<u8> = (1u8..=32).collect();
    assert_eq!(frame_contents(&image, 30, 4, 16), None);
    assert_eq!(frame_contents(&image, 0, 17, 16), None);
    assert_eq!(frame_contents(&image, u64::MAX, 2, 16), None);
}

#[test]
fn serial_register_values() {
    assert_eq!(meson_control_enabled(0), 0x1000);
    assert_eq!(meson_control_enabled(0x3), 0x1003);
    assert!(meson_can_transmit(0));
    assert!(!meson_can_transmit(1 << 21));
    assert!(!imx_can_transmit(0));
    assert!(imx_can_transmit(1 << 14));
    assert_eq!(transmit_word(b'A'), 0x41);
}
