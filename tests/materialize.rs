use capdl_initializer::inventory::{InitError, UntypedDesc};
use capdl_initializer::materialize::{materialize, pow2_u64, Placement};
use capdl_initializer::model::{object_bits, ObjectDecl};

fn ram(paddr: u64, size_bits: u8) -> UntypedDesc {
    UntypedDesc { paddr, size_bits, is_device: false }
}

fn frame(size_bits: u8) -> ObjectDecl {
    ObjectDecl::Frame { size_bits, fixed: false, paddr: 0, content_offset: 0, content_len: 0 }
}

fn fixed_frame(size_bits: u8, paddr: u64) -> ObjectDecl {
    ObjectDecl::Frame { size_bits, fixed: true, paddr, content_offset: 0, content_len: 0 }
}

#[test]
fn powers_of_two() {
    assert_eq!(pow2_u64(0), 1);
    assert_eq!(pow2_u64(12), 4096);
    assert_eq!(pow2_u64(63), 1u64 << 63);
}

#[test]
fn object_sizes() {
    assert_eq!(object_bits(&ObjectDecl::CNode { size_bits: 2 }), Some(7));
    assert_eq!(object_bits(&ObjectDecl::VSpace), Some(12));
    assert_eq!(object_bits(&ObjectDecl::Endpoint), Some(4));
    assert_eq!(object_bits(&ObjectDecl::IrqHandler { irq: 3 }), None);
    assert_eq!(object_bits(&frame(21)), Some(21));
}

#[test]
fn objects_are_packed_with_alignment() {
    let objs = vec![ObjectDecl::Endpoint, frame(12), ObjectDecl::Notification];
    let regions = vec![ram(0x10_0000, 16)];
    assert_eq!(
        materialize(&objs, &regions),
        Ok(vec![
            Placement::Retyped { region: 0, offset: 0, size_bits: 4 },
            Placement::Retyped { region: 0, offset: 0x1000, size_bits: 12 },
            Placement::Retyped { region: 0, offset: 0x2000, size_bits: 5 },
        ])
    );
}

#[test]
fn first_region_that_fits_is_taken() {
    let objs = vec![frame(12), frame(12), frame(12)];
    let regions = vec![ram(0, 11), ram(0x10000, 13), ram(0x20000, 14)];
    assert_eq!(
        materialize(&objs, &regions),
        Ok(vec![
            Placement::Retyped { region: 1, offset: 0, size_bits: 12 },
            Placement::Retyped { region: 1, offset: 0x1000, size_bits: 12 },
            Placement::Retyped { region: 2, offset: 0, size_bits: 12 },
        ])
    );
}

#[test]
fn device_memory_is_not_used_for_general_objects() {
    let objs = vec![ObjectDecl::Endpoint];
    let regions = vec![UntypedDesc { paddr: 0, size_bits: 20, is_device: true }, ram(0x1000, 12)];
    assert_eq!(
        materialize(&objs, &regions),
        Ok(vec![Placement::Retyped { region: 1, offset: 0, size_bits: 4 }])
    );
}

#[test]
fn fixed_frame_goes_to_its_address_and_reserves_the_region() {
    let objs = vec![ObjectDecl::Endpoint, fixed_frame(12, 0xfe00_3000)];
    let regions = vec![
        UntypedDesc { paddr: 0xfe00_0000, size_bits: 16, is_device: true },
        ram(0x4000_0000, 16),
    ];
    assert_eq!(
        materialize(&objs, &regions),
        Ok(vec![
            Placement::Retyped { region: 1, offset: 0, size_bits: 4 },
            Placement::Retyped { region: 0, offset: 0x3000, size_bits: 12 },
        ])
    );
}

#[test]
fn reserved_ram_region_is_skipped_by_general_objects() {
    let objs = vec![ObjectDecl::Endpoint, fixed_frame(12, 0x1000)];
    let regions = vec![ram(0, 16), ram(0x10_0000, 16)];
    assert_eq!(
        materialize(&objs, &regions),
        Ok(vec![
            Placement::Retyped { region: 1, offset: 0, size_bits: 4 },
            Placement::Retyped { region: 0, offset: 0x1000, size_bits: 12 },
        ])
    );
}

#[test]
fn misaligned_fixed_frame_does_not_fit() {
    let objs = vec![fixed_frame(12, 0x1800)];
    let regions = vec![ram(0, 16)];
    assert_eq!(materialize(&objs, &regions), Err(InitError::ResourceExhausted { object: 0 }));
}

#[test]
fn interrupt_handlers_take_no_memory() {
    let objs = vec![ObjectDecl::IrqHandler { irq: 27 }, ObjectDecl::Endpoint];
    let regions = vec![ram(0, 4)];
    assert_eq!(
        materialize(&objs, &regions),
        Ok(vec![Placement::Issued, Placement::Retyped { region: 0, offset: 0, size_bits: 4 }])
    );
}

#[test]
fn exhaustion_names_the_first_object_that_does_not_fit() {
    let objs = vec![frame(12), frame(12), frame(12)];
    let regions = vec![ram(0, 13)];
    assert_eq!(materialize(&objs, &regions), Err(InitError::ResourceExhausted { object: 2 }));
}

#[test]
fn conservation_on_a_full_region() {
    let objs = vec![frame(12), ObjectDecl::Endpoint, frame(13)];
    let regions = vec![ram(0, 14)];
    let pls = materialize(&objs, &regions).unwrap();
    let mut taken = 0u64;
    let mut ends = Vec::new();
    for p in &pls {
        if let Placement::Retyped { region, offset, size_bits } = *p {
            assert_eq!(region, 0);
            taken += 1u64 << size_bits;
            ends.push((offset, offset + (1u64 << size_bits)));
        }
    }
    assert!(taken <= 1u64 << 14);
    for i in 0..ends.len() {
        for j in 0..ends.len() {
            if i != j {
                assert!(ends[i].1 <= ends[j].0 || ends[j].1 <= ends[i].0);
            }
        }
        assert!(ends[i].1 <= 1u64 << 14);
    }
}
