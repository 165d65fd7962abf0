use capdl_initializer::boot::frame_contents;
use capdl_initializer::inventory::{InitError, UntypedDesc};
use capdl_initializer::materialize::Placement;
use capdl_initializer::model::{CapEdge, ObjectDecl};
use capdl_initializer::plan::{check_contents, check_edges, check_threads, plan_boot, MapOp};

fn ram(paddr: u64, size_bits: u8) -> UntypedDesc {
    UntypedDesc { paddr, size_bits, is_device: false }
}

fn edge(owner: usize, slot: u64, target: usize) -> CapEdge {
    CapEdge { owner, slot, target, rights: 0b111, badge: 0, guard: 0 }
}

fn image() -> Vec<u8> {
    (0u8..64).map(|b| b.wrapping_mul(7).wrapping_add(3)).collect()
}

/// A node of 4 slots, an address space, a page table, a 4 KiB frame holding
/// the first 16 bytes of the image at 0x1000, and a thread rooted at both.
fn small_system() -> (Vec<ObjectDecl>, Vec<CapEdge>) {
    let objs = vec![
        ObjectDecl::CNode { size_bits: 2 },
        ObjectDecl::VSpace,
        ObjectDecl::PageTable,
        ObjectDecl::Frame { size_bits: 12, fixed: false, paddr: 0, content_offset: 0, content_len: 16 },
        ObjectDecl::Tcb { cspace: 0, vspace: 1, ip: 0x1000, sp: 0x2000, priority: 100, affinity: 0 },
    ];
    let edges = vec![
        edge(0, 0, 4),
        edge(0, 1, 1),
        edge(1, 0, 2),
        edge(2, 1, 3),
        edge(0, 2, 3),
    ];
    (objs, edges)
}

#[test]
fn small_system_maps_image_bytes_and_starts_thread() {
    let (objs, edges) = small_system();
    let img = image();
    let plan = plan_boot(&objs, &edges, &vec![ram(0x10_0000, 16)], &vec![], img.len()).unwrap();
    assert_eq!(plan.placements.len(), 5);
    assert_eq!(plan.placements[0], Placement::Retyped { region: 0, offset: 0, size_bits: 7 });
    assert_eq!(plan.placements[3], Placement::Retyped { region: 0, offset: 0x3000, size_bits: 12 });
    assert_eq!(plan.wires, vec![0, 1, 4]);
    assert_eq!(
        plan.table_maps,
        vec![MapOp { edge: 2, table: 1, index: 0, child: 2, vaddr: 0 }]
    );
    assert_eq!(
        plan.frame_maps,
        vec![MapOp { edge: 3, table: 2, index: 1, child: 3, vaddr: 0x1000 }]
    );
    assert_eq!(plan.fills, vec![3]);
    assert_eq!(plan.starts, vec![4]);
    let bytes = frame_contents(&img, 0, 16, 4096).unwrap();
    assert_eq!(&bytes[..16], &img[..16]);
}

#[test]
fn region_smaller_than_frame_aborts_in_materialization() {
    let objs = vec![ObjectDecl::Frame { size_bits: 12, fixed: false, paddr: 0, content_offset: 0, content_len: 0 }];
    let r = plan_boot(&objs, &vec![], &vec![ram(0, 10)], &vec![], 0);
    assert_eq!(r, Err(InitError::ResourceExhausted { object: 0 }));
}

#[test]
fn exhaustion_comes_before_any_wiring() {
    let (objs, edges) = small_system();
    let r = plan_boot(&objs, &edges, &vec![ram(0, 13)], &vec![], 64);
    assert_eq!(r, Err(InitError::ResourceExhausted { object: 2 }));
}

#[test]
fn inventory_mismatch_stops_before_objects() {
    let (objs, edges) = small_system();
    let r = plan_boot(&objs, &edges, &vec![ram(0, 16)], &vec![ram(0, 17)], 64);
    assert_eq!(r, Err(InitError::InventoryMismatch { index: 0 }));
    let r = plan_boot(&objs, &edges, &vec![ram(0, 16)], &vec![ram(0, 16), ram(0x10000, 16)], 64);
    assert_eq!(r, Err(InitError::InventoryMismatch { index: 1 }));
}

#[test]
fn two_runs_give_the_same_plan() {
    let (objs, edges) = small_system();
    let inv = vec![ram(0, 12), ram(0x10_0000, 14), ram(0x20_0000, 16)];
    let a = plan_boot(&objs, &edges, &inv, &inv.clone(), 64);
    let b = plan_boot(&objs, &edges, &inv, &inv.clone(), 64);
    assert!(a.is_ok());
    assert_eq!(a, b);
}

#[test]
fn wired_edges_name_created_objects_and_frames_follow_tables() {
    let (objs, edges) = small_system();
    let plan = plan_boot(&objs, &edges, &vec![ram(0, 16)], &vec![], 64).unwrap();
    for w in &plan.wires {
        assert!(edges[*w].owner < plan.placements.len());
        assert!(edges[*w].target < plan.placements.len());
    }
    for f in &plan.frame_maps {
        assert!(plan.table_maps.iter().any(|t| t.child == f.table));
    }
}

#[test]
fn slot_outside_node_is_a_bad_edge() {
    let (objs, mut edges) = small_system();
    edges[1].slot = 4;
    assert_eq!(check_edges(&objs, &edges), Err(InitError::BadEdge { edge: 1 }));
    let r = plan_boot(&objs, &edges, &vec![ram(0, 16)], &vec![], 64);
    assert_eq!(r, Err(InitError::BadEdge { edge: 1 }));
}

#[test]
fn missing_target_is_a_bad_edge() {
    let (objs, mut edges) = small_system();
    edges[0].target = 9;
    assert_eq!(check_edges(&objs, &edges), Err(InitError::BadEdge { edge: 0 }));
}

#[test]
fn unmapped_page_table_is_a_bad_edge() {
    let (objs, mut edges) = small_system();
    edges.remove(2);
    assert_eq!(check_edges(&objs, &edges), Err(InitError::BadEdge { edge: 2 }));
}

#[test]
fn endpoint_cannot_own_slots() {
    let objs = vec![ObjectDecl::Endpoint, ObjectDecl::Notification];
    assert_eq!(check_edges(&objs, &vec![edge(0, 0, 1)]), Err(InitError::BadEdge { edge: 0 }));
}

#[test]
fn content_outside_image_is_rejected() {
    let (objs, edges) = small_system();
    assert_eq!(check_contents(&objs, 15), Err(InitError::BadContent { object: 3 }));
    assert_eq!(check_contents(&objs, 16), Ok(()));
    let r = plan_boot(&objs, &edges, &vec![ram(0, 16)], &vec![], 8);
    assert_eq!(r, Err(InitError::BadContent { object: 3 }));
}

#[test]
fn content_larger_than_frame_is_rejected() {
    let objs = vec![ObjectDecl::Frame { size_bits: 4, fixed: false, paddr: 0, content_offset: 0, content_len: 17 }];
    assert_eq!(check_contents(&objs, 100), Err(InitError::BadContent { object: 0 }));
}

#[test]
fn thread_rooted_at_wrong_kinds_is_rejected() {
    let objs = vec![
        ObjectDecl::VSpace,
        ObjectDecl::CNode { size_bits: 2 },
        ObjectDecl::Tcb { cspace: 0, vspace: 1, ip: 0, sp: 0, priority: 0, affinity: 0 },
    ];
    assert_eq!(check_threads(&objs), Err(InitError::BadThread { object: 2 }));
    let r = plan_boot(&objs, &vec![], &vec![ram(0, 16)], &vec![], 0);
    assert_eq!(r, Err(InitError::BadThread { object: 2 }));
}

#[test]
fn overlapping_content_ranges_are_rejected() {
    let f = |content_offset: u64, content_len: u64| ObjectDecl::Frame {
        size_bits: 12,
        fixed: false,
        paddr: 0,
        content_offset,
        content_len,
    };
    let apart = vec![f(0, 16), f(16, 16), f(8, 0)];
    assert_eq!(check_contents(&apart, 64), Ok(()));
    let overlapping = vec![f(0, 16), ObjectDecl::Endpoint, f(15, 4)];
    assert_eq!(check_contents(&overlapping, 64), Err(InitError::BadContent { object: 2 }));
}
