//! The whole bootstrap plan: which objects to create, which capabilities to
//! install, which address-space entries to map, which frames to fill and which
//! threads to start, in that order.
use vstd::arithmetic::power2::pow2;
use vstd::prelude::*;

use crate::inventory::{check_expected_untypeds, first_mismatch, InitError, UntypedDesc};
use crate::materialize::{inventory_wf, materialization, materialize, pow2_u64, Placement};
use crate::model::{CapEdge, ObjectDecl};

verus! {

/// Entries in one address-space root or page table.
pub const TABLE_ENTRIES: u64 = 512;

/// Bytes covered by one entry of an address-space root.
pub const ROOT_ENTRY_SPAN: u64 = 0x200000;

/// Bytes covered by one entry of a page table.
pub const TABLE_ENTRY_SPAN: u64 = 0x1000;

/// One address-space mapping: entry `index` of `table` maps `child`, which
/// then appears at virtual address `vaddr`.
#[derive(Clone, Copy, Debug, PartialEq, Eq, Structural)]
pub struct MapOp {
    pub edge: usize,
    pub table: usize,
    pub index: u64,
    pub child: usize,
    pub vaddr: u64,
}

/// The first edge from `i` on that maps object `t` into an address-space root.
pub open spec fn root_edge_to(objs: Seq<ObjectDecl>, edges: Seq<CapEdge>, t: int, i: int) -> Option<
    int,
>
    decreases edges.len() - i,
{
    if i < 0 || i >= edges.len() {
        None
    } else if edges[i].owner < objs.len() && objs[edges[i].owner as int] is VSpace
        && edges[i].target == t {
        Some(i)
    } else {
        root_edge_to(objs, edges, t, i + 1)
    }
}

/// An edge names existing objects, an owner that has slots or entries, a slot
/// in range and a target of a kind the owner can hold. A page table must
/// itself be mapped into some address-space root.
pub open spec fn edge_ok(objs: Seq<ObjectDecl>, edges: Seq<CapEdge>, e: CapEdge) -> bool {
    &&& e.owner < objs.len()
    &&& e.target < objs.len()
    &&& match objs[e.owner as int] {
        ObjectDecl::CNode { size_bits } => size_bits < 64 ==> e.slot < pow2(size_bits as nat),
        ObjectDecl::VSpace => e.slot < TABLE_ENTRIES && (objs[e.target as int] is PageTable
            || objs[e.target as int] is Frame),
        ObjectDecl::PageTable => e.slot < TABLE_ENTRIES && objs[e.target as int] is Frame
            && root_edge_to(objs, edges, e.owner as int, 0) is Some,
        _ => false,
    }
}

/// The first edge from `i` on that is not well formed.
pub open spec fn first_bad_edge(objs: Seq<ObjectDecl>, edges: Seq<CapEdge>, i: int) -> Option<int>
    decreases edges.len() - i,
{
    if i < 0 || i >= edges.len() {
        None
    } else if !edge_ok(objs, edges, edges[i]) {
        Some(i)
    } else {
        first_bad_edge(objs, edges, i + 1)
    }
}

/// Object `o` is a frame whose content range meets `[offset, offset + len)`.
pub open spec fn content_overlaps(o: ObjectDecl, offset: int, len: int) -> bool {
    match o {
        ObjectDecl::Frame { content_offset, content_len, .. } => content_len > 0 && content_offset
            < offset + len && offset < content_offset + content_len,
        _ => false,
    }
}

/// Object `k`'s content range, if it has one, lies inside the image and
/// inside the frame, and meets the range of no earlier frame.
pub open spec fn content_ok(objs: Seq<ObjectDecl>, k: int, image_len: nat) -> bool {
    match objs[k] {
        ObjectDecl::Frame { size_bits, content_offset, content_len, .. } => content_len == 0 || (
        content_offset + content_len <= image_len && (size_bits < 64 ==> content_len <= pow2(
            size_bits as nat,
        )) && forall|j: int|
            0 <= j < k ==> !content_overlaps(
                #[trigger] objs[j],
                content_offset as int,
                content_len as int,
            )),
        _ => true,
    }
}

/// The first object from `i` on whose content range is out of bounds or
/// overlaps an earlier one.
pub open spec fn first_bad_content(objs: Seq<ObjectDecl>, image_len: nat, i: int) -> Option<int>
    decreases objs.len() - i,
{
    if i < 0 || i >= objs.len() {
        None
    } else if !content_ok(objs, i, image_len) {
        Some(i)
    } else {
        first_bad_content(objs, image_len, i + 1)
    }
}

/// A thread's capability space is a capability-space node and its address
/// space is an address-space root.
pub open spec fn thread_ok(objs: Seq<ObjectDecl>, o: ObjectDecl) -> bool {
    match o {
        ObjectDecl::Tcb { cspace, vspace, .. } => cspace < objs.len() && objs[cspace as int] is CNode
            && vspace < objs.len() && objs[vspace as int] is VSpace,
        _ => true,
    }
}

/// The first object from `i` on that is a badly rooted thread.
pub open spec fn first_bad_thread(objs: Seq<ObjectDecl>, i: int) -> Option<int>
    decreases objs.len() - i,
{
    if i < 0 || i >= objs.len() {
        None
    } else if !thread_ok(objs, objs[i]) {
        Some(i)
    } else {
        first_bad_thread(objs, i + 1)
    }
}

/// The edges among the first `n` owned by capability-space nodes, in order.
pub open spec fn wire_list(objs: Seq<ObjectDecl>, edges: Seq<CapEdge>, n: nat) -> Seq<usize>
    decreases n,
{
    if n == 0 {
        Seq::empty()
    } else {
        let prev = wire_list(objs, edges, (n - 1) as nat);
        if objs[edges[n - 1].owner as int] is CNode {
            prev.push((n - 1) as usize)
        } else {
            prev
        }
    }
}

/// The mappings into address-space roots among the first `n` edges, in order.
pub open spec fn table_map_list(objs: Seq<ObjectDecl>, edges: Seq<CapEdge>, n: nat) -> Seq<MapOp>
    decreases n,
{
    if n == 0 {
        Seq::empty()
    } else {
        let prev = table_map_list(objs, edges, (n - 1) as nat);
        let e = edges[n - 1];
        if objs[e.owner as int] is VSpace {
            prev.push(
                MapOp {
                    edge: (n - 1) as usize,
                    table: e.owner,
                    index: e.slot,
                    child: e.target,
                    vaddr: (e.slot * ROOT_ENTRY_SPAN) as u64,
                },
            )
        } else {
            prev
        }
    }
}

/// The mappings into page tables among the first `n` edges, in order. A
/// frame's address combines the root entry that maps its table with the
/// table entry that maps it.
pub open spec fn frame_map_list(objs: Seq<ObjectDecl>, edges: Seq<CapEdge>, n: nat) -> Seq<MapOp>
    decreases n,
{
    if n == 0 {
        Seq::empty()
    } else {
        let prev = frame_map_list(objs, edges, (n - 1) as nat);
        let e = edges[n - 1];
        if objs[e.owner as int] is PageTable {
            let upper = match root_edge_to(objs, edges, e.owner as int, 0) {
                Some(j) => edges[j].slot as int,
                None => 0,
            };
            prev.push(
                MapOp {
                    edge: (n - 1) as usize,
                    table: e.owner,
                    index: e.slot,
                    child: e.target,
                    vaddr: (upper * ROOT_ENTRY_SPAN + e.slot * TABLE_ENTRY_SPAN) as u64,
                },
            )
        } else {
            prev
        }
    }
}

/// The frames among the first `n` objects that carry content, in order.
pub open spec fn fill_list(objs: Seq<ObjectDecl>, n: nat) -> Seq<usize>
    decreases n,
{
    if n == 0 {
        Seq::empty()
    } else {
        let prev = fill_list(objs, (n - 1) as nat);
        match objs[n - 1] {
            ObjectDecl::Frame { content_len, .. } => if content_len > 0 {
                prev.push((n - 1) as usize)
            } else {
                prev
            },
            _ => prev,
        }
    }
}

/// The threads among the first `n` objects, in order.
pub open spec fn start_list(objs: Seq<ObjectDecl>, n: nat) -> Seq<usize>
    decreases n,
{
    if n == 0 {
        Seq::empty()
    } else {
        let prev = start_list(objs, (n - 1) as nat);
        if objs[n - 1] is Tcb {
            prev.push((n - 1) as usize)
        } else {
            prev
        }
    }
}

/// What a plan holds, phase by phase.
pub struct PlanView {
    pub placements: Seq<Placement>,
    pub wires: Seq<usize>,
    pub table_maps: Seq<MapOp>,
    pub frame_maps: Seq<MapOp>,
    pub fills: Seq<usize>,
    pub starts: Seq<usize>,
}

/// The plan for a declared system on a given inventory, or the first fatal
/// error: an inventory mismatch, then an object that does not fit, then a bad
/// edge, then a bad content range, then a badly rooted thread.
pub open spec fn boot_plan(
    objs: Seq<ObjectDecl>,
    edges: Seq<CapEdge>,
    inventory: Seq<UntypedDesc>,
    expected: Seq<UntypedDesc>,
    image_len: nat,
) -> Result<PlanView, InitError> {
    match first_mismatch(inventory, expected) {
        Some(i) => Err(InitError::InventoryMismatch { index: i as usize }),
        None => match materialization(objs, inventory) {
            Err(e) => Err(e),
            Ok(pls) => match first_bad_edge(objs, edges, 0) {
                Some(e) => Err(InitError::BadEdge { edge: e as usize }),
                None => match first_bad_content(objs, image_len, 0) {
                    Some(k) => Err(InitError::BadContent { object: k as usize }),
                    None => match first_bad_thread(objs, 0) {
                        Some(k) => Err(InitError::BadThread { object: k as usize }),
                        None => Ok(
                            PlanView {
                                placements: pls,
                                wires: wire_list(objs, edges, edges.len()),
                                table_maps: table_map_list(objs, edges, edges.len()),
                                frame_maps: frame_map_list(objs, edges, edges.len()),
                                fills: fill_list(objs, objs.len()),
                                starts: start_list(objs, objs.len()),
                            },
                        ),
                    },
                },
            },
        },
    }
}

/// A bootstrap plan. It is carried out phase by phase: every object in
/// `placements` (object `k` at index `k`), then every edge in `wires`, then
/// `table_maps`, then `frame_maps`, then the frames in `fills`, and last the
/// threads in `starts`.
#[derive(Debug, PartialEq, Eq)]
pub struct BootPlan {
    pub placements: Vec<Placement>,
    pub wires: Vec<usize>,
    pub table_maps: Vec<MapOp>,
    pub frame_maps: Vec<MapOp>,
    pub fills: Vec<usize>,
    pub starts: Vec<usize>,
}

impl View for BootPlan {
    type V = PlanView;

    open spec fn view(&self) -> PlanView {
        PlanView {
            placements: self.placements@,
            wires: self.wires@,
            table_maps: self.table_maps@,
            frame_maps: self.frame_maps@,
            fills: self.fills@,
            starts: self.starts@,
        }
    }
}


fn find_root_edge(objs: &Vec<ObjectDecl>, edges: &Vec<CapEdge>, t: usize) -> (r: Option<usize>)
    ensures
        match r {
            None => root_edge_to(objs@, edges@, t as int, 0) == None::<int>,
            Some(j) => root_edge_to(objs@, edges@, t as int, 0) == Some(j as int) && j
                < edges@.len(),
        },
{
    let mut i: usize = 0;
    while i < edges.len()
        invariant
            i <= edges@.len(),
            root_edge_to(objs@, edges@, t as int, 0) == root_edge_to(
                objs@,
                edges@,
                t as int,
                i as int,
            ),
        decreases edges@.len() - i,
    {
        let e = edges[i];
        if e.owner < objs.len() && matches!(objs[e.owner], ObjectDecl::VSpace) && e.target == t {
            return Some(i);
        }
        i = i + 1;
    }
    None
}

fn edge_is_ok(objs: &Vec<ObjectDecl>, edges: &Vec<CapEdge>, e: &CapEdge) -> (r: bool)
    ensures
        r == edge_ok(objs@, edges@, *e),
{
    if e.owner >= objs.len() || e.target >= objs.len() {
        return false;
    }
    match objs[e.owner] {
        ObjectDecl::CNode { size_bits } => {
            if size_bits >= 64 {
                true
            } else {
                e.slot < pow2_u64(size_bits as u32)
            }
        },
        ObjectDecl::VSpace => e.slot < TABLE_ENTRIES && (matches!(
            objs[e.target],
            ObjectDecl::PageTable
        ) || matches!(objs[e.target], ObjectDecl::Frame { .. })),
        ObjectDecl::PageTable => e.slot < TABLE_ENTRIES && matches!(
            objs[e.target],
            ObjectDecl::Frame { .. }
        ) && find_root_edge(objs, edges, e.owner).is_some(),
        _ => false,
    }
}

/// Checks every edge, in order.
pub fn check_edges(objs: &Vec<ObjectDecl>, edges: &Vec<CapEdge>) -> (r: Result<(), InitError>)
    ensures
        r == (match first_bad_edge(objs@, edges@, 0) {
            None => Ok(()),
            Some(e) => Err(InitError::BadEdge { edge: e as usize }),
        }),
{
    let mut i: usize = 0;
    while i < edges.len()
        invariant
            i <= edges@.len(),
            first_bad_edge(objs@, edges@, 0) == first_bad_edge(objs@, edges@, i as int),
        decreases edges@.len() - i,
    {
        if !edge_is_ok(objs, edges, &edges[i]) {
            return Err(InitError::BadEdge { edge: i });
        }
        i = i + 1;
    }
    Ok(())
}

/// Whether some frame before object `k` has content meeting
/// `[offset, offset + len)`.
fn overlaps_earlier(objs: &Vec<ObjectDecl>, k: usize, offset: u64, len: u64) -> (r: bool)
    requires
        k <= objs@.len(),
    ensures
        r == exists|j: int|
            0 <= j < k && content_overlaps(#[trigger] objs@[j], offset as int, len as int),
{
    let mut j: usize = 0;
    while j < k
        invariant
            j <= k,
            k <= objs@.len(),
            forall|i: int|
                0 <= i < j ==> !content_overlaps(#[trigger] objs@[i], offset as int, len as int),
        decreases k - j,
    {
        match objs[j] {
            ObjectDecl::Frame { content_offset, content_len, .. } => {
                if content_len > 0 && (content_offset as u128) < offset as u128 + len as u128
                    && (offset as u128) < content_offset as u128 + content_len as u128 {
                    assert(content_overlaps(objs@[j as int], offset as int, len as int));
                    return true;
                }
            },
            _ => {},
        }
        j = j + 1;
    }
    false
}

/// Checks every frame's content range against an image of `image_len` bytes
/// and against the ranges of earlier frames.
pub fn check_contents(objs: &Vec<ObjectDecl>, image_len: usize) -> (r: Result<(), InitError>)
    ensures
        r == (match first_bad_content(objs@, image_len as nat, 0) {
            None => Ok(()),
            Some(k) => Err(InitError::BadContent { object: k as usize }),
        }),
{
    let mut i: usize = 0;
    while i < objs.len()
        invariant
            i <= objs@.len(),
            first_bad_content(objs@, image_len as nat, 0) == first_bad_content(
                objs@,
                image_len as nat,
                i as int,
            ),
        decreases objs@.len() - i,
    {
        match objs[i] {
            ObjectDecl::Frame { size_bits, content_offset, content_len, .. } => {
                if content_len != 0 {
                    let in_image = content_offset as u128 + content_len as u128
                        <= image_len as u128;
                    let in_frame = size_bits >= 64 || content_len <= pow2_u64(size_bits as u32);
                    let apart = !overlaps_earlier(objs, i, content_offset, content_len);
                    if !(in_image && in_frame && apart) {
                        return Err(InitError::BadContent { object: i });
                    }
                }
            },
            _ => {},
        }
        i = i + 1;
    }
    Ok(())
}

/// Checks that every thread is rooted at a capability-space node and an
/// address-space root.
pub fn check_threads(objs: &Vec<ObjectDecl>) -> (r: Result<(), InitError>)
    ensures
        r == (match first_bad_thread(objs@, 0) {
            None => Ok(()),
            Some(k) => Err(InitError::BadThread { object: k as usize }),
        }),
{
    let mut i: usize = 0;
    while i < objs.len()
        invariant
            i <= objs@.len(),
            first_bad_thread(objs@, 0) == first_bad_thread(objs@, i as int),
        decreases objs@.len() - i,
    {
        match objs[i] {
            ObjectDecl::Tcb { cspace, vspace, .. } => {
                if !(cspace < objs.len() && matches!(objs[cspace], ObjectDecl::CNode { .. })
                    && vspace < objs.len() && matches!(objs[vspace], ObjectDecl::VSpace)) {
                    return Err(InitError::BadThread { object: i });
                }
            },
            _ => {},
        }
        i = i + 1;
    }
    Ok(())
}

/// Lists the wiring and mapping phases of a plan whose edges all passed
/// `check_edges`.
fn edge_phases(objs: &Vec<ObjectDecl>, edges: &Vec<CapEdge>) -> (r: (
    Vec<usize>,
    Vec<MapOp>,
    Vec<MapOp>,
))
    requires
        first_bad_edge(objs@, edges@, 0) is None,
    ensures
        r.0@ == wire_list(objs@, edges@, edges@.len()),
        r.1@ == table_map_list(objs@, edges@, edges@.len()),
        r.2@ == frame_map_list(objs@, edges@, edges@.len()),
{
    let mut wires: Vec<usize> = Vec::new();
    let mut tables: Vec<MapOp> = Vec::new();
    let mut frames: Vec<MapOp> = Vec::new();
    let mut i: usize = 0;
    while i < edges.len()
        invariant
            i <= edges@.len(),
            first_bad_edge(objs@, edges@, 0) is None,
            wires@ == wire_list(objs@, edges@, i as nat),
            tables@ == table_map_list(objs@, edges@, i as nat),
            frames@ == frame_map_list(objs@, edges@, i as nat),
        decreases edges@.len() - i,
    {
        let e = edges[i];
        proof {
            lemma_no_bad_edge(objs@, edges@, 0, i as int);
        }
        match objs[e.owner] {
            ObjectDecl::CNode { .. } => {
                wires.push(i);
            },
            ObjectDecl::VSpace => {
                tables.push(
                    MapOp {
                        edge: i,
                        table: e.owner,
                        index: e.slot,
                        child: e.target,
                        vaddr: e.slot * ROOT_ENTRY_SPAN,
                    },
                );
            },
            ObjectDecl::PageTable => {
                match find_root_edge(objs, edges, e.owner) {
                    Some(j) => {
                        let upper = edges[j].slot;
                        proof {
                            assert(edge_ok(objs@, edges@, edges@[j as int])) by {
                                lemma_no_bad_edge(objs@, edges@, 0, j as int);
                            }
                            lemma_root_edge(objs@, edges@, e.owner as int, 0);
                        }
                        frames.push(
                            MapOp {
                                edge: i,
                                table: e.owner,
                                index: e.slot,
                                child: e.target,
                                vaddr: upper * ROOT_ENTRY_SPAN + e.slot * TABLE_ENTRY_SPAN,
                            },
                        );
                    },
                    None => {},
                }
            },
            _ => {},
        }
        i = i + 1;
    }
    (wires, tables, frames)
}

proof fn lemma_no_bad_edge(objs: Seq<ObjectDecl>, edges: Seq<CapEdge>, i: int, j: int)
    requires
        0 <= i <= j < edges.len(),
        first_bad_edge(objs, edges, i) is None,
    ensures
        edge_ok(objs, edges, edges[j]),
    decreases j - i,
{
    if i < j {
        lemma_no_bad_edge(objs, edges, i + 1, j);
    }
}

proof fn lemma_root_edge(objs: Seq<ObjectDecl>, edges: Seq<CapEdge>, t: int, i: int)
    ensures
        match root_edge_to(objs, edges, t, i) {
            Some(j) => i <= j < edges.len() && edges[j].owner < objs.len()
                && objs[edges[j].owner as int] is VSpace && edges[j].target == t,
            None => true,
        },
    decreases edges.len() - i,
{
    if 0 <= i < edges.len() && !(edges[i].owner < objs.len() && objs[edges[i].owner as int] is VSpace
        && edges[i].target == t) {
        lemma_root_edge(objs, edges, t, i + 1);
    }
}

/// Lists the frames to fill and the threads to start.
fn object_phases(objs: &Vec<ObjectDecl>) -> (r: (Vec<usize>, Vec<usize>))
    ensures
        r.0@ == fill_list(objs@, objs@.len()),
        r.1@ == start_list(objs@, objs@.len()),
{
    let mut fills: Vec<usize> = Vec::new();
    let mut starts: Vec<usize> = Vec::new();
    let mut i: usize = 0;
    while i < objs.len()
        invariant
            i <= objs@.len(),
            fills@ == fill_list(objs@, i as nat),
            starts@ == start_list(objs@, i as nat),
        decreases objs@.len() - i,
    {
        match objs[i] {
            ObjectDecl::Frame { content_len, .. } => {
                if content_len > 0 {
                    fills.push(i);
                }
            },
            ObjectDecl::Tcb { .. } => {
                starts.push(i);
            },
            _ => {},
        }
        i = i + 1;
    }
    (fills, starts)
}

/// Plans the whole bootstrap of the declared system on the given inventory.
/// `expected` is the expected inventory, empty when none was supplied;
/// `image_len` is the length of the image that frame contents come from. The
/// outcome is exactly `boot_plan`: a function of the inputs alone.
pub fn plan_boot(
    objects: &Vec<ObjectDecl>,
    edges: &Vec<CapEdge>,
    inventory: &Vec<UntypedDesc>,
    expected: &Vec<UntypedDesc>,
    image_len: usize,
) -> (r: Result<BootPlan, InitError>)
    requires
        inventory_wf(inventory@),
    ensures
        match r {
            Ok(p) => boot_plan(objects@, edges@, inventory@, expected@, image_len as nat) == Ok::<
                PlanView,
                InitError,
            >(p@),
            Err(e) => boot_plan(objects@, edges@, inventory@, expected@, image_len as nat) == Err::<
                PlanView,
                InitError,
            >(e),
        },
{
    match check_expected_untypeds(inventory, expected) {
        Err(e) => {
            return Err(e);
        },
        Ok(()) => {},
    }
    let placements = match materialize(objects, inventory) {
        Err(e) => {
            return Err(e);
        },
        Ok(p) => p,
    };
    match check_edges(objects, edges) {
        Err(e) => {
            return Err(e);
        },
        Ok(()) => {},
    }
    match check_contents(objects, image_len) {
        Err(e) => {
            return Err(e);
        },
        Ok(()) => {},
    }
    match check_threads(objects) {
        Err(e) => {
            return Err(e);
        },
        Ok(()) => {},
    }
    let (wires, table_maps, frame_maps) = edge_phases(objects, edges);
    let (fills, starts) = object_phases(objects);
    Ok(BootPlan { placements, wires, table_maps, frame_maps, fills, starts })
}


proof fn lemma_wire_list(objs: Seq<ObjectDecl>, edges: Seq<CapEdge>, n: nat)
    requires
        n <= edges.len(),
        edges.len() <= usize::MAX,
    ensures
        forall|q: int|
            0 <= q < wire_list(objs, edges, n).len() ==> {
                let w = #[trigger] wire_list(objs, edges, n)[q];
                w < n && objs[edges[w as int].owner as int] is CNode
            },
    decreases n,
{
    if n > 0 {
        lemma_wire_list(objs, edges, (n - 1) as nat);
        let prev = wire_list(objs, edges, (n - 1) as nat);
        assert forall|q: int| 0 <= q < prev.len() implies #[trigger] wire_list(objs, edges, n)[q]
            == prev[q] by {}
    }
}

proof fn lemma_frame_map_list(objs: Seq<ObjectDecl>, edges: Seq<CapEdge>, n: nat)
    requires
        n <= edges.len(),
        edges.len() <= usize::MAX,
    ensures
        forall|q: int|
            0 <= q < frame_map_list(objs, edges, n).len() ==> {
                let m = #[trigger] frame_map_list(objs, edges, n)[q];
                m.edge < n && m.table == edges[m.edge as int].owner
                    && objs[edges[m.edge as int].owner as int] is PageTable
            },
    decreases n,
{
    if n > 0 {
        lemma_frame_map_list(objs, edges, (n - 1) as nat);
        let prev = frame_map_list(objs, edges, (n - 1) as nat);
        assert forall|q: int| 0 <= q < prev.len() implies #[trigger] frame_map_list(
            objs,
            edges,
            n,
        )[q] == prev[q] by {}
    }
}

proof fn lemma_table_map_list(objs: Seq<ObjectDecl>, edges: Seq<CapEdge>, n: nat, j: int)
    requires
        n <= edges.len(),
        edges.len() <= usize::MAX,
        0 <= j < n,
        objs[edges[j].owner as int] is VSpace,
    ensures
        exists|q: int|
            0 <= q < table_map_list(objs, edges, n).len() && (#[trigger] table_map_list(
                objs,
                edges,
                n,
            )[q]).child == edges[j].target,
    decreases n,
{
    let cur = table_map_list(objs, edges, n);
    if j < n - 1 {
        lemma_table_map_list(objs, edges, (n - 1) as nat, j);
        let prev = table_map_list(objs, edges, (n - 1) as nat);
        let q = choose|q: int| 0 <= q < prev.len() && (#[trigger] prev[q]).child == edges[j].target;
        assert(cur[q] == prev[q]);
    } else {
        assert(cur[cur.len() - 1].child == edges[j].target);
    }
}

/// The plan is a function of its inputs: two runs on the same declarations,
/// inventory, expected inventory and image give the same outcome, with the
/// same region and the same size for every object.
pub proof fn lemma_deterministic(
    objs: Seq<ObjectDecl>,
    edges: Seq<CapEdge>,
    inventory: Seq<UntypedDesc>,
    expected: Seq<UntypedDesc>,
    image_len: nat,
    first: Result<PlanView, InitError>,
    second: Result<PlanView, InitError>,
)
    requires
        first == boot_plan(objs, edges, inventory, expected, image_len),
        second == boot_plan(objs, edges, inventory, expected, image_len),
    ensures
        first == second,
{
}

/// A disagreement between the expected and the actual inventory stops the
/// plan before any object is placed: the outcome is the mismatch, with no
/// placement, wiring, mapping or start at all.
pub proof fn lemma_fail_fast(
    objs: Seq<ObjectDecl>,
    edges: Seq<CapEdge>,
    inventory: Seq<UntypedDesc>,
    expected: Seq<UntypedDesc>,
    image_len: nat,
)
    requires
        first_mismatch(inventory, expected) is Some,
    ensures
        boot_plan(objs, edges, inventory, expected, image_len) == Err::<PlanView, InitError>(
            InitError::InventoryMismatch {
                index: first_mismatch(inventory, expected)->0 as usize,
            },
        ),
{
}

/// Some mapping into an address-space root maps object `t`.
pub open spec fn table_mapped(plan: PlanView, t: usize) -> bool {
    exists|q: int| 0 <= q < plan.table_maps.len() && (#[trigger] plan.table_maps[q]).child == t
}

/// Every page table that a frame is mapped into is itself mapped into an
/// address-space root.
pub open spec fn frame_tables_mapped(plan: PlanView) -> bool {
    forall|j: int|
        0 <= j < plan.frame_maps.len() ==> table_mapped(plan, #[trigger] plan.frame_maps[j].table)
}

/// Dependencies come first. Every object is created in the first phase; each
/// wired edge joins two of those objects; every table or frame mapped into an
/// address-space root is one of them; and every frame mapped into a page table
/// sits in a table that an earlier phase mapped into an address-space root.
pub proof fn lemma_dependency_order(
    objs: Seq<ObjectDecl>,
    edges: Seq<CapEdge>,
    inventory: Seq<UntypedDesc>,
    expected: Seq<UntypedDesc>,
    image_len: nat,
)
    requires
        edges.len() <= usize::MAX,
    ensures
        match boot_plan(objs, edges, inventory, expected, image_len) {
            Ok(plan) => {
                &&& plan.placements.len() == objs.len()
                &&& forall|j: int|
                    0 <= j < plan.wires.len() ==> {
                        let e = edges[#[trigger] plan.wires[j] as int];
                        e.owner < objs.len() && e.target < objs.len()
                    }
                &&& forall|j: int|
                    0 <= j < plan.table_maps.len() ==> {
                        let m = #[trigger] plan.table_maps[j];
                        m.table < objs.len() && m.child < objs.len()
                    }
                &&& frame_tables_mapped(plan)
            },
            Err(_) => true,
        },
{
    match boot_plan(objs, edges, inventory, expected, image_len) {
        Ok(plan) => {
            lemma_materialized_len(objs, inventory);
            lemma_wire_list(objs, edges, edges.len());
            assert forall|j: int| 0 <= j < plan.wires.len() implies {
                let e = edges[#[trigger] plan.wires[j] as int];
                e.owner < objs.len() && e.target < objs.len()
            } by {
                lemma_no_bad_edge(objs, edges, 0, plan.wires[j] as int);
            }
            lemma_table_map_members(objs, edges, edges.len());
            assert forall|j: int| 0 <= j < plan.table_maps.len() implies {
                let m = #[trigger] plan.table_maps[j];
                m.table < objs.len() && m.child < objs.len()
            } by {
                lemma_no_bad_edge(objs, edges, 0, plan.table_maps[j].edge as int);
            }
            lemma_frame_map_list(objs, edges, edges.len());
            assert forall|j: int| 0 <= j < plan.frame_maps.len() implies table_mapped(
                plan,
                #[trigger] plan.frame_maps[j].table,
            ) by {
                let m = plan.frame_maps[j];
                lemma_no_bad_edge(objs, edges, 0, m.edge as int);
                lemma_root_edge(objs, edges, m.table as int, 0);
                let r = root_edge_to(objs, edges, m.table as int, 0)->0;
                lemma_table_map_list(objs, edges, edges.len(), r);
                let tm = table_map_list(objs, edges, edges.len());
                let q = choose|q: int| 0 <= q < tm.len() && (#[trigger] tm[q]).child == edges[r].target;
                assert(plan.table_maps[q].child == plan.frame_maps[j].table);
            }
            assert(frame_tables_mapped(plan));
        },
        Err(_) => {},
    }
}

proof fn lemma_table_map_members(objs: Seq<ObjectDecl>, edges: Seq<CapEdge>, n: nat)
    requires
        n <= edges.len(),
        edges.len() <= usize::MAX,
    ensures
        forall|q: int|
            0 <= q < table_map_list(objs, edges, n).len() ==> {
                let m = #[trigger] table_map_list(objs, edges, n)[q];
                m.edge < n && m.table == edges[m.edge as int].owner && m.child
                    == edges[m.edge as int].target
            },
    decreases n,
{
    if n > 0 {
        lemma_table_map_members(objs, edges, (n - 1) as nat);
        let prev = table_map_list(objs, edges, (n - 1) as nat);
        assert forall|q: int| 0 <= q < prev.len() implies #[trigger] table_map_list(
            objs,
            edges,
            n,
        )[q] == prev[q] by {}
    }
}

proof fn lemma_materialized_len(objs: Seq<ObjectDecl>, inventory: Seq<UntypedDesc>)
    ensures
        match materialization(objs, inventory) {
            Ok(pls) => pls.len() == objs.len(),
            Err(_) => true,
        },
{
    crate::materialize::lemma_placement_count(objs, inventory, objs.len());
}

} // verus!
