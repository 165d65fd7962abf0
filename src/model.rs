//! The declared system: objects and the capability edges between them.
use vstd::prelude::*;

verus! {

/// One declared kernel object. Its identity is its index in the declaration list.
#[derive(Clone, Copy, Debug, PartialEq, Eq, Structural)]
pub enum ObjectDecl {
    /// A table of `2^size_bits` capability slots.
    CNode { size_bits: u8 },
    /// The root of an address space.
    VSpace,
    /// A page table, mapped into an address-space root.
    PageTable,
    /// A frame of `2^size_bits` bytes. When `fixed` holds it must sit at
    /// physical address `paddr`. When `content_len` is not zero its first bytes
    /// come from the image range `[content_offset, content_offset + content_len)`.
    Frame { size_bits: u8, fixed: bool, paddr: u64, content_offset: u64, content_len: u64 },
    /// A thread, rooted at the capability space `cspace` and the address space
    /// `vspace` (both object identities).
    Tcb { cspace: usize, vspace: usize, ip: u64, sp: u64, priority: u8, affinity: u64 },
    Endpoint,
    Notification,
    /// A handler for interrupt `irq`, issued by the interrupt controller
    /// rather than carved out of memory.
    IrqHandler { irq: u64 },
    /// Untyped memory of `2^size_bits` bytes, handed on as it is.
    Untyped { size_bits: u8 },
}

/// Bytes taken by one capability slot, in bits.
pub const SLOT_BITS: u32 = 5;

/// Bytes taken by a thread control block, in bits.
pub const TCB_BITS: u32 = 11;

/// Bytes taken by a page table or an address-space root, in bits.
pub const TABLE_BITS: u32 = 12;

/// Bytes taken by an endpoint, in bits.
pub const ENDPOINT_BITS: u32 = 4;

/// Bytes taken by a notification, in bits.
pub const NOTIFICATION_BITS: u32 = 5;

/// The size in bits of the memory an object is carved from; `None` for an
/// object that takes no memory.
pub open spec fn spec_object_bits(o: ObjectDecl) -> Option<u32> {
    match o {
        ObjectDecl::CNode { size_bits } => Some((size_bits as u32 + SLOT_BITS) as u32),
        ObjectDecl::VSpace => Some(TABLE_BITS),
        ObjectDecl::PageTable => Some(TABLE_BITS),
        ObjectDecl::Frame { size_bits, .. } => Some(size_bits as u32),
        ObjectDecl::Tcb { .. } => Some(TCB_BITS),
        ObjectDecl::Endpoint => Some(ENDPOINT_BITS),
        ObjectDecl::Notification => Some(NOTIFICATION_BITS),
        ObjectDecl::IrqHandler { .. } => None,
        ObjectDecl::Untyped { size_bits } => Some(size_bits as u32),
    }
}

/// The physical address an object must sit at, if it has one.
pub open spec fn spec_fixed_paddr(o: ObjectDecl) -> Option<u64> {
    match o {
        ObjectDecl::Frame { fixed, paddr, .. } => if fixed {
            Some(paddr)
        } else {
            None
        },
        _ => None,
    }
}

pub fn object_bits(o: &ObjectDecl) -> (r: Option<u32>)
    ensures
        r == spec_object_bits(*o),
{
    match o {
        ObjectDecl::CNode { size_bits } => Some(*size_bits as u32 + SLOT_BITS),
        ObjectDecl::VSpace => Some(TABLE_BITS),
        ObjectDecl::PageTable => Some(TABLE_BITS),
        ObjectDecl::Frame { size_bits, .. } => Some(*size_bits as u32),
        ObjectDecl::Tcb { .. } => Some(TCB_BITS),
        ObjectDecl::Endpoint => Some(ENDPOINT_BITS),
        ObjectDecl::Notification => Some(NOTIFICATION_BITS),
        ObjectDecl::IrqHandler { .. } => None,
        ObjectDecl::Untyped { size_bits } => Some(*size_bits as u32),
    }
}

pub fn fixed_paddr(o: &ObjectDecl) -> (r: Option<u64>)
    ensures
        r == spec_fixed_paddr(*o),
{
    match o {
        ObjectDecl::Frame { fixed, paddr, .. } => if *fixed {
            Some(*paddr)
        } else {
            None
        },
        _ => None,
    }
}

/// A capability edge: `owner` holds, at `slot`, a capability to `target`.
/// For a capability-space node the slot is an index into its slots; for an
/// address-space root or a page table it is the index of the entry that maps
/// `target`.
#[derive(Clone, Copy, Debug, PartialEq, Eq, Structural)]
pub struct CapEdge {
    pub owner: usize,
    pub slot: u64,
    pub target: usize,
    pub rights: u8,
    pub badge: u64,
    pub guard: u64,
}

} // verus!
