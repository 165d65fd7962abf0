//! The bootstrap sequence: its phases, the image bounds it starts from, and
//! the content written into frames.
use core::ops::Range;
use vstd::prelude::*;

verus! {

/// The phases of the bootstrap, in the order they run.
#[derive(Clone, Copy, Debug, PartialEq, Eq, Structural)]
pub enum BootPhase {
    ReceivingBootInfo,
    ValidatingInventory,
    MaterializingObjects,
    WiringCapabilities,
    PopulatingAddressSpaces,
    LaunchingThreads,
    /// Everything is handed over; the initializer idles for good.
    Quiescent,
    /// A fatal error stopped the bootstrap for good.
    Aborted,
}

/// The phase after `p`, given whether `p`'s work succeeded. The sequence is
/// fixed; any failure aborts; the two terminal phases never change.
pub open spec fn spec_next_phase(p: BootPhase, succeeded: bool) -> BootPhase {
    match p {
        BootPhase::Quiescent => BootPhase::Quiescent,
        BootPhase::Aborted => BootPhase::Aborted,
        _ => if !succeeded {
            BootPhase::Aborted
        } else {
            match p {
                BootPhase::ReceivingBootInfo => BootPhase::ValidatingInventory,
                BootPhase::ValidatingInventory => BootPhase::MaterializingObjects,
                BootPhase::MaterializingObjects => BootPhase::WiringCapabilities,
                BootPhase::WiringCapabilities => BootPhase::PopulatingAddressSpaces,
                BootPhase::PopulatingAddressSpaces => BootPhase::LaunchingThreads,
                _ => BootPhase::Quiescent,
            }
        },
    }
}

impl BootPhase {
    pub fn next_phase(self, succeeded: bool) -> (r: BootPhase)
        ensures
            r == spec_next_phase(self, succeeded),
    {
        match self {
            BootPhase::Quiescent => BootPhase::Quiescent,
            BootPhase::Aborted => BootPhase::Aborted,
            _ => if !succeeded {
                BootPhase::Aborted
            } else {
                match self {
                    BootPhase::ReceivingBootInfo => BootPhase::ValidatingInventory,
                    BootPhase::ValidatingInventory => BootPhase::MaterializingObjects,
                    BootPhase::MaterializingObjects => BootPhase::WiringCapabilities,
                    BootPhase::WiringCapabilities => BootPhase::PopulatingAddressSpaces,
                    BootPhase::PopulatingAddressSpaces => BootPhase::LaunchingThreads,
                    _ => BootPhase::Quiescent,
                }
            },
        }
    }

    pub fn is_terminal(self) -> (r: bool)
        ensures
            r == (self is Quiescent || self is Aborted),
    {
        matches!(self, BootPhase::Quiescent | BootPhase::Aborted)
    }
}

/// The virtual address range `[start, end)` of the initializer's own image.
pub fn user_image_bounds(start: usize, end: usize) -> (r: Range<usize>)
    ensures
        r.start == start,
        r.end == end,
{
    start..end
}

/// The bytes of a frame of `frame_size` bytes whose content is the image range
/// `[offset, offset + len)`: those bytes first, then zeros. `None` when the
/// range leaves the image or does not fit in the frame.
pub fn frame_contents(image: &Vec<u8>, offset: u64, len: u64, frame_size: usize) -> (r: Option<
    Vec<u8>,
>)
    ensures
        r is Some <==> offset + len <= image@.len() && len <= frame_size,
        r matches Some(v) ==> {
            &&& v@.len() == frame_size
            &&& v@.subrange(0, len as int) == image@.subrange(offset as int, offset + len)
            &&& forall|i: int| len <= i < frame_size ==> v@[i] == 0u8
        },
{
    if offset as u128 + len as u128 > image.len() as u128 || len as u128 > frame_size as u128 {
        return None;
    }
    let ilen = image.len();
    let start = offset as usize;
    let n = len as usize;
    let mut v: Vec<u8> = Vec::new();
    let mut i: usize = 0;
    while i < n
        invariant
            i <= n,
            n <= frame_size,
            start + n <= image@.len(),
            ilen == image@.len(),
            v@.len() == i,
            forall|j: int| 0 <= j < i ==> v@[j] == image@[start + j],
        decreases n - i,
    {
        v.push(image[start + i]);
        i = i + 1;
    }
    while i < frame_size
        invariant
            n <= i <= frame_size,
            start + n <= image@.len(),
            v@.len() == i,
            forall|j: int| 0 <= j < n ==> v@[j] == image@[start + j],
            forall|j: int| n <= j < i ==> v@[j] == 0u8,
        decreases frame_size - i,
    {
        v.push(0u8);
        i = i + 1;
    }
    assert(v@.subrange(0, n as int) =~= image@.subrange(start as int, start + n));
    Some(v)
}

} // verus!
