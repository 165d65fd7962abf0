//! The boot-time inventory of untyped memory regions, and the fail-fast check
//! against an externally supplied expected inventory.
use vstd::prelude::*;

verus! {

/// Bytes taken by one encoded region descriptor: an 8-byte little-endian
/// physical address, the size in bits, the device flag and 6 bytes of padding.
pub const UNTYPED_DESC_SIZE: usize = 16;

/// One region of untyped memory offered by the kernel at boot.
#[derive(Clone, Copy, Debug, PartialEq, Eq, Structural)]
pub struct UntypedDesc {
    pub paddr: u64,
    pub size_bits: u8,
    pub is_device: bool,
}

/// Why initialization stopped. Every one of these is fatal.
#[derive(Clone, Copy, Debug, PartialEq, Eq, Structural)]
pub enum InitError {
    /// The expected inventory disagrees with the actual one at `index`.
    InventoryMismatch { index: usize },
    /// No region can hold the object with this identity.
    ResourceExhausted { object: usize },
    /// An edge names a missing object, a wrong kind or an out-of-range slot.
    BadEdge { edge: usize },
    /// A frame's content range lies outside the image or the frame.
    BadContent { object: usize },
    /// A thread names a capability space or address space of the wrong kind.
    BadThread { object: usize },
}

/// Two descriptors agree: same size, same device flag, and for device memory
/// the same physical address.
pub open spec fn desc_agrees(a: UntypedDesc, e: UntypedDesc) -> bool {
    &&& a.size_bits == e.size_bits
    &&& a.is_device == e.is_device
    &&& a.is_device ==> a.paddr == e.paddr
}

/// The index of the first disagreement between the actual inventory and a
/// supplied expected one, if there is any. An empty expected list means that
/// none was supplied.
pub open spec fn first_mismatch(actual: Seq<UntypedDesc>, expected: Seq<UntypedDesc>) -> Option<
    int,
> {
    if expected.len() == 0 {
        None
    } else if exists|i: int|
        0 <= i < actual.len() && i < expected.len() && !desc_agrees(actual[i], expected[i]) {
        let i = choose|i: int|
            0 <= i < actual.len() && i < expected.len() && !desc_agrees(actual[i], expected[i])
                && forall|j: int| 0 <= j < i ==> desc_agrees(actual[j], expected[j]);
        Some(i)
    } else if actual.len() != expected.len() {
        Some(if actual.len() < expected.len() {
            actual.len() as int
        } else {
            expected.len() as int
        })
    } else {
        None
    }
}

/// Compares the actual inventory with the expected one, entry by entry.
pub fn check_expected_untypeds(actual: &Vec<UntypedDesc>, expected: &Vec<UntypedDesc>) -> (r: Result<
    (),
    InitError,
>)
    ensures
        r == (match first_mismatch(actual@, expected@) {
            None => Ok(()),
            Some(i) => Err(InitError::InventoryMismatch { index: i as usize }),
        }),
{
    if expected.len() == 0 {
        return Ok(());
    }
    let n: usize = if actual.len() < expected.len() {
        actual.len()
    } else {
        expected.len()
    };
    let mut i: usize = 0;
    while i < n
        invariant
            i <= n,
            n <= actual.len(),
            n <= expected.len(),
            forall|j: int| 0 <= j < i ==> desc_agrees(actual@[j], expected@[j]),
        decreases n - i,
    {
        let a = actual[i];
        let e = expected[i];
        if a.size_bits != e.size_bits || a.is_device != e.is_device || (a.is_device && a.paddr
            != e.paddr) {
            proof {
                let w = choose|k: int|
                    0 <= k < actual@.len() && k < expected@.len() && !desc_agrees(
                        actual@[k],
                        expected@[k],
                    ) && forall|j: int| 0 <= j < k ==> desc_agrees(actual@[j], expected@[j]);
                assert(0 <= i < actual@.len() && i < expected@.len() && !desc_agrees(
                    actual@[i as int],
                    expected@[i as int],
                ));
                if w < i {
                    assert(desc_agrees(actual@[w], expected@[w]));
                } else if w > i {
                    assert(desc_agrees(actual@[i as int], expected@[i as int]));
                }
            }
            return Err(InitError::InventoryMismatch { index: i });
        }
        i = i + 1;
    }
    if actual.len() != expected.len() {
        Err(InitError::InventoryMismatch { index: n })
    } else {
        Ok(())
    }
}

/// The value of bytes read as a little-endian unsigned integer.
pub open spec fn le_value(s: Seq<u8>) -> nat
    decreases s.len(),
{
    if s.len() == 0 {
        0
    } else {
        (s[0] + 256 * le_value(s.drop_first())) as nat
    }
}

/// `256` to the power `n`.
pub open spec fn byte_bound(n: nat) -> nat
    decreases n,
{
    if n == 0 {
        1
    } else {
        256 * byte_bound((n - 1) as nat)
    }
}

proof fn lemma_le_value_bound(s: Seq<u8>)
    ensures
        le_value(s) < byte_bound(s.len()),
    decreases s.len(),
{
    if s.len() > 0 {
        lemma_le_value_bound(s.drop_first());
        let a = s[0] as int;
        let b = le_value(s.drop_first()) as int;
        let c = byte_bound(s.drop_first().len()) as int;
        assert(a + 256 * b < 256 * c) by (nonlinear_arith)
            requires
                0 <= a < 256,
                0 <= b < c,
        ;
    }
}

/// The descriptor encoded at entry `i` of `bytes`.
pub open spec fn desc_at(bytes: Seq<u8>, i: int) -> UntypedDesc {
    let base = UNTYPED_DESC_SIZE * i;
    UntypedDesc {
        paddr: le_value(bytes.subrange(base, base + 8)) as u64,
        size_bits: bytes[base + 8],
        is_device: bytes[base + 9] != 0,
    }
}

/// How many entries the buffer yields: the declared count, cut to what the
/// buffer holds and to the kernel's maximum.
pub open spec fn entry_count(len: nat, num_entries: nat, max_entries: nat) -> nat {
    let fit = len / (UNTYPED_DESC_SIZE as nat);
    let m = if num_entries < max_entries {
        num_entries
    } else {
        max_entries
    };
    if m < fit {
        m
    } else {
        fit
    }
}

fn read_le_u64(bytes: &Vec<u8>, base: usize) -> (r: u64)
    requires
        base + 8 <= bytes@.len(),
    ensures
        r == le_value(bytes@.subrange(base as int, base + 8)),
{
    let len = bytes.len();
    let mut acc: u64 = 0;
    let mut k: usize = 8;
    while k > 0
        invariant
            k <= 8,
            len == bytes@.len(),
            base + 8 <= bytes@.len(),
            acc == le_value(bytes@.subrange(base + k, base + 8)),
        decreases k,
    {
        let ghost tail = bytes@.subrange(base + k, base + 8);
        proof {
            reveal_with_fuel(byte_bound, 9);
            lemma_le_value_bound(tail);
            assert(byte_bound(tail.len()) <= byte_bound(7)) by {
                let mut m: nat = tail.len();
                assert(m <= 7);
                lemma_byte_bound_mono(m, 7);
            }
        }
        k = k - 1;
        let b = bytes[base + k];
        proof {
            let s = bytes@.subrange(base + k, base + 8);
            assert(s.drop_first() =~= tail);
        }
        acc = acc * 256 + b as u64;
    }
    acc
}

proof fn lemma_byte_bound_mono(a: nat, b: nat)
    requires
        a <= b,
    ensures
        byte_bound(a) <= byte_bound(b),
    decreases b,
{
    if a < b {
        lemma_byte_bound_mono(a, (b - 1) as nat);
    }
}

/// Reads the expected inventory out of its fixed-capacity buffer.
pub fn decode_untyped_descs(bytes: &Vec<u8>, num_entries: usize, max_entries: usize) -> (r: Vec<
    UntypedDesc,
>)
    ensures
        r@.len() == entry_count(bytes@.len(), num_entries as nat, max_entries as nat),
        forall|i: int| 0 <= i < r@.len() ==> r@[i] == desc_at(bytes@, i),
{
    let m = if num_entries < max_entries {
        num_entries
    } else {
        max_entries
    };
    let len = bytes.len();
    let fit = len / UNTYPED_DESC_SIZE;
    let n = if m < fit {
        m
    } else {
        fit
    };
    let mut r: Vec<UntypedDesc> = Vec::new();
    let mut i: usize = 0;
    while i < n
        invariant
            i <= n,
            n <= fit,
            fit == bytes@.len() / 16,
            len == bytes@.len(),
            r@.len() == i,
            forall|j: int| 0 <= j < i ==> r@[j] == desc_at(bytes@, j),
        decreases n - i,
    {
        proof {
            let l = bytes@.len() as int;
            assert(16 * i + 16 <= l) by (nonlinear_arith)
                requires
                    i < fit,
                    fit == l / 16,
                    l >= 0,
            ;
        }
        let base = UNTYPED_DESC_SIZE * i;
        let paddr = read_le_u64(bytes, base);
        let size_bits = bytes[base + 8];
        let is_device = bytes[base + 9] != 0;
        r.push(UntypedDesc { paddr, size_bits, is_device });
        i = i + 1;
    }
    r
}

} // verus!
