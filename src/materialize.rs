//! Turning declared objects into placements inside untyped regions.
use vstd::arithmetic::div_mod::{lemma_fundamental_div_mod, lemma_mod_pos_bound};
use vstd::arithmetic::power2::{
    lemma2_to64,
    lemma2_to64_rest,
    lemma_pow2_pos,
    lemma_pow2_strictly_increases,
    lemma_pow2_unfold,
    pow2,
};
use vstd::prelude::*;

use crate::inventory::{InitError, UntypedDesc};
use crate::model::{fixed_paddr, object_bits, spec_fixed_paddr, spec_object_bits, ObjectDecl};

verus! {

/// Where a materialized object came from.
#[derive(Clone, Copy, Debug, PartialEq, Eq, Structural)]
pub enum Placement {
    /// Carved out of region `region`, at byte `offset` from its start, taking
    /// `2^size_bits` bytes.
    Retyped { region: usize, offset: u64, size_bits: u8 },
    /// Issued without consuming memory.
    Issued,
}

/// The number of bytes a region offers.
pub open spec fn capacity(r: UntypedDesc) -> int {
    pow2(r.size_bits as nat) as int
}

/// Every region's size fits in a machine word, and so does their number.
pub open spec fn inventory_wf(regions: Seq<UntypedDesc>) -> bool {
    &&& regions.len() <= usize::MAX
    &&& forall|i: int| 0 <= i < regions.len() ==> #[trigger] regions[i].size_bits < 64
}

/// `x` rounded up to a multiple of `a`.
pub open spec fn align_up(x: int, a: int) -> int {
    ((x + a - 1) / a) * a
}

/// Object `o` needs region `r` for its fixed address.
pub open spec fn reserves(o: ObjectDecl, r: UntypedDesc) -> bool {
    match spec_fixed_paddr(o) {
        Some(p) => r.paddr <= p < r.paddr + capacity(r),
        None => false,
    }
}

/// Region `r` holds the fixed address of some declared object, so objects
/// without a fixed address may not be placed in it.
pub open spec fn region_reserved(objs: Seq<ObjectDecl>, r: UntypedDesc) -> bool {
    exists|k: int| 0 <= k < objs.len() && reserves(#[trigger] objs[k], r)
}

/// An object of `2^b` bytes without a fixed address fits in region `r`,
/// whose first `used[r]` bytes are taken.
pub open spec fn general_fit(
    objs: Seq<ObjectDecl>,
    regions: Seq<UntypedDesc>,
    used: Seq<u64>,
    r: int,
    b: nat,
) -> bool {
    &&& !region_reserved(objs, regions[r])
    &&& !regions[r].is_device
    &&& align_up(used[r] as int, pow2(b) as int) + pow2(b) <= capacity(regions[r])
}

/// An object of `2^b` bytes at physical address `p` fits in region `r`.
pub open spec fn fixed_fit(regions: Seq<UntypedDesc>, used: Seq<u64>, r: int, p: int, b: nat) -> bool {
    &&& regions[r].paddr + used[r] <= p
    &&& p + pow2(b) <= regions[r].paddr + capacity(regions[r])
}

/// The first region from `i` on where a general object of `2^b` bytes fits.
pub open spec fn first_general_from(
    objs: Seq<ObjectDecl>,
    regions: Seq<UntypedDesc>,
    used: Seq<u64>,
    b: nat,
    i: int,
) -> Option<int>
    decreases regions.len() - i,
{
    if i < 0 || i >= regions.len() {
        None
    } else if general_fit(objs, regions, used, i, b) {
        Some(i)
    } else {
        first_general_from(objs, regions, used, b, i + 1)
    }
}

/// The first region from `i` on where an object of `2^b` bytes fits at `p`.
pub open spec fn first_fixed_from(
    regions: Seq<UntypedDesc>,
    used: Seq<u64>,
    p: int,
    b: nat,
    i: int,
) -> Option<int>
    decreases regions.len() - i,
{
    if i < 0 || i >= regions.len() {
        None
    } else if fixed_fit(regions, used, i, p, b) {
        Some(i)
    } else {
        first_fixed_from(regions, used, p, b, i + 1)
    }
}

/// Where object `k` goes, given how much of each region is taken; `None` when
/// no region can hold it.
pub open spec fn place(
    objs: Seq<ObjectDecl>,
    regions: Seq<UntypedDesc>,
    used: Seq<u64>,
    k: int,
) -> Option<Placement> {
    match spec_object_bits(objs[k]) {
        None => Some(Placement::Issued),
        Some(b) => if b >= 64 {
            None
        } else {
            let a = pow2(b as nat) as int;
            match spec_fixed_paddr(objs[k]) {
                Some(p) => if (p as int) % a != 0 {
                    None
                } else {
                    match first_fixed_from(regions, used, p as int, b as nat, 0) {
                        None => None,
                        Some(r) => Some(
                            Placement::Retyped {
                                region: r as usize,
                                offset: (p - regions[r].paddr) as u64,
                                size_bits: b as u8,
                            },
                        ),
                    }
                },
                None => match first_general_from(objs, regions, used, b as nat, 0) {
                    None => None,
                    Some(r) => Some(
                        Placement::Retyped {
                            region: r as usize,
                            offset: align_up(used[r] as int, a) as u64,
                            size_bits: b as u8,
                        },
                    ),
                },
            }
        },
    }
}

/// How much of each region is taken after `p`.
pub open spec fn after(used: Seq<u64>, p: Placement) -> Seq<u64> {
    match p {
        Placement::Issued => used,
        Placement::Retyped { region, offset, size_bits } => used.update(
            region as int,
            (offset + pow2(size_bits as nat)) as u64,
        ),
    }
}

/// The placements of the first `n` objects, in declaration order, with the
/// bytes taken from each region; or the first object that did not fit.
pub open spec fn plan_prefix(objs: Seq<ObjectDecl>, regions: Seq<UntypedDesc>, n: nat) -> Result<
    (Seq<u64>, Seq<Placement>),
    InitError,
>
    decreases n,
{
    if n == 0 {
        Ok((Seq::new(regions.len(), |i: int| 0u64), Seq::empty()))
    } else {
        match plan_prefix(objs, regions, (n - 1) as nat) {
            Err(e) => Err(e),
            Ok((used, pls)) => match place(objs, regions, used, n - 1) {
                None => Err(InitError::ResourceExhausted { object: (n - 1) as usize }),
                Some(p) => Ok((after(used, p), pls.push(p))),
            },
        }
    }
}

/// The live object table: one placement per declared object, or the first
/// object that could not be placed.
pub open spec fn materialization(objs: Seq<ObjectDecl>, regions: Seq<UntypedDesc>) -> Result<
    Seq<Placement>,
    InitError,
> {
    match plan_prefix(objs, regions, objs.len()) {
        Ok((used, pls)) => Ok(pls),
        Err(e) => Err(e),
    }
}

/// `2^b` as a machine integer.
pub fn pow2_u64(b: u32) -> (r: u64)
    requires
        b < 64,
    ensures
        r == pow2(b as nat),
{
    proof {
        lemma2_to64();
        lemma2_to64_rest();
    }
    let mut p: u64 = 1;
    let mut i: u32 = 0;
    while i < b
        invariant
            i <= b,
            b < 64,
            p == pow2(i as nat),
        decreases b - i,
    {
        proof {
            lemma2_to64_rest();
            lemma_pow2_unfold((i + 1) as nat);
            if i + 1 < 64 {
                lemma_pow2_strictly_increases((i + 1) as nat, 64);
            }
        }
        p = p * 2;
        i = i + 1;
    }
    p
}

proof fn lemma_align_up(x: int, a: int)
    requires
        x >= 0,
        a > 0,
    ensures
        x <= align_up(x, a) <= x + a - 1,
        align_up(x, a) % a == 0,
{
    lemma_fundamental_div_mod(x + a - 1, a);
    lemma_mod_pos_bound(x + a - 1, a);
    let q = (x + a - 1) / a;
    assert((q * a) % a == 0) by {
        vstd::arithmetic::div_mod::lemma_mod_multiples_basic(q, a);
    }
    assert(a * q == q * a) by (nonlinear_arith);
}

proof fn lemma_prefix_err(objs: Seq<ObjectDecl>, regions: Seq<UntypedDesc>, n: nat, m: nat)
    requires
        n <= m,
        plan_prefix(objs, regions, n) is Err,
    ensures
        plan_prefix(objs, regions, m) == plan_prefix(objs, regions, n),
    decreases m - n,
{
    if n < m {
        lemma_prefix_err(objs, regions, n, (m - 1) as nat);
    }
}

proof fn lemma_first_general(
    objs: Seq<ObjectDecl>,
    regions: Seq<UntypedDesc>,
    used: Seq<u64>,
    b: nat,
    i: int,
)
    ensures
        match first_general_from(objs, regions, used, b, i) {
            Some(r) => i <= r < regions.len() && general_fit(objs, regions, used, r, b),
            None => true,
        },
    decreases regions.len() - i,
{
    if 0 <= i < regions.len() && !general_fit(objs, regions, used, i, b) {
        lemma_first_general(objs, regions, used, b, i + 1);
    }
}

proof fn lemma_first_fixed(regions: Seq<UntypedDesc>, used: Seq<u64>, p: int, b: nat, i: int)
    ensures
        match first_fixed_from(regions, used, p, b, i) {
            Some(r) => i <= r < regions.len() && fixed_fit(regions, used, r, p, b),
            None => true,
        },
    decreases regions.len() - i,
{
    if 0 <= i < regions.len() && !fixed_fit(regions, used, i, p, b) {
        lemma_first_fixed(regions, used, p, b, i + 1);
    }
}


fn is_reserved(objs: &Vec<ObjectDecl>, r: &UntypedDesc) -> (res: bool)
    requires
        r.size_bits < 64,
    ensures
        res == region_reserved(objs@, *r),
{
    let cap = pow2_u64(r.size_bits as u32) as u128;
    proof {
        lemma2_to64_rest();
        lemma_pow2_strictly_increases(r.size_bits as nat, 64);
    }
    let mut k: usize = 0;
    while k < objs.len()
        invariant
            k <= objs@.len(),
            cap == capacity(*r),
            cap < 0x10000000000000000,
            forall|j: int| 0 <= j < k ==> !reserves(#[trigger] objs@[j], *r),
        decreases objs@.len() - k,
    {
        match fixed_paddr(&objs[k]) {
            Some(p) => {
                if r.paddr <= p && (p as u128) < r.paddr as u128 + cap {
                    return true;
                }
            },
            None => {},
        }
        k = k + 1;
    }
    false
}

/// The first region where a general object of `2^b` bytes fits, and the
/// offset it would take there.
fn find_general(
    objs: &Vec<ObjectDecl>,
    regions: &Vec<UntypedDesc>,
    reserved: &Vec<bool>,
    used: &Vec<u64>,
    b: u32,
) -> (res: Option<(usize, u64)>)
    requires
        b < 64,
        inventory_wf(regions@),
        reserved@.len() == regions@.len(),
        used@.len() == regions@.len(),
        forall|r: int|
            0 <= r < regions@.len() ==> #[trigger] reserved@[r] == region_reserved(
                objs@,
                regions@[r],
            ),
        forall|r: int| 0 <= r < regions@.len() ==> #[trigger] used@[r] <= capacity(regions@[r]),
    ensures
        match res {
            None => first_general_from(objs@, regions@, used@, b as nat, 0) == None::<int>,
            Some((r, off)) => first_general_from(objs@, regions@, used@, b as nat, 0) == Some(
                r as int,
            ) && off == align_up(used@[r as int] as int, pow2(b as nat) as int),
        },
{
    let a = pow2_u64(b) as u128;
    proof {
        lemma_pow2_pos(b as nat);
    }
    let mut i: usize = 0;
    while i < regions.len()
        invariant
            i <= regions@.len(),
            b < 64,
            a == pow2(b as nat),
            a > 0,
            inventory_wf(regions@),
            reserved@.len() == regions@.len(),
            used@.len() == regions@.len(),
            forall|r: int|
                0 <= r < regions@.len() ==> #[trigger] reserved@[r] == region_reserved(
                    objs@,
                    regions@[r],
                ),
            forall|r: int|
                0 <= r < regions@.len() ==> #[trigger] used@[r] <= capacity(regions@[r]),
            first_general_from(objs@, regions@, used@, b as nat, 0) == first_general_from(
                objs@,
                regions@,
                used@,
                b as nat,
                i as int,
            ),
        decreases regions@.len() - i,
    {
        let reg = regions[i];
        let x = used[i] as u128;
        proof {
            lemma_align_up(x as int, a as int);
            assert(reg.size_bits < 64);
            assert(used@[i as int] <= capacity(regions@[i as int]));
            lemma2_to64_rest();
            lemma_pow2_strictly_increases(reg.size_bits as nat, 64);
            lemma_pow2_strictly_increases(b as nat, 64);
        }
        let off = (x + a - 1) / a * a;
        let cap = pow2_u64(reg.size_bits as u32) as u128;
        if !reserved[i] && !reg.is_device && off + a <= cap {
            return Some((i, off as u64));
        }
        i = i + 1;
    }
    None
}

/// The first region where an object of `2^b` bytes fits at address `p`.
fn find_fixed(regions: &Vec<UntypedDesc>, used: &Vec<u64>, p: u64, b: u32) -> (res: Option<usize>)
    requires
        b < 64,
        inventory_wf(regions@),
        used@.len() == regions@.len(),
    ensures
        match res {
            None => first_fixed_from(regions@, used@, p as int, b as nat, 0) == None::<int>,
            Some(r) => first_fixed_from(regions@, used@, p as int, b as nat, 0) == Some(r as int),
        },
{
    let a = pow2_u64(b) as u128;
    let mut i: usize = 0;
    while i < regions.len()
        invariant
            i <= regions@.len(),
            b < 64,
            a == pow2(b as nat),
            inventory_wf(regions@),
            used@.len() == regions@.len(),
            first_fixed_from(regions@, used@, p as int, b as nat, 0) == first_fixed_from(
                regions@,
                used@,
                p as int,
                b as nat,
                i as int,
            ),
        decreases regions@.len() - i,
    {
        let reg = regions[i];
        proof {
            assert(reg.size_bits < 64);
            lemma2_to64_rest();
            lemma_pow2_strictly_increases(reg.size_bits as nat, 64);
            lemma_pow2_strictly_increases(b as nat, 64);
        }
        let cap = pow2_u64(reg.size_bits as u32) as u128;
        if reg.paddr as u128 + used[i] as u128 <= p as u128 && p as u128 + a <= reg.paddr as u128
            + cap {
            return Some(i);
        }
        i = i + 1;
    }
    None
}

/// Places every declared object, in declaration order, in the first region
/// that can hold it. The outcome is exactly `materialization`: a function of
/// the declarations and the inventory alone.
pub fn materialize(objects: &Vec<ObjectDecl>, regions: &Vec<UntypedDesc>) -> (res: Result<
    Vec<Placement>,
    InitError,
>)
    requires
        inventory_wf(regions@),
    ensures
        match res {
            Ok(v) => materialization(objects@, regions@) == Ok::<Seq<Placement>, InitError>(v@),
            Err(e) => materialization(objects@, regions@) == Err::<Seq<Placement>, InitError>(e),
        },
{
    let mut reserved: Vec<bool> = Vec::new();
    let mut used: Vec<u64> = Vec::new();
    let mut j: usize = 0;
    while j < regions.len()
        invariant
            j <= regions@.len(),
            inventory_wf(regions@),
            reserved@.len() == j,
            used@.len() == j,
            forall|r: int| 0 <= r < j ==> #[trigger] used@[r] == 0u64,
            forall|r: int|
                0 <= r < j ==> #[trigger] reserved@[r] == region_reserved(objects@, regions@[r]),
        decreases regions@.len() - j,
    {
        proof {
            assert(regions@[j as int].size_bits < 64);
        }
        let rv = is_reserved(objects, &regions[j]);
        reserved.push(rv);
        used.push(0);
        j = j + 1;
    }
    proof {
        assert(used@ =~= Seq::new(regions@.len(), |i: int| 0u64));
        assert(plan_prefix(objects@, regions@, 0) == Ok::<(Seq<u64>, Seq<Placement>), InitError>(
            (used@, Seq::<Placement>::empty()),
        ));
    }
    let mut pls: Vec<Placement> = Vec::new();
    let mut i: usize = 0;
    while i < objects.len()
        invariant
            i <= objects@.len(),
            inventory_wf(regions@),
            reserved@.len() == regions@.len(),
            used@.len() == regions@.len(),
            forall|r: int|
                0 <= r < regions@.len() ==> #[trigger] reserved@[r] == region_reserved(
                    objects@,
                    regions@[r],
                ),
            forall|r: int|
                0 <= r < regions@.len() ==> #[trigger] used@[r] <= capacity(regions@[r]),
            plan_prefix(objects@, regions@, i as nat) == Ok::<
                (Seq<u64>, Seq<Placement>),
                InitError,
            >((used@, pls@)),
        decreases objects@.len() - i,
    {
        let ghost used0 = used@;
        let ghost k = i as int;
        match object_bits(&objects[i]) {
            None => {
                pls.push(Placement::Issued);
            },
            Some(b) => {
                if b >= 64 {
                    proof {
                    lemma_prefix_err(objects@, regions@, (i + 1) as nat, objects@.len());
                }
                return Err(InitError::ResourceExhausted { object: i });
                }
                let a = pow2_u64(b);
                proof {
                    lemma_pow2_pos(b as nat);
                }
                match fixed_paddr(&objects[i]) {
                    Some(p) => {
                        if p % a != 0 {
                            proof {
                    lemma_prefix_err(objects@, regions@, (i + 1) as nat, objects@.len());
                }
                return Err(InitError::ResourceExhausted { object: i });
                        }
                        match find_fixed(regions, &used, p, b) {
                            None => {
                                proof {
                    lemma_prefix_err(objects@, regions@, (i + 1) as nat, objects@.len());
                }
                return Err(InitError::ResourceExhausted { object: i });
                            },
                            Some(r) => {
                                proof {
                                    lemma_first_fixed(regions@, used@, p as int, b as nat, 0);
                                    assert(first_fixed_from(regions@, used@, p as int, b as nat, 0)
                                        == Some(r as int));
                                    assert(fixed_fit(regions@, used@, r as int, p as int, b as nat));
                                    assert(regions@[r as int].size_bits < 64);
                                    lemma2_to64_rest();
                                    lemma_pow2_strictly_increases(
                                        regions@[r as int].size_bits as nat,
                                        64,
                                    );
                                }
                                let off = p - regions[r].paddr;
                                used.set(r, off + a);
                                pls.push(
                                    Placement::Retyped { region: r, offset: off, size_bits: b as u8 },
                                );
                            },
                        }
                    },
                    None => {
                        match find_general(objects, regions, &reserved, &used, b) {
                            None => {
                                proof {
                    lemma_prefix_err(objects@, regions@, (i + 1) as nat, objects@.len());
                }
                return Err(InitError::ResourceExhausted { object: i });
                            },
                            Some((r, off)) => {
                                proof {
                                    lemma_first_general(objects@, regions@, used@, b as nat, 0);
                                    assert(regions@[r as int].size_bits < 64);
                                    lemma2_to64_rest();
                                    lemma_pow2_strictly_increases(
                                        regions@[r as int].size_bits as nat,
                                        64,
                                    );
                                }
                                used.set(r, off + a);
                                pls.push(
                                    Placement::Retyped { region: r, offset: off, size_bits: b as u8 },
                                );
                            },
                        }
                    },
                }
            },
        }
        proof {
            assert(used@ =~= after(used0, pls@.last()));
        }
        i = i + 1;
    }
    Ok(pls)
}


/// Bytes taken from region `r` by the first `n` placements.
pub open spec fn consumed_in(pls: Seq<Placement>, r: int, n: nat) -> int
    decreases n,
{
    if n == 0 {
        0
    } else {
        consumed_in(pls, r, (n - 1) as nat) + match pls[n - 1] {
            Placement::Retyped { region, size_bits, .. } => if region == r {
                pow2(size_bits as nat) as int
            } else {
                0
            },
            Placement::Issued => 0,
        }
    }
}

proof fn lemma_place(objs: Seq<ObjectDecl>, regions: Seq<UntypedDesc>, used: Seq<u64>, k: int)
    requires
        inventory_wf(regions),
        used.len() == regions.len(),
    ensures
        match place(objs, regions, used, k) {
            Some(Placement::Retyped { region, offset, size_bits }) => {
                &&& region < regions.len()
                &&& used[region as int] <= offset
                &&& offset + pow2(size_bits as nat) <= capacity(regions[region as int])
            },
            _ => true,
        },
{
    lemma2_to64_rest();
    match spec_object_bits(objs[k]) {
        None => {},
        Some(b) => {
            if b < 64 {
                let a = pow2(b as nat) as int;
                lemma_pow2_pos(b as nat);
                match spec_fixed_paddr(objs[k]) {
                    Some(p) => {
                        lemma_first_fixed(regions, used, p as int, b as nat, 0);
                        match first_fixed_from(regions, used, p as int, b as nat, 0) {
                            Some(r) => {
                                assert(regions[r].size_bits < 64);
                                lemma_pow2_strictly_increases(regions[r].size_bits as nat, 64);
                                let off = p - regions[r].paddr;
                                assert(0 <= off < 0x10000000000000000);
                                assert((off as u64) as int == off);
                                assert((b as u8) as nat == b as nat);
                            },
                            None => {},
                        }
                    },
                    None => {
                        lemma_first_general(objs, regions, used, b as nat, 0);
                        match first_general_from(objs, regions, used, b as nat, 0) {
                            Some(r) => {
                                assert(regions[r].size_bits < 64);
                                lemma_pow2_strictly_increases(regions[r].size_bits as nat, 64);
                                lemma_align_up(used[r] as int, a);
                                let off = align_up(used[r] as int, a);
                                assert(0 <= off < 0x10000000000000000);
                                assert((off as u64) as int == off);
                                assert((b as u8) as nat == b as nat);
                            },
                            None => {},
                        }
                    },
                }
            }
        },
    }
}

proof fn lemma_prefix_sound(objs: Seq<ObjectDecl>, regions: Seq<UntypedDesc>, n: nat)
    requires
        inventory_wf(regions),
    ensures
        match plan_prefix(objs, regions, n) {
            Ok((used, pls)) => {
                &&& used.len() == regions.len()
                &&& pls.len() == n
                &&& forall|r: int|
                    0 <= r < regions.len() ==> consumed_in(pls, r, n) <= #[trigger] used[r]
                        <= capacity(regions[r])
                &&& forall|k: int|
                    0 <= k < n ==> match #[trigger] pls[k] {
                        Placement::Retyped { region, offset, size_bits } => region < regions.len()
                            && offset + pow2(size_bits as nat) <= used[region as int],
                        Placement::Issued => true,
                    }
                &&& forall|k1: int, k2: int|
                    0 <= k1 < k2 < n ==> disjoint_in_order(#[trigger] pls[k1], #[trigger] pls[k2])
            },
            Err(_) => true,
        },
    decreases n,
{
    if n > 0 {
        lemma_prefix_sound(objs, regions, (n - 1) as nat);
        match plan_prefix(objs, regions, (n - 1) as nat) {
            Err(_) => {},
            Ok((used, pls)) => {
                lemma_place(objs, regions, used, n - 1);
                match place(objs, regions, used, n - 1) {
                    None => {},
                    Some(p) => {
                        let used2 = after(used, p);
                        let pls2 = pls.push(p);
                        assert(pls2[n - 1] == p);
                        assert forall|r: int| 0 <= r < regions.len() implies used[r] <= #[trigger] used2[r]
                            <= capacity(regions[r]) by {
                            match p {
                                Placement::Retyped { region, offset, size_bits } => {
                                    assert(regions[region as int].size_bits < 64);
                                    lemma2_to64_rest();
                                    lemma_pow2_strictly_increases(
                                        regions[region as int].size_bits as nat,
                                        64,
                                    );
                                    lemma_pow2_pos(size_bits as nat);
                                },
                                Placement::Issued => {},
                            }
                        }
                        assert forall|r: int| 0 <= r < regions.len() implies consumed_in(
                            pls2,
                            r,
                            n,
                        ) <= #[trigger] used2[r] by {
                            lemma_consumed_prefix(pls, p, r, (n - 1) as nat);
                            assert(consumed_in(pls, r, (n - 1) as nat) <= used[r]);
                            match p {
                                Placement::Retyped { region, offset, size_bits } => {
                                    assert(regions[region as int].size_bits < 64);
                                    lemma2_to64_rest();
                                    lemma_pow2_strictly_increases(
                                        regions[region as int].size_bits as nat,
                                        64,
                                    );
                                },
                                Placement::Issued => {},
                            }
                        }
                        assert forall|k: int| 0 <= k < n implies match #[trigger] pls2[k] {
                            Placement::Retyped { region, offset, size_bits } => region
                                < regions.len() && offset + pow2(size_bits as nat)
                                <= used2[region as int],
                            Placement::Issued => true,
                        } by {
                            if k < n - 1 {
                                assert(pls2[k] == pls[k]);
                                match pls[k] {
                                    Placement::Retyped { region, .. } => {
                                        assert(used[region as int] <= used2[region as int]);
                                    },
                                    Placement::Issued => {},
                                }
                            } else {
                                match p {
                                    Placement::Retyped { region, offset, size_bits } => {
                                        assert(regions[region as int].size_bits < 64);
                                        lemma2_to64_rest();
                                        lemma_pow2_strictly_increases(
                                            regions[region as int].size_bits as nat,
                                            64,
                                        );
                                    },
                                    Placement::Issued => {},
                                }
                            }
                        }
                        assert forall|k1: int, k2: int| 0 <= k1 < k2 < n implies disjoint_in_order(
                            #[trigger] pls2[k1],
                            #[trigger] pls2[k2],
                        ) by {
                            assert(pls2[k1] == pls[k1]);
                            if k2 < n - 1 {
                                assert(pls2[k2] == pls[k2]);
                            }
                        }
                    },
                }
            },
        }
    }
}

proof fn lemma_consumed_prefix(pls: Seq<Placement>, p: Placement, r: int, n: nat)
    requires
        n <= pls.len(),
    ensures
        consumed_in(pls.push(p), r, n) == consumed_in(pls, r, n),
    decreases n,
{
    if n > 0 {
        lemma_consumed_prefix(pls, p, r, (n - 1) as nat);
        assert(pls.push(p)[n - 1] == pls[n - 1]);
    }
}

/// Bytes offered by the first `m` regions.
pub open spec fn total_capacity(regions: Seq<UntypedDesc>, m: nat) -> int
    decreases m,
{
    if m == 0 {
        0
    } else {
        total_capacity(regions, (m - 1) as nat) + capacity(regions[m - 1])
    }
}

/// Bytes taken by all placements from the first `m` regions.
pub open spec fn total_consumed(pls: Seq<Placement>, m: nat) -> int
    decreases m,
{
    if m == 0 {
        0
    } else {
        total_consumed(pls, (m - 1) as nat) + consumed_in(pls, m - 1, pls.len())
    }
}

proof fn lemma_total(pls: Seq<Placement>, regions: Seq<UntypedDesc>, m: nat)
    requires
        m <= regions.len(),
        forall|r: int|
            0 <= r < regions.len() ==> #[trigger] consumed_in(pls, r, pls.len()) <= capacity(
                regions[r],
            ),
    ensures
        total_consumed(pls, m) <= total_capacity(regions, m),
    decreases m,
{
    if m > 0 {
        lemma_total(pls, regions, (m - 1) as nat);
        assert(consumed_in(pls, m - 1, pls.len()) <= capacity(regions[m - 1]));
    }
}

/// Two placements in the same region: the first ends before the second
/// starts.
pub open spec fn disjoint_in_order(p1: Placement, p2: Placement) -> bool {
    match (p1, p2) {
        (
            Placement::Retyped { region: r1, offset: o1, size_bits: b1 },
            Placement::Retyped { region: r2, offset: o2, .. },
        ) => r1 == r2 ==> o1 + pow2(b1 as nat) <= o2,
        _ => true,
    }
}

/// Materialization never takes more than the inventory offers: every object
/// lies inside its region, no two objects in one region overlap, the bytes
/// taken from each region add up to no more than its size, and the bytes
/// taken in all add up to no more than the inventory's total.
pub proof fn lemma_conservation(objs: Seq<ObjectDecl>, regions: Seq<UntypedDesc>)
    requires
        inventory_wf(regions),
    ensures
        match materialization(objs, regions) {
            Ok(pls) => {
                &&& pls.len() == objs.len()
                &&& forall|r: int|
                    0 <= r < regions.len() ==> #[trigger] consumed_in(pls, r, pls.len())
                        <= capacity(regions[r])
                &&& total_consumed(pls, regions.len()) <= total_capacity(regions, regions.len())
                &&& forall|k: int|
                    0 <= k < pls.len() ==> match #[trigger] pls[k] {
                        Placement::Retyped { region, offset, size_bits } => region < regions.len()
                            && offset + pow2(size_bits as nat) <= capacity(regions[region as int]),
                        Placement::Issued => true,
                    }
                &&& forall|k1: int, k2: int|
                    0 <= k1 < pls.len() && 0 <= k2 < pls.len() && k1 != k2 ==> {
                        ||| disjoint_in_order(#[trigger] pls[k1], #[trigger] pls[k2])
                        ||| disjoint_in_order(pls[k2], pls[k1])
                    }
            },
            Err(_) => true,
        },
{
    lemma_prefix_sound(objs, regions, objs.len());
    match plan_prefix(objs, regions, objs.len()) {
        Ok((used, pls)) => {
            assert forall|r: int| 0 <= r < regions.len() implies #[trigger] consumed_in(
                pls,
                r,
                pls.len(),
            ) <= capacity(regions[r]) by {
                assert(used[r] <= capacity(regions[r]));
            }
            lemma_total(pls, regions, regions.len());
            assert forall|k: int| 0 <= k < pls.len() implies match #[trigger] pls[k] {
                Placement::Retyped { region, offset, size_bits } => region < regions.len() && offset
                    + pow2(size_bits as nat) <= capacity(regions[region as int]),
                Placement::Issued => true,
            } by {
                match pls[k] {
                    Placement::Retyped { region, .. } => {
                        assert(used[region as int] <= capacity(regions[region as int]));
                    },
                    _ => {},
                }
            }
            assert forall|k1: int, k2: int|
                0 <= k1 < pls.len() && 0 <= k2 < pls.len() && k1 != k2 implies {
                ||| disjoint_in_order(#[trigger] pls[k1], #[trigger] pls[k2])
                ||| disjoint_in_order(pls[k2], pls[k1])
            } by {
                if k1 < k2 {
                    assert(disjoint_in_order(pls[k1], pls[k2]));
                } else {
                    assert(disjoint_in_order(pls[k2], pls[k1]));
                }
            }
        },
        Err(_) => {},
    }
}


pub(crate) proof fn lemma_placement_count(objs: Seq<ObjectDecl>, regions: Seq<UntypedDesc>, n: nat)
    ensures
        match plan_prefix(objs, regions, n) {
            Ok((used, pls)) => pls.len() == n,
            Err(_) => true,
        },
    decreases n,
{
    if n > 0 {
        lemma_placement_count(objs, regions, (n - 1) as nat);
    }
}

} // verus!
