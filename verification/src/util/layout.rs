//! Size and alignment arithmetic shared by the arenas and allocators.

use vstd::prelude::*;

verus! {

/// Whether `a` is a power of two.
pub open spec fn is_pow2(a: nat) -> bool
    decreases a,
{
    if a == 0 {
        false
    } else if a == 1 {
        true
    } else {
        a % 2 == 0 && is_pow2(a / 2)
    }
}

/// `x` rounded up to the next multiple of `align`.
pub open spec fn align_up(x: nat, align: nat) -> nat
    recommends
        align > 0,
{
    if x % align == 0 {
        x
    } else {
        (x + (align - x % align)) as nat
    }
}

/// Whether a block of `size` bytes aligned to `align` is a valid layout:
/// the alignment is a power of two and the size, rounded up to it, does
/// not exceed `isize::MAX`.
pub open spec fn layout_ok(size: nat, align: nat) -> bool {
    is_pow2(align) && align_up(size, align) <= isize::MAX
}

/// Whether `a` is a power of two.
pub fn is_power_of_two(a: usize) -> (b: bool)
    ensures
        b == is_pow2(a as nat),
{
    let mut x: usize = a;
    while x > 1
        invariant
            is_pow2(a as nat) == is_pow2(x as nat),
            x >= 1 || a == 0,
            x == 0 ==> a == 0,
        decreases x,
    {
        if x % 2 != 0 {
            return false;
        }
        x = x / 2;
    }
    x == 1
}

/// `x` rounded up to a multiple of `align`, if that fits in `usize`.
pub fn checked_align_up(x: usize, align: usize) -> (r: Option<usize>)
    requires
        align > 0,
    ensures
        match r {
            Some(y) => y == align_up(x as nat, align as nat),
            None => align_up(x as nat, align as nat) > usize::MAX,
        },
{
    let rem = x % align;
    if rem == 0 {
        Some(x)
    } else {
        x.checked_add(align - rem)
    }
}

/// Whether `size` bytes aligned to `align` make a valid layout.
pub fn check_layout(size: usize, align: usize) -> (b: bool)
    ensures
        b == layout_ok(size as nat, align as nat),
{
    if !is_power_of_two(align) {
        return false;
    }
    match checked_align_up(size, align) {
        Some(y) => y <= isize::MAX as usize,
        None => false,
    }
}

/// Rounding up gives a multiple of the alignment that is at least `x` and
/// less than `x + align`.
pub proof fn law_align_up(x: nat, align: nat)
    requires
        align > 0,
    ensures
        align_up(x, align) % align == 0,
        x <= align_up(x, align) < x + align,
{
    let xi = x as int;
    let ai = align as int;
    let q = xi / ai;
    let r = xi % ai;
    vstd::arithmetic::div_mod::lemma_fundamental_div_mod(xi, ai);
    if r != 0 {
        assert(xi + (ai - r) == (q + 1) * ai) by (nonlinear_arith)
            requires
                xi == ai * q + r,
        ;
        vstd::arithmetic::div_mod::lemma_mod_multiples_basic(q + 1, ai);
    }
}

} // verus!
