//! Rounding addresses up to alignment boundaries.

use vstd::arithmetic::power2::is_pow2;
use vstd::prelude::*;

verus! {

/// The smallest multiple of `align` that is not below `addr`.
pub open spec fn align_up_spec(addr: int, align: int) -> int
    recommends
        align > 0,
{
    if addr % align == 0 {
        addr
    } else {
        addr - addr % align + align
    }
}

/// `align_up_spec` is a multiple of the alignment and lies less than one
/// alignment step above the address.
pub proof fn lemma_align_up_bounds(addr: int, align: int)
    requires
        align > 0,
    ensures
        align_up_spec(addr, align) % align == 0,
        addr <= align_up_spec(addr, align) < addr + align,
{
    let r = align_up_spec(addr, align);
    assert(r % align == 0 && addr <= r < addr + align) by (nonlinear_arith)
        requires
            align > 0,
            r == if addr % align == 0 {
                addr
            } else {
                addr - addr % align + align
            },
    ;
}

/// No multiple of the alignment lies between an address and its rounding up.
pub proof fn lemma_align_up_is_least(addr: int, align: int, m: int)
    requires
        align > 0,
        addr <= m,
        m % align == 0,
    ensures
        align_up_spec(addr, align) <= m,
{
    let r = align_up_spec(addr, align);
    lemma_align_up_bounds(addr, align);
    if m < r {
        assert(false) by (nonlinear_arith)
            requires
                align > 0,
                addr <= m < r,
                r < addr + align,
                m % align == 0,
                r % align == 0,
        ;
    }
}

/// Rounding up leaves an aligned address where it is.
pub proof fn lemma_align_up_of_aligned(addr: int, align: int)
    requires
        align > 0,
        addr % align == 0,
    ensures
        align_up_spec(addr, align) == addr,
{
}

/// A power of two is at least one.
pub proof fn lemma_pow2_positive(n: int)
    requires
        is_pow2(n),
    ensures
        n >= 1,
{
    reveal(is_pow2);
}

/// Of two powers of two the smaller divides the larger.
pub proof fn lemma_pow2_divides(small: int, large: int)
    requires
        is_pow2(small),
        is_pow2(large),
        small <= large,
    ensures
        large % small == 0,
    decreases small,
{
    reveal(is_pow2);
    if small > 1 {
        lemma_pow2_divides(small / 2, large / 2);
        let half = small / 2;
        let k = (large / 2) / half;
        assert(large / 2 == half * k) by (nonlinear_arith)
            requires
                half > 0,
                (large / 2) % half == 0,
                k == (large / 2) / half,
        ;
        assert(large == k * small) by (nonlinear_arith)
            requires
                large == 2 * (large / 2),
                small == 2 * half,
                large / 2 == half * k,
        ;
        vstd::arithmetic::div_mod::lemma_mod_multiples_basic(k, small);
    }
}

/// An address aligned to a multiple of `align` is aligned to `align`.
pub proof fn lemma_aligned_to_multiple(addr: int, coarse: int, align: int)
    requires
        align > 0,
        coarse > 0,
        coarse % align == 0,
        addr % coarse == 0,
    ensures
        addr % align == 0,
{
    let q = addr / coarse;
    let p = coarse / align;
    assert(addr == coarse * q) by (nonlinear_arith)
        requires
            coarse > 0,
            addr % coarse == 0,
            q == addr / coarse,
    ;
    assert(coarse == align * p) by (nonlinear_arith)
        requires
            align > 0,
            coarse % align == 0,
            p == coarse / align,
    ;
    assert(addr == (p * q) * align) by (nonlinear_arith)
        requires
            addr == coarse * q,
            coarse == align * p,
    ;
    vstd::arithmetic::div_mod::lemma_mod_multiples_basic(p * q, align);
}

/// Rounds `addr` up to the next multiple of `align`, or reports that this
/// multiple is not a representable address.
pub fn checked_align_up(addr: usize, align: usize) -> (aligned: Option<usize>)
    requires
        align > 0,
    ensures
        aligned == if align_up_spec(addr as int, align as int) <= usize::MAX {
            Some(align_up_spec(addr as int, align as int) as usize)
        } else {
            None
        },
{
    let rem: usize = addr % align;
    proof {
        vstd::arithmetic::div_mod::lemma_mod_decreases(addr as nat, align as nat);
    }
    if rem == 0 {
        Some(addr)
    } else {
        (addr - rem).checked_add(align)
    }
}

/// Rounds `addr` up to the next multiple of `align`.
pub fn align_up(addr: usize, align: usize) -> (aligned: usize)
    requires
        align > 0,
        align_up_spec(addr as int, align as int) <= usize::MAX,
    ensures
        aligned == align_up_spec(addr as int, align as int),
{
    let rem: usize = addr % align;
    proof {
        vstd::arithmetic::div_mod::lemma_mod_decreases(addr as nat, align as nat);
    }
    if rem == 0 {
        addr
    } else {
        addr - rem + align
    }
}

/// Tells whether `n` is a power of two.
pub fn is_power_of_two(n: usize) -> (yes: bool)
    ensures
        yes == is_pow2(n as int),
{
    if n == 0 {
        proof {
            reveal(is_pow2);
        }
        return false;
    }
    let mut m: usize = n;
    while m % 2 == 0
        invariant
            0 < m <= n,
            is_pow2(m as int) == is_pow2(n as int),
        decreases m,
    {
        proof {
            reveal(is_pow2);
        }
        m = m / 2;
    }
    proof {
        reveal(is_pow2);
    }
    m == 1
}

} // verus!
