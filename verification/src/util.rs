//! Address alignment arithmetic used throughout the allocator and the
//! virtual-memory manager. Addresses are modelled as `u64`, the width of
//! a physical or virtual address on this machine.

use vstd::prelude::*;

verus! {

/// `align` is a nonzero power of two.
pub open spec fn is_pow2_align(align: int) -> bool {
    align >= 1 && vstd::arithmetic::power2::is_pow2(align)
}

/// The greatest multiple of `align` that is at most `addr`.
pub open spec fn align_down_spec(addr: int, align: int) -> int {
    addr - addr % align
}

/// The least multiple of `align` that is at least `addr`.
pub open spec fn align_up_spec(addr: int, align: int) -> int {
    if addr % align == 0 {
        addr
    } else {
        addr - addr % align + align
    }
}

/// Align `addr` downwards to the nearest multiple of `align`.
///
/// The returned address is always `<= addr`.
pub fn align_down(addr: u64, align: u64) -> (r: u64)
    requires
        is_pow2_align(align as int),
    ensures
        r == align_down_spec(addr as int, align as int),
        r <= addr,
        r % align == 0,
{
    proof {
        lemma_align_mod_facts(addr as int, align as int);
    }
    addr - (addr % align)
}

/// Align `addr` upwards to the nearest multiple of `align`.
///
/// The returned address is always `>= addr`; the computation must not
/// overflow the address space.
pub fn align_up(addr: u64, align: u64) -> (r: u64)
    requires
        is_pow2_align(align as int),
        align_up_spec(addr as int, align as int) <= u64::MAX,
    ensures
        r == align_up_spec(addr as int, align as int),
        r >= addr,
        r % align == 0,
{
    proof {
        lemma_align_mod_facts(addr as int, align as int);
    }
    if addr % align == 0 {
        addr
    } else {
        (addr - (addr % align)) + align
    }
}

/// Mutable access to one element of a vector.
pub fn vec_el_mut<T>(v: &mut Vec<T>, i: usize) -> (r: &mut T)
    requires
        i < old(v).len(),
    ensures
        *r == old(v)@[i as int],
        final(v)@ == old(v)@.update(i as int, *final(r)),
{
    &mut v[i]
}

/// Every value of the form `2^e` satisfies `is_pow2_align`.
pub proof fn lemma_pow2_is_pow2(e: nat)
    ensures
        is_pow2_align(vstd::arithmetic::power2::pow2(e) as int),
        vstd::arithmetic::power2::pow2(e) >= 1,
{
    vstd::arithmetic::power2::lemma_pow2_pos(e);
    vstd::arithmetic::power::lemma_pow_positive(2, e);
    let p = vstd::arithmetic::power2::pow2(e) as int;
    assert(vstd::arithmetic::power2::is_pow2_exists(p)) by {
        assert(vstd::arithmetic::power::pow(2, e) == p);
    }
    vstd::arithmetic::power2::is_pow2_equiv(p);
}

/// Every nonzero power of two is `2^e` for some exponent `e`.
pub proof fn lemma_pow2_get_exp(p: int)
    requires
        is_pow2_align(p),
    ensures
        exists|e: nat| vstd::arithmetic::power2::pow2(e) == p,
{
    vstd::arithmetic::power2::is_pow2_equiv(p);
    let i = choose|i: nat| vstd::arithmetic::power::pow(2, i) == p;
    assert(vstd::arithmetic::power2::pow2(i) == p);
}

/// The sum of two multiples of `c` is a multiple of `c`.
pub proof fn lemma_mod_sum_multiple(a: int, b: int, c: int)
    requires
        c >= 1,
        a >= 0,
        b >= 0,
        a % c == 0,
        b % c == 0,
    ensures
        (a + b) % c == 0,
{
    vstd::arithmetic::div_mod::lemma_fundamental_div_mod(a, c);
    vstd::arithmetic::div_mod::lemma_fundamental_div_mod(b, c);
    assert(a + b == c * (a / c + b / c)) by {
        vstd::arithmetic::mul::lemma_mul_is_distributive_add(c, a / c, b / c);
    }
    vstd::arithmetic::div_mod::lemma_mod_multiples_basic(a / c + b / c, c);
    vstd::arithmetic::mul::lemma_mul_is_commutative(c, a / c + b / c);
}

/// For a positive divisor, the remainder is in range and subtracting it
/// (or rounding up to the next multiple) leaves a multiple of the divisor.
pub proof fn lemma_align_mod_facts(addr: int, align: int)
    requires
        addr >= 0,
        align >= 1,
    ensures
        0 <= addr % align < align,
        addr % align <= addr,
        (addr - addr % align) % align == 0,
        (addr - addr % align + align) % align == 0,
{
    vstd::arithmetic::div_mod::lemma_fundamental_div_mod(addr, align);
    vstd::arithmetic::div_mod::lemma_mod_division_less_than_divisor(addr, align);
    vstd::arithmetic::div_mod::lemma_div_pos_is_pos(addr, align);
    let q = addr / align;
    assert(addr - addr % align == align * q);
    vstd::arithmetic::div_mod::lemma_mod_multiples_basic(q, align);
    vstd::arithmetic::div_mod::lemma_mod_multiples_basic(q + 1, align);
    assert(q * align == align * q) by {
        vstd::arithmetic::mul::lemma_mul_is_commutative(q, align);
    }
    assert((q + 1) * align == align * q + align) by {
        vstd::arithmetic::mul::lemma_mul_is_distributive_add_other_way(align, q, 1);
        vstd::arithmetic::mul::lemma_mul_is_commutative(q + 1, align);
    }
}

} // verus!
