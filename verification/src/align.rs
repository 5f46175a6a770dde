//! Address alignment: the arithmetic facts the allocators rely on, and the
//! alignment helpers of the `x86_64` crate.

use vstd::prelude::*;
use vstd::arithmetic::div_mod::{lemma_fundamental_div_mod, lemma_mod_multiples_basic};

verus! {

/// `a` is a power of two.
pub open spec fn is_pow2(a: u64) -> bool {
    a != 0 && a & ((a - 1) as u64) == 0
}

/// The smallest multiple of `a` that is at least `x`.
pub open spec fn round_up(x: int, a: int) -> int {
    if x % a == 0 {
        x
    } else {
        x - x % a + a
    }
}

/// The largest multiple of `a` that is at most `x`.
pub open spec fn round_down(x: int, a: int) -> int {
    x - x % a
}

/// `x86_64::align_up`: the smallest multiple of `align` that is at least `addr`.
/// The crate panics when `align` is not a power of two or when that multiple
/// does not fit in a `u64`; both inputs are left out here.
pub assume_specification[x86_64::align_up](addr: u64, align: u64) -> (r: u64)
    requires
        is_pow2(align),
        round_up(addr as int, align as int) <= u64::MAX,
    ensures
        r == round_up(addr as int, align as int),
;

/// `x86_64::align_down`: the largest multiple of `align` that is at most `addr`.
/// The crate panics when `align` is not a power of two; that input is left out here.
pub assume_specification[x86_64::align_down](addr: u64, align: u64) -> (r: u64)
    requires
        is_pow2(align),
    ensures
        r == round_down(addr as int, align as int),
;

/// Whether `x` is a power of two.
pub fn is_power_of_two(x: u64) -> (r: bool)
    ensures
        r == is_pow2(x),
{
    x != 0 && (x & (x - 1)) == 0
}

/// A power of two fits in the top bit at most.
pub proof fn lemma_pow2_bound(a: u64)
    requires
        is_pow2(a),
    ensures
        1 <= a <= 0x8000_0000_0000_0000u64,
{
    assert(a != 0 && a & ((a - 1) as u64) == 0 ==> a <= 0x8000_0000_0000_0000u64) by (bit_vector);
}

pub proof fn lemma_round_up(x: int, a: int)
    requires
        0 <= x,
        0 < a,
    ensures
        round_up(x, a) % a == 0,
        x <= round_up(x, a) < x + a,
        x % a == 0 ==> round_up(x, a) == x,
{
    lemma_fundamental_div_mod(x, a);
    if x % a != 0 {
        let k = x / a;
        assert(round_up(x, a) == (k + 1) * a) by (nonlinear_arith)
            requires
                x == a * k + x % a,
                round_up(x, a) == x - x % a + a;
        lemma_mod_multiples_basic(k + 1, a);
    }
}

pub proof fn lemma_round_down(x: int, a: int)
    requires
        0 <= x,
        0 < a,
    ensures
        round_down(x, a) % a == 0,
        x - a < round_down(x, a) <= x,
        0 <= round_down(x, a),
{
    lemma_fundamental_div_mod(x, a);
    let k = x / a;
    assert(round_down(x, a) == k * a) by (nonlinear_arith)
        requires
            x == a * k + x % a,
            round_down(x, a) == x - x % a;
    lemma_mod_multiples_basic(k, a);
    assert(k >= 0) by (nonlinear_arith)
        requires
            x == a * k + x % a,
            0 <= x % a < a,
            0 <= x;
    assert(k * a >= 0) by (nonlinear_arith)
        requires
            k >= 0,
            a > 0;
}

/// Two multiples of `a` less than `a` apart are equal.
pub proof fn lemma_multiples_gap(y: int, z: int, a: int)
    requires
        0 < a,
        y % a == 0,
        z % a == 0,
        z - a < y <= z,
    ensures
        y == z,
{
    lemma_fundamental_div_mod(y, a);
    lemma_fundamental_div_mod(z, a);
    let ky = y / a;
    let kz = z / a;
    assert(ky == kz) by (nonlinear_arith)
        requires
            y == a * ky,
            z == a * kz,
            z - a < y <= z,
            0 < a;
}

/// `round_up(x, a)` is the least multiple of `a` that is at least `x`.
pub proof fn lemma_round_up_least(x: int, a: int, y: int)
    requires
        0 <= x,
        0 < a,
        y % a == 0,
        x <= y,
    ensures
        round_up(x, a) <= y,
{
    lemma_round_up(x, a);
    if y < round_up(x, a) {
        lemma_multiples_gap(y, round_up(x, a), a);
    }
}

} // verus!
