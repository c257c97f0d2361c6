//! Rounding as double-precision arithmetic rounds, done in whole numbers.
//!
//! A double holds 53 binary digits. A whole number with more digits, and a
//! quotient, are taken to the nearest number that 53 digits can hold; of two
//! that are equally near, to the one whose last digit is zero.

use vstd::arithmetic::div_mod::{
    lemma_div_is_ordered, lemma_div_nonincreasing, lemma_fundamental_div_mod,
    lemma_multiply_divide_lt,
};
use vstd::arithmetic::power2::{
    lemma2_to64, lemma2_to64_rest, lemma_pow2_pos, lemma_pow2_strictly_increases,
    lemma_pow2_unfold, pow2,
};
use vstd::prelude::*;

verus! {

/// The whole number nearest to `num / den`; of two that are equally near,
/// the even one.
pub open spec fn nearest(num: nat, den: nat) -> nat {
    let whole = num / den;
    let rest = num % den;
    if 2 * rest > den || (2 * rest == den && whole % 2 == 1) {
        whole + 1
    } else {
        whole
    }
}

/// The place of the leading binary digit of `n`: how often `n` can be halved
/// before one is left.
pub open spec fn order_of(n: nat) -> nat
    decreases n,
{
    if n <= 1 {
        0
    } else {
        1 + order_of(n / 2)
    }
}

/// The whole number `n` as a double holds it.
pub open spec fn double_of(n: nat) -> nat {
    if order_of(n) <= 52 {
        n
    } else {
        let low = pow2((order_of(n) - 52) as nat);
        nearest(n, low) * low
    }
}

/// A binary fraction: `mantissa / 2^scale`.
pub ghost struct Fraction {
    pub mantissa: nat,
    pub scale: nat,
}

/// The quotient `num / den` as the division of doubles gives it, for a
/// quotient from one up to 2^53.
pub open spec fn double_quotient(num: nat, den: nat) -> Fraction {
    let scale = (52 - order_of(num / den)) as nat;
    Fraction { mantissa: nearest(num * pow2(scale), den), scale }
}

/// How many tenths `bytes / unit` comes to, where `bytes` is first taken as
/// a double, then the quotient, and the quotient is rounded to tenths.
pub open spec fn tenths(bytes: nat, unit: nat) -> nat {
    let quotient = double_quotient(double_of(bytes), unit);
    nearest(10 * quotient.mantissa, pow2(quotient.scale))
}

/// The leading binary digit of `n` stands at the place `order_of(n)`.
proof fn lemma_order_of(n: nat)
    requires
        n >= 1,
    ensures
        pow2(order_of(n)) <= n < 2 * pow2(order_of(n)),
    decreases n,
{
    if n <= 1 {
        lemma2_to64();
    } else {
        lemma_order_of(n / 2);
        lemma_pow2_unfold(order_of(n));
    }
}

/// A number below `2^k` has its leading digit below the place `k`.
proof fn lemma_order_below(n: nat, k: nat)
    requires
        n < pow2(k),
    ensures
        k == 0 || order_of(n) < k,
{
    if n >= 1 && order_of(n) >= k {
        lemma_order_of(n);
        if order_of(n) > k {
            lemma_pow2_strictly_increases(k, order_of(n));
        }
    }
    if n == 0 && k > 0 {
    }
}

/// Powers of two grow with their exponent.
proof fn lemma_pow2_grows(a: nat, b: nat)
    requires
        a <= b,
    ensures
        pow2(a) <= pow2(b),
{
    if a < b {
        lemma_pow2_strictly_increases(a, b);
    }
}

/// The whole number nearest to `num / den`; of two that are equally near,
/// the even one.
fn nearest_to(num: u128, den: u128) -> (n: u128)
    requires
        0 < den <= u64::MAX,
        num < u128::MAX,
    ensures
        n == nearest(num as nat, den as nat),
        n <= num + 1,
        n * den <= num + den,
        den == 1 ==> n == num,
{
    let whole = num / den;
    let rest = num % den;
    proof {
        lemma_div_nonincreasing(num as int, den as int);
        lemma_fundamental_div_mod(num as int, den as int);
        assert((whole + 1) * den == whole * den + den) by (nonlinear_arith);
        assert(whole * den == den * whole) by (nonlinear_arith);
    }
    if 2 * rest > den || (2 * rest == den && whole % 2 == 1) {
        whole + 1
    } else {
        whole
    }
}

/// The place of the leading binary digit of `n`.
fn order(n: u64) -> (e: u32)
    ensures
        e == order_of(n as nat),
        e <= 63,
{
    proof {
        lemma2_to64();
        lemma_order_below(n as nat, 64);
    }
    let mut e: u32 = 0;
    let mut m: u64 = n;
    while m > 1
        invariant
            e + order_of(m as nat) == order_of(n as nat),
            order_of(n as nat) <= 63,
        decreases m,
    {
        m = m / 2;
        e = e + 1;
    }
    e
}

/// Two to the power `e`.
fn power_of_two(e: u32) -> (p: u64)
    requires
        e <= 63,
    ensures
        p == pow2(e as nat),
{
    proof {
        lemma2_to64();
        lemma2_to64_rest();
    }
    let mut p: u64 = 1;
    let mut i: u32 = 0;
    while i < e
        invariant
            i <= e <= 63,
            p == pow2(i as nat),
            pow2(63) == 0x8000000000000000,
        decreases e - i,
    {
        proof {
            lemma_pow2_unfold((i + 1) as nat);
            lemma_pow2_grows((i + 1) as nat, 63);
        }
        p = p * 2;
        i = i + 1;
    }
    p
}

/// The whole number `n` as a double holds it.
fn to_double(n: u64) -> (b: u128)
    ensures
        b == double_of(n as nat),
        b <= 2 * n,
{
    let e = order(n);
    if e <= 52 {
        n as u128
    } else {
        let low = power_of_two(e - 52) as u128;
        proof {
            lemma_order_of(n as nat);
            lemma_pow2_grows((e - 52) as nat, e as nat);
            lemma_pow2_pos((e - 52) as nat);
        }
        let kept = nearest_to(n as u128, low);
        assert(kept * low <= 2 * n);
        kept * low
    }
}

/// The quotient `num / den` as the division of doubles gives it: the
/// mantissa, and the scale.
fn divide(num: u128, den: u64) -> (quotient: (u128, u32))
    requires
        den > 0,
        num <= 0x2_0000_0000_0000_0000,
        num / (den as u128) < 0x10_0000_0000_0000,
    ensures
        quotient.0 == double_quotient(num as nat, den as nat).mantissa,
        quotient.1 == double_quotient(num as nat, den as nat).scale,
        quotient.1 <= 52,
        quotient.0 <= 0x40_0000_0000_0000_0000_0000_0000_0000,
{
    let ratio = (num / (den as u128)) as u64;
    let e = order(ratio);
    proof {
        lemma2_to64();
        lemma2_to64_rest();
        lemma_order_below(ratio as nat, 52);
    }
    let scale = 52 - e;
    let p = power_of_two(scale) as u128;
    proof {
        lemma_pow2_grows(scale as nat, 52);
        assert(num * p <= 0x2_0000_0000_0000_0000 * 0x10_0000_0000_0000) by (nonlinear_arith)
            requires
                num <= 0x2_0000_0000_0000_0000,
                p <= 0x10_0000_0000_0000,
        ;
    }
    let mantissa = nearest_to(num * p, den as u128);
    (mantissa, scale)
}

/// How many tenths `bytes / unit` comes to, as double-precision arithmetic
/// has the quotient.
pub fn tenths_of(bytes: u64, unit: u64) -> (t: u128)
    requires
        unit > 0,
        bytes / unit < 0x4_0000_0000_0000,
    ensures
        t == tenths(bytes as nat, unit as nat),
{
    let b = to_double(bytes);
    proof {
        let k = (bytes / unit) as int;
        let r = (bytes % unit) as int;
        lemma_fundamental_div_mod(bytes as int, unit as int);
        assert(2 * bytes < unit * (2 * k + 2)) by (nonlinear_arith)
            requires
                bytes == unit * k + r,
                0 <= r,
                r < unit,
        ;
        lemma_multiply_divide_lt(2 * (bytes as int), unit as int, 2 * k + 2);
        lemma_div_is_ordered(b as int, 2 * (bytes as int), unit as int);
    }
    let (mantissa, scale) = divide(b, unit);
    let p = power_of_two(scale) as u128;
    proof {
        lemma_pow2_pos(scale as nat);
    }
    nearest_to(10 * mantissa, p)
}

} // verus!
