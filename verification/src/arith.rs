//! Arithmetic on the 16-bit integers of the modelling language.
//!
//! Sums, differences and products wrap around; quotients round towards zero
//! and a remainder has the sign of its dividend.

use vstd::prelude::*;

verus! {

/// The 16-bit integer that `x` wraps around to.
pub open spec fn wrap16(x: int) -> int {
    ((x + 32768) % 65536) - 32768
}

/// The distance of `x` from zero.
pub open spec fn magnitude(x: int) -> int {
    if x < 0 {
        -x
    } else {
        x
    }
}

/// The quotient of `l` by `r`, rounded towards zero.
pub open spec fn quotient(l: int, r: int) -> int
    recommends
        r != 0,
{
    if (l >= 0) == (r > 0) {
        magnitude(l) / magnitude(r)
    } else {
        -(magnitude(l) / magnitude(r))
    }
}

/// The remainder of `l` by `r`, with the sign of `l`.
pub open spec fn remainder(l: int, r: int) -> int
    recommends
        r != 0,
{
    if l >= 0 {
        magnitude(l) % magnitude(r)
    } else {
        -(magnitude(l) % magnitude(r))
    }
}

/// A number that fits in 16 bits wraps around to itself.
pub proof fn lemma_wrap16_fits(x: int)
    requires
        -32768 <= x <= 32767,
    ensures
        wrap16(x) == x,
{
}

/// Brings a number back into 16 bits.
pub fn wrap(x: i64) -> (r: i16)
    requires
        -4294967296 <= x <= 4294967296,
    ensures
        r as int == wrap16(x as int),
{
    let shifted: i64 = x + 32768 + 4294967296;
    let m: i64 = shifted % 65536;
    assert(m == (x + 32768) % 65536) by {
        assert(4294967296int == 65536 * 65536);
        assert((x + 32768 + 65536 * 65536) % 65536 == (x + 32768) % 65536) by (nonlinear_arith);
    }
    (m - 32768) as i16
}

/// The sum, wrapped around.
pub fn add16(a: i16, b: i16) -> (r: i16)
    ensures
        r as int == wrap16(a + b),
{
    wrap(a as i64 + b as i64)
}

/// The difference, wrapped around.
pub fn sub16(a: i16, b: i16) -> (r: i16)
    ensures
        r as int == wrap16(a - b),
{
    wrap(a as i64 - b as i64)
}

/// The product, wrapped around.
pub fn mul16(a: i16, b: i16) -> (r: i16)
    ensures
        r as int == wrap16(a * b),
{
    assert(-32768 * 32768 <= a * b <= 32768 * 32768) by (nonlinear_arith)
        requires
            -32768 <= a <= 32767,
            -32768 <= b <= 32767,
    ;
    wrap((a as i64) * (b as i64))
}

/// The quotient rounded towards zero, wrapped around.
pub fn div16(a: i16, b: i16) -> (r: i16)
    requires
        b != 0,
    ensures
        r as int == wrap16(quotient(a as int, b as int)),
{
    let x: i64 = a as i64;
    let y: i64 = b as i64;
    let ma: i64 = if x < 0 {
        -x
    } else {
        x
    };
    let mb: i64 = if y < 0 {
        -y
    } else {
        y
    };
    let q: i64 = ma / mb;
    assert(0 <= q <= ma) by (nonlinear_arith)
        requires
            q == ma / mb,
            ma >= 0,
            mb > 0,
    ;
    if (x >= 0) == (y > 0) {
        wrap(q)
    } else {
        wrap(-q)
    }
}

/// The remainder with the sign of the dividend.
pub fn rem16(a: i16, b: i16) -> (r: i16)
    requires
        b != 0,
    ensures
        r as int == remainder(a as int, b as int),
{
    let x: i64 = a as i64;
    let y: i64 = b as i64;
    let ma: i64 = if x < 0 {
        -x
    } else {
        x
    };
    let mb: i64 = if y < 0 {
        -y
    } else {
        y
    };
    let m: i64 = ma % mb;
    assert(0 <= m < mb) by (nonlinear_arith)
        requires
            m == ma % mb,
            ma >= 0,
            mb > 0,
    ;
    if x >= 0 {
        m as i16
    } else {
        (-m) as i16
    }
}

/// The number of rows as a 16-bit integer, wrapped around.
pub fn count16(n: usize) -> (r: i16)
    ensures
        r as int == wrap16(n as int),
{
    let low: usize = n % 65536;
    assert(wrap16(n as int) == wrap16(low as int)) by {
        assert((n + 32768) % 65536 == ((n % 65536) + 32768) % 65536) by (nonlinear_arith)
            requires
                n >= 0,
        ;
    }
    wrap(low as i64)
}

} // verus!
