//! Numbers as they take part in template arithmetic.
//!
//! The engine works on a closed lattice of 64-bit integers: a value is either
//! signed or unsigned.  Arithmetic is exact: an operation returns the
//! mathematical result whenever it is representable in the lattice
//! (`-2^63 <= s < 2^64`) and reports failure otherwise, instead of wrapping
//! or panicking.  Results are normalized: a non-negative result is unsigned,
//! a negative one is signed.

use vstd::prelude::*;

verus! {

/// An internal representation of a number that may be signed or unsigned.
#[derive(Debug, Clone, Copy, PartialEq, Eq)]
pub enum Number {
    /// A signed 64-bit integer.
    I64(i64),
    /// An unsigned 64-bit integer.
    U64(u64),
}

/// The mathematical value of a number.
pub open spec fn num_int(n: Number) -> int {
    match n {
        Number::I64(x) => x as int,
        Number::U64(x) => x as int,
    }
}

/// Whether a mathematical value is representable in the numeric lattice.
pub open spec fn num_in_range(s: int) -> bool {
    -0x8000_0000_0000_0000 <= s < 0x1_0000_0000_0000_0000
}

/// The normalized representation of a representable value: unsigned when
/// non-negative, signed when negative.
pub open spec fn num_of_int(s: int) -> Number {
    if s >= 0 {
        Number::U64(s as u64)
    } else {
        Number::I64(s as i64)
    }
}

/// The outcome of an arithmetic operation on mathematical value `s`:
/// the normalized number when `s` is representable, nothing otherwise.
pub open spec fn arith_result(s: int) -> Option<Number> {
    if num_in_range(s) {
        Some(num_of_int(s))
    } else {
        None
    }
}

/// Absolute value.
pub open spec fn abs_int(a: int) -> int {
    if a < 0 {
        -a
    } else {
        a
    }
}

/// The exact quotient of `a` by `b` (`b != 0`), when the division leaves
/// no remainder.
pub open spec fn exact_quot(a: int, b: int) -> Option<int> {
    if abs_int(a) % abs_int(b) == 0 {
        let q = abs_int(a) / abs_int(b);
        Some(
            if (a < 0) == (b < 0) {
                q
            } else {
                -q
            },
        )
    } else {
        None
    }
}

/// The remainder of truncating division: it has the sign of the dividend
/// and the magnitude of `abs(a) % abs(b)`.
pub open spec fn trunc_rem(a: int, b: int) -> int {
    if a >= 0 {
        abs_int(a) % abs_int(b)
    } else {
        -(abs_int(a) % abs_int(b))
    }
}

/// Split a number into a strict-negativity flag and its magnitude.
fn sign_mag(n: Number) -> (r: (bool, u64))
    ensures
        num_int(n) == if r.0 {
            -(r.1 as int)
        } else {
            r.1 as int
        },
        r.0 ==> r.1 > 0,
{
    match n {
        Number::I64(x) => {
            if x < 0 {
                if x == i64::MIN {
                    (true, 0x8000_0000_0000_0000u64)
                } else {
                    (true, (-x) as u64)
                }
            } else {
                (false, x as u64)
            }
        },
        Number::U64(x) => (false, x),
    }
}

/// Build the normalized number for a signed magnitude, when representable.
fn build(neg: bool, mag: u128) -> (r: Option<Number>)
    ensures
        r == arith_result(
            if neg {
                -(mag as int)
            } else {
                mag as int
            },
        ),
{
    if neg && mag != 0 {
        if mag <= 0x8000_0000_0000_0000u128 {
            if mag == 0x8000_0000_0000_0000u128 {
                Some(Number::I64(i64::MIN))
            } else {
                Some(Number::I64(-((mag as u64) as i64)))
            }
        } else {
            None
        }
    } else {
        if mag <= u64::MAX as u128 {
            Some(Number::U64(mag as u64))
        } else {
            None
        }
    }
}

/// Add two numbers; exact, with failure instead of overflow.
pub fn add(a: Number, b: Number) -> (r: Option<Number>)
    ensures
        r == arith_result(num_int(a) + num_int(b)),
{
    let (na, ma) = sign_mag(a);
    let (nb, mb) = sign_mag(b);
    let s: i128 = (if na {
        -(ma as i128)
    } else {
        ma as i128
    }) + (if nb {
        -(mb as i128)
    } else {
        mb as i128
    });
    if s >= 0 {
        build(false, s as u128)
    } else {
        build(true, (-s) as u128)
    }
}

/// Subtract two numbers; exact, with failure instead of overflow.
pub fn sub(a: Number, b: Number) -> (r: Option<Number>)
    ensures
        r == arith_result(num_int(a) - num_int(b)),
{
    let (na, ma) = sign_mag(a);
    let (nb, mb) = sign_mag(b);
    let s: i128 = (if na {
        -(ma as i128)
    } else {
        ma as i128
    }) - (if nb {
        -(mb as i128)
    } else {
        mb as i128
    });
    if s >= 0 {
        build(false, s as u128)
    } else {
        build(true, (-s) as u128)
    }
}

/// Multiply two numbers; exact, with failure instead of overflow.
pub fn mul(a: Number, b: Number) -> (r: Option<Number>)
    ensures
        r == arith_result(num_int(a) * num_int(b)),
{
    let (na, ma) = sign_mag(a);
    let (nb, mb) = sign_mag(b);
    proof {
        assert((ma as int) * (mb as int) <= 0xffff_ffff_ffff_ffff * 0xffff_ffff_ffff_ffff)
            by (nonlinear_arith)
            requires
                ma <= 0xffff_ffff_ffff_ffffu64,
                mb <= 0xffff_ffff_ffff_ffffu64,
        ;
        assert((ma as int) * (mb as int) >= 0) by (nonlinear_arith);
    }
    let prod: u128 = (ma as u128) * (mb as u128);
    let r = build(na != nb, prod);
    proof {
        let va = num_int(a);
        let vb = num_int(b);
        let sm = if na != nb {
            -(prod as int)
        } else {
            prod as int
        };
        assert(sm == va * vb) by (nonlinear_arith)
            requires
                prod == (ma as int) * (mb as int),
                va == if na {
                    -(ma as int)
                } else {
                    ma as int
                },
                vb == if nb {
                    -(mb as int)
                } else {
                    mb as int
                },
                sm == if na != nb {
                    -(prod as int)
                } else {
                    prod as int
                },
                na ==> ma > 0,
                nb ==> mb > 0,
        ;
    }
    r
}

/// Divide two numbers.  Fails on a zero divisor, on a division that leaves
/// a remainder, and on an unrepresentable quotient.
pub fn div(a: Number, b: Number) -> (r: Option<Number>)
    ensures
        r == (if num_int(b) != 0 {
            match exact_quot(num_int(a), num_int(b)) {
                Some(q) => arith_result(q),
                None => None::<Number>,
            }
        } else {
            None::<Number>
        }),
{
    let (na, ma) = sign_mag(a);
    let (nb, mb) = sign_mag(b);
    if mb == 0 {
        return None;
    }
    let rem = ma % mb;
    if rem != 0 {
        return None;
    }
    let q = ma / mb;
    build(na != nb, q as u128)
}

/// The remainder of truncating division.  Fails only on a zero divisor.
pub fn modulo(a: Number, b: Number) -> (r: Option<Number>)
    ensures
        r == (if num_int(b) != 0 {
            arith_result(trunc_rem(num_int(a), num_int(b)))
        } else {
            None::<Number>
        }),
{
    let (na, ma) = sign_mag(a);
    let (nb, mb) = sign_mag(b);
    if mb == 0 {
        return None;
    }
    let rem = ma % mb;
    build(na, rem as u128)
}

/// Law: adding an unsigned 64-bit number and a strictly negative signed
/// 64-bit number is always exact — the correctly signed mathematical sum is
/// representable, whatever the magnitudes, so mixed-sign addition can never
/// wrap around.
pub proof fn lemma_mixed_sign_add_exact(u: u64, i: i64)
    requires
        i < 0,
    ensures
        arith_result(u + i) == Some(num_of_int(u + i)),
        num_int(num_of_int(u + i)) == u + i,
{
}

} // verus!
verus! {

/// The outcome of an arithmetic operation as a mathematical value: the
/// value itself when it is representable, nothing otherwise.
pub open spec fn arith_int(s: int) -> Option<int> {
    if num_in_range(s) {
        Some(s)
    } else {
        None
    }
}

} // verus!
