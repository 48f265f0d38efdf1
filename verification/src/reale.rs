//! Real numbers carried as the IEEE-754 bit pattern of a double
//! (`f64::to_bits`). The library never computes with them: it compares them,
//! and these comparisons follow the IEEE order exactly (both zeros are
//! equal, every comparison with a NaN is false).

use vstd::prelude::*;

verus! {

/// The bit pattern of a double, as `f64::to_bits` gives it.
pub type Reale = u64;

/// The sign bit of a double.
pub const BIT_SEGNO: u64 = 0x8000_0000_0000_0000;

/// The magnitude (all bits but the sign) of an infinite double.
pub const MODULO_INFINITO: u64 = 0x7ff0_0000_0000_0000;

/// The bits of `+0.0`.
pub const ZERO: Reale = 0;

/// The bits of `1.0`.
pub const UNO: Reale = 0x3ff0_0000_0000_0000;

/// The bits of `+inf`.
pub const PIU_INFINITO: Reale = 0x7ff0_0000_0000_0000;

/// The bits of `-inf`.
pub const MENO_INFINITO: Reale = 0xfff0_0000_0000_0000;

/// The magnitude of a double: its bits without the sign bit.
pub open spec fn modulo(x: Reale) -> int {
    if x < BIT_SEGNO {
        x as int
    } else {
        x - BIT_SEGNO
    }
}

/// The double is a NaN.
pub open spec fn e_nan(x: Reale) -> bool {
    modulo(x) > MODULO_INFINITO
}

/// The double is neither infinite nor NaN.
pub open spec fn e_finito(x: Reale) -> bool {
    modulo(x) < MODULO_INFINITO
}

/// An integer that orders the non-NaN doubles as IEEE does: the magnitude,
/// negated when the sign bit is set (so both zeros map to 0).
pub open spec fn chiave(x: Reale) -> int {
    if x < BIT_SEGNO {
        x as int
    } else {
        -(x - BIT_SEGNO)
    }
}

/// `x <= y` between doubles.
pub open spec fn minore_uguale(x: Reale, y: Reale) -> bool {
    !e_nan(x) && !e_nan(y) && chiave(x) <= chiave(y)
}

/// `x < y` between doubles.
pub open spec fn minore(x: Reale, y: Reale) -> bool {
    !e_nan(x) && !e_nan(y) && chiave(x) < chiave(y)
}

/// `x == y` between doubles.
pub open spec fn uguale(x: Reale, y: Reale) -> bool {
    !e_nan(x) && !e_nan(y) && chiave(x) == chiave(y)
}

/// `x.is_nan()`.
pub fn nan(x: Reale) -> (r: bool)
    ensures
        r == e_nan(x),
{
    let m = if x < BIT_SEGNO { x } else { x - BIT_SEGNO };
    m > MODULO_INFINITO
}

/// `x.is_finite()`.
pub fn finito(x: Reale) -> (r: bool)
    ensures
        r == e_finito(x),
{
    let m = if x < BIT_SEGNO { x } else { x - BIT_SEGNO };
    m < MODULO_INFINITO
}

/// `x <= y`.
pub fn le(x: Reale, y: Reale) -> (r: bool)
    ensures
        r == minore_uguale(x, y),
{
    if nan(x) || nan(y) {
        return false;
    }
    if x < BIT_SEGNO {
        if y < BIT_SEGNO {
            x <= y
        } else {
            // y is negative or -0: only the two zeros compare equal
            x == 0 && y == BIT_SEGNO
        }
    } else {
        if y < BIT_SEGNO {
            true
        } else {
            x >= y
        }
    }
}

/// `x < y`.
pub fn lt(x: Reale, y: Reale) -> (r: bool)
    ensures
        r == minore(x, y),
{
    if nan(x) || nan(y) {
        return false;
    }
    if x < BIT_SEGNO {
        if y < BIT_SEGNO {
            x < y
        } else {
            false
        }
    } else {
        if y < BIT_SEGNO {
            // x is negative or -0: it is below y unless both are zeros
            !(x == BIT_SEGNO && y == 0)
        } else {
            x > y
        }
    }
}

/// `x > 0.0`.
pub fn positivo(x: Reale) -> (r: bool)
    ensures
        r == minore(ZERO, x),
{
    lt(ZERO, x)
}

/// The IEEE order on non-NaN doubles is a total preorder whose equalities
/// are the zeros and the equal bit patterns.
pub proof fn ordine_dei_reali(x: Reale, y: Reale, z: Reale)
    ensures
        minore_uguale(x, y) && minore_uguale(y, z) ==> minore_uguale(x, z),
        minore(x, y) ==> minore_uguale(x, y) && !minore_uguale(y, x),
        !e_nan(x) && !e_nan(y) ==> (minore_uguale(x, y) || minore_uguale(y, x)),
        !e_nan(x) ==> minore_uguale(x, x),
        e_nan(x) ==> !minore_uguale(x, y) && !minore_uguale(y, x),
{
}

} // verus!
