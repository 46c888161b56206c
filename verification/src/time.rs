//! Time units and conversion between them.  Conversion factors are ratios
//! of unit frequencies; values are arbitrary-precision integers so that
//! nanosecond counts cannot overflow.

use vstd::prelude::*;
use num_bigint::BigInt;
use crate::bigint::{big_div, big_from_u64, big_is_negative, big_mul_i32, big_sub, big_to_u64,
    big_value, trunc_div};
use crate::exception::{is_atom_error, Exception};
use crate::heap::{Alloc, Cell, ProcessHeap};
use crate::term::{Term, ATOM_BADARG, ATOM_MICROSECOND, ATOM_MICRO_SECONDS, ATOM_MILLISECOND,
    ATOM_MILLI_SECONDS, ATOM_NANOSECOND, ATOM_NANO_SECONDS, ATOM_NATIVE, ATOM_PERF_COUNTER,
    ATOM_SECOND, ATOM_SECONDS};

verus! {

/// A count of milliseconds.
pub type Milliseconds = u64;

pub const MILLISECONDS_PER_SECOND: u64 = 1000;
pub const MICROSECONDS_PER_MILLISECOND: u64 = 1000;
pub const NANOSECONDS_PER_MILLISECOND: u64 = 1000000;

/// A time unit: a named resolution, or an arbitrary frequency in hertz.
#[derive(Clone, Copy, Debug, PartialEq, Eq, Structural)]
pub enum Unit {
    Hertz(usize),
    Second,
    Millisecond,
    Microsecond,
    Nanosecond,
    Native,
    PerformanceCounter,
}

/// The frequency of a unit.  The native and performance-counter units are
/// capped at millisecond resolution.
pub open spec fn spec_hertz(unit: Unit) -> int {
    match unit {
        Unit::Hertz(hertz) => hertz as int,
        Unit::Second => 1,
        Unit::Millisecond => 1000,
        Unit::Microsecond => 1000000,
        Unit::Nanosecond => 1000000000,
        Unit::Native => 1000,
        Unit::PerformanceCounter => 1000,
    }
}

/// `time` taken from `from_hertz` resolution to `to_hertz` resolution:
/// scaled up by the whole ratio, or scaled down by truncating division
/// that rounds negative values away from zero by the pre-shift below.
pub open spec fn spec_convert(time: int, from_hertz: int, to_hertz: int) -> int
    recommends
        from_hertz > 0,
        to_hertz > 0,
{
    if from_hertz <= to_hertz {
        time * (to_hertz / from_hertz)
    } else {
        let denominator = from_hertz / to_hertz;
        if time >= 0 {
            trunc_div(time, denominator)
        } else {
            trunc_div(time - (denominator - 1), denominator)
        }
    }
}

/// Milliseconds taken to the given unit.
pub open spec fn spec_convert_milliseconds(milliseconds: int, unit: Unit) -> int {
    match unit {
        Unit::Second => milliseconds / (MILLISECONDS_PER_SECOND as int),
        Unit::Millisecond => milliseconds,
        Unit::Microsecond => milliseconds * (MICROSECONDS_PER_MILLISECOND as int),
        Unit::Nanosecond => milliseconds * (NANOSECONDS_PER_MILLISECOND as int),
        _ => spec_convert(
            milliseconds * (NANOSECONDS_PER_MILLISECOND as int),
            1000000000,
            spec_hertz(unit),
        ),
    }
}

/// Whether a unit takes the general conversion path out of nanoseconds.
pub open spec fn spec_general_unit(unit: Unit) -> bool {
    !(unit is Second) && !(unit is Millisecond) && !(unit is Microsecond) && !(unit
        is Nanosecond)
}

/// Converts a millisecond count to the given unit.
pub fn convert_milliseconds(milliseconds: Milliseconds, unit: Unit) -> (r: BigInt)
    requires
        spec_hertz(unit) > 0,
        unit is Microsecond ==> milliseconds * MICROSECONDS_PER_MILLISECOND <= u64::MAX,
        (unit is Nanosecond || spec_general_unit(unit)) ==> milliseconds
            * NANOSECONDS_PER_MILLISECOND <= u64::MAX,
        (spec_general_unit(unit) && spec_hertz(unit) >= 1000000000) ==> spec_hertz(unit)
            / 1000000000 <= i32::MAX,
    ensures
        big_value(r) == spec_convert_milliseconds(milliseconds as int, unit),
{
    match unit {
        Unit::Second => big_from_u64(milliseconds / MILLISECONDS_PER_SECOND),
        Unit::Millisecond => big_from_u64(milliseconds),
        Unit::Microsecond => big_from_u64(milliseconds * MICROSECONDS_PER_MILLISECOND),
        Unit::Nanosecond => big_from_u64(milliseconds * NANOSECONDS_PER_MILLISECOND),
        _ => convert(
            big_from_u64(milliseconds * NANOSECONDS_PER_MILLISECOND),
            Unit::Nanosecond,
            unit,
        ),
    }
}

/// Converts a time count between two units.  Scaling down rounds the way
/// erts does: the quotient is truncated after shifting negative values by
/// one less than the denominator.
pub fn convert(time: BigInt, from_unit: Unit, to_unit: Unit) -> (r: BigInt)
    requires
        spec_hertz(from_unit) > 0,
        spec_hertz(to_unit) > 0,
        spec_hertz(from_unit) <= spec_hertz(to_unit) ==> spec_hertz(to_unit) / spec_hertz(
            from_unit,
        ) <= i32::MAX,
    ensures
        big_value(r) == spec_convert(big_value(time), spec_hertz(from_unit), spec_hertz(to_unit)),
{
    if from_unit == to_unit {
        proof {
            assert(spec_hertz(from_unit) == spec_hertz(to_unit));
            assert(spec_hertz(to_unit) / spec_hertz(from_unit) == 1) by (nonlinear_arith)
                requires
                    spec_hertz(from_unit) > 0,
                    spec_hertz(from_unit) == spec_hertz(to_unit),
            ;
        }
        time
    } else {
        let from_hertz = from_unit.hertz();
        let to_hertz = to_unit.hertz();

        if from_hertz <= to_hertz {
            let multiplier = to_hertz / from_hertz;
            big_mul_i32(&time, multiplier as i32)
        } else {
            // round as erts does, so that scaling down agrees everywhere
            let denominator_usize = from_hertz / to_hertz;
            let denominator = big_from_u64(denominator_usize as u64);
            proof {
                assert(from_hertz / to_hertz >= 1) by (nonlinear_arith)
                    requires
                        from_hertz > to_hertz,
                        to_hertz > 0,
                ;
            }
            if !big_is_negative(&time) {
                big_div(&time, &denominator)
            } else {
                let one = big_from_u64(1);
                let shift = big_sub(&denominator, &one);
                let shifted = big_sub(&time, &shift);
                big_div(&shifted, &denominator)
            }
        }
    }
}

impl Unit {
    /// The frequency of this unit.
    pub fn hertz(&self) -> (r: usize)
        ensures
            r == spec_hertz(*self),
    {
        match self {
            Unit::Hertz(hertz) => *hertz,
            Unit::Second => 1,
            Unit::Millisecond => 1000,
            Unit::Microsecond => 1000000,
            Unit::Nanosecond => 1000000000,
            // side-channel protections cap these at millisecond resolution
            Unit::Native => 1000,
            Unit::PerformanceCounter => 1000,
        }
    }

    /// The term naming this unit: the frequency as an integer for an
    /// explicit hertz unit, the unit's atom otherwise.
    pub fn to_term(&self, heap: &mut ProcessHeap) -> (r: Result<Term, Alloc>)
        requires
            old(heap).wf(),
        ensures
            final(heap).wf(),
            final(heap).extends(*old(heap)),
            match r {
                Ok(t) => match *self {
                    Unit::Hertz(hertz) => final(heap).int_value(t) == Some(hertz as int),
                    Unit::Second => t == crate::exception::spec_atom(ATOM_SECOND),
                    Unit::Millisecond => t == crate::exception::spec_atom(ATOM_MILLISECOND),
                    Unit::Microsecond => t == crate::exception::spec_atom(ATOM_MICROSECOND),
                    Unit::Nanosecond => t == crate::exception::spec_atom(ATOM_NANOSECOND),
                    Unit::Native => t == crate::exception::spec_atom(ATOM_NATIVE),
                    Unit::PerformanceCounter => t == crate::exception::spec_atom(
                        ATOM_PERF_COUNTER,
                    ),
                },
                Err(_) => self is Hertz,
            },
    {
        match self {
            Unit::Hertz(hertz) => {
                let big = big_from_u64(*hertz as u64);
                let base = heap.cells.len();
                proof {
                    assert(old(heap).cells@.len() == base);
                }
                let t = heap.integer_from_big(big)?;
                proof {
                    if !crate::term::spec_is_small(big_value(big)) {
                        assert(t->ptr.index == base);
                        assert(heap.int_value(t) == Some(big_value(big)));
                    }
                }
                Ok(t)
            },
            Unit::Second => Ok(Term::atom_from_id(ATOM_SECOND)),
            Unit::Millisecond => Ok(Term::atom_from_id(ATOM_MILLISECOND)),
            Unit::Microsecond => Ok(Term::atom_from_id(ATOM_MICROSECOND)),
            Unit::Nanosecond => Ok(Term::atom_from_id(ATOM_NANOSECOND)),
            Unit::Native => Ok(Term::atom_from_id(ATOM_NATIVE)),
            Unit::PerformanceCounter => Ok(Term::atom_from_id(ATOM_PERF_COUNTER)),
        }
    }

    /// Reads a unit from a term: a positive integer is an explicit hertz
    /// frequency; the known unit names map to their units; anything else
    /// is rejected with `badarg`.
    pub fn try_from_term(
        heap: &ProcessHeap,
        term: Term,
        file: &'static str,
        line: u32,
        column: u32,
    ) -> (r: Result<Unit, Exception>)
        requires
            heap.wf(),
            heap.valid_term(term),
        ensures
            match r {
                Ok(unit) => match term {
                    Term::SmallInteger { value } => 0 < value && unit == Unit::Hertz(
                        value as usize,
                    ),
                    Term::Atom { atom } => unit_of_atom(atom.id) == Some(unit),
                    Term::Boxed { ptr } => {
                        &&& heap.cells@[ptr.index as int] matches Cell::BigInteger { big }
                        &&& 0 <= big_value(big) <= usize::MAX
                        &&& unit == Unit::Hertz(big_value(big) as usize)
                    },
                    _ => false,
                },
                Err(e) => {
                    &&& is_atom_error(e, ATOM_BADARG, file, line, column)
                    &&& match term {
                        Term::SmallInteger { value } => !(0 < value <= usize::MAX),
                        Term::Atom { atom } => unit_of_atom(atom.id) is None,
                        Term::Boxed { ptr } => match heap.cells@[ptr.index as int] {
                            Cell::BigInteger { big } => !(0 <= big_value(big) <= usize::MAX),
                            _ => true,
                        },
                        _ => true,
                    }
                },
            },
    {
        match term {
            Term::SmallInteger { value } => {
                if 0 < value && (value as u64) <= (usize::MAX as u64) {
                    Ok(Unit::Hertz(value as usize))
                } else {
                    Err(Exception::badarg(file, line, column))
                }
            },
            Term::Boxed { ptr } => {
                match &heap.cells[ptr.index] {
                    Cell::BigInteger { big } => {
                        match big_to_u64(big) {
                            Some(v) => {
                                if v <= (usize::MAX as u64) {
                                    Ok(Unit::Hertz(v as usize))
                                } else {
                                    Err(Exception::badarg(file, line, column))
                                }
                            },
                            None => Err(Exception::badarg(file, line, column)),
                        }
                    },
                    _ => Err(Exception::badarg(file, line, column)),
                }
            },
            Term::Atom { atom } => {
                if atom.id == ATOM_SECOND || atom.id == ATOM_SECONDS {
                    Ok(Unit::Second)
                } else if atom.id == ATOM_MILLISECOND || atom.id == ATOM_MILLI_SECONDS {
                    Ok(Unit::Millisecond)
                } else if atom.id == ATOM_MICROSECOND || atom.id == ATOM_MICRO_SECONDS {
                    Ok(Unit::Microsecond)
                } else if atom.id == ATOM_NANOSECOND || atom.id == ATOM_NANO_SECONDS {
                    Ok(Unit::Nanosecond)
                } else if atom.id == ATOM_NATIVE {
                    Ok(Unit::Native)
                } else if atom.id == ATOM_PERF_COUNTER {
                    Ok(Unit::PerformanceCounter)
                } else {
                    Err(Exception::badarg(file, line, column))
                }
            },
            _ => Err(Exception::badarg(file, line, column)),
        }
    }
}

/// The unit an atom names, if any.
pub open spec fn unit_of_atom(id: u64) -> Option<Unit> {
    if id == ATOM_SECOND || id == ATOM_SECONDS {
        Some(Unit::Second)
    } else if id == ATOM_MILLISECOND || id == ATOM_MILLI_SECONDS {
        Some(Unit::Millisecond)
    } else if id == ATOM_MICROSECOND || id == ATOM_MICRO_SECONDS {
        Some(Unit::Microsecond)
    } else if id == ATOM_NANOSECOND || id == ATOM_NANO_SECONDS {
        Some(Unit::Nanosecond)
    } else if id == ATOM_NATIVE {
        Some(Unit::Native)
    } else if id == ATOM_PERF_COUNTER {
        Some(Unit::PerformanceCounter)
    } else {
        None
    }
}

} // verus!
