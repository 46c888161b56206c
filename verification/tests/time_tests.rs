use lumen_runtime::exception::Exception;
use lumen_runtime::heap::ProcessHeap;
use lumen_runtime::term::{Atom, Term, ATOM_MICROSECOND, ATOM_MILLISECOND, ATOM_MILLI_SECONDS,
    ATOM_NANOSECOND, ATOM_NATIVE, ATOM_PERF_COUNTER, ATOM_SECOND, ATOM_SECONDS, ATOM_VALUE};
use lumen_runtime::time::{convert, convert_milliseconds, Unit};
use num_bigint::BigInt;

fn heap() -> ProcessHeap {
    ProcessHeap::new(3, 256, 1024)
}

#[test]
fn zero_errors_badarg() {
    let heap = heap();
    let term = Term::SmallInteger { value: 0 };

    let result = Unit::try_from_term(&heap, term, "time", 1, 1);

    assert_eq!(result.unwrap_err(), Exception::badarg("elsewhere", 2, 2));
}

#[test]
fn positive_integer_is_hertz() {
    let heap = heap();
    let term = Term::SmallInteger { value: 250 };
    assert_eq!(
        Unit::try_from_term(&heap, term, "time", 1, 1),
        Ok(Unit::Hertz(250))
    );
}

#[test]
fn unit_atoms_read_back() {
    let heap = heap();
    let cases = [
        (ATOM_SECOND, Unit::Second),
        (ATOM_SECONDS, Unit::Second),
        (ATOM_MILLISECOND, Unit::Millisecond),
        (ATOM_MILLI_SECONDS, Unit::Millisecond),
        (ATOM_MICROSECOND, Unit::Microsecond),
        (ATOM_NANOSECOND, Unit::Nanosecond),
        (ATOM_NATIVE, Unit::Native),
        (ATOM_PERF_COUNTER, Unit::PerformanceCounter),
    ];
    for (id, unit) in cases {
        let term = Term::Atom { atom: Atom { id } };
        assert_eq!(Unit::try_from_term(&heap, term, "time", 1, 1), Ok(unit));
    }
    let unknown = Term::Atom { atom: Atom { id: ATOM_VALUE } };
    assert!(Unit::try_from_term(&heap, unknown, "time", 1, 1).is_err());
}

#[test]
fn hertz_frequencies() {
    assert_eq!(Unit::Hertz(44100).hertz(), 44100);
    assert_eq!(Unit::Second.hertz(), 1);
    assert_eq!(Unit::Millisecond.hertz(), 1000);
    assert_eq!(Unit::Microsecond.hertz(), 1_000_000);
    assert_eq!(Unit::Nanosecond.hertz(), 1_000_000_000);
    assert_eq!(Unit::Native.hertz(), 1000);
    assert_eq!(Unit::PerformanceCounter.hertz(), 1000);
}

#[test]
fn to_term_gives_atoms_and_integers() {
    let mut h = heap();
    assert_eq!(
        Unit::Second.to_term(&mut h).unwrap(),
        Term::Atom { atom: Atom { id: ATOM_SECOND } }
    );
    assert_eq!(
        Unit::Hertz(8000).to_term(&mut h).unwrap(),
        Term::SmallInteger { value: 8000 }
    );
}

#[test]
fn convert_milliseconds_exact_values() {
    assert_eq!(
        convert_milliseconds(2500, Unit::Second),
        BigInt::from(2)
    );
    assert_eq!(
        convert_milliseconds(2500, Unit::Millisecond),
        BigInt::from(2500)
    );
    assert_eq!(
        convert_milliseconds(2500, Unit::Microsecond),
        BigInt::from(2_500_000)
    );
    assert_eq!(
        convert_milliseconds(2500, Unit::Nanosecond),
        BigInt::from(2_500_000_000u64)
    );
    // the general path runs through nanoseconds: 2500 ms at 10 Hz is 25
    assert_eq!(
        convert_milliseconds(2500, Unit::Hertz(10)),
        BigInt::from(25)
    );
    assert_eq!(
        convert_milliseconds(2500, Unit::Native),
        BigInt::from(2500)
    );
}

#[test]
fn convert_scales_up_by_whole_ratio() {
    assert_eq!(
        convert(BigInt::from(3), Unit::Second, Unit::Millisecond),
        BigInt::from(3000)
    );
    assert_eq!(
        convert(BigInt::from(-3), Unit::Second, Unit::Nanosecond),
        BigInt::from(-3_000_000_000i64)
    );
}

#[test]
fn convert_scales_down_with_reference_rounding() {
    assert_eq!(
        convert(BigInt::from(2500), Unit::Millisecond, Unit::Second),
        BigInt::from(2)
    );
    // negative values round away from zero on the way down
    assert_eq!(
        convert(BigInt::from(-2500), Unit::Millisecond, Unit::Second),
        BigInt::from(-3)
    );
    assert_eq!(
        convert(BigInt::from(-2000), Unit::Millisecond, Unit::Second),
        BigInt::from(-2)
    );
}

#[test]
fn convert_between_equal_units_is_identity() {
    assert_eq!(
        convert(BigInt::from(123), Unit::Native, Unit::Native),
        BigInt::from(123)
    );
    // equal frequencies under different names also divide by one
    assert_eq!(
        convert(BigInt::from(77), Unit::Native, Unit::Millisecond),
        BigInt::from(77)
    );
}
