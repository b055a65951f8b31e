use lib::float_bits::{
    bits_is_infinite, bits_is_integral, bits_is_nan, bits_is_zero, int_to_f64_bits, saturating_cast_bits,
    CANONICAL_NAN_BITS,
};
use lib::js_value::{
    bool_from_value, is_null, is_number, is_undefined, make_bool, make_false, make_int32, make_null,
    make_true, make_undefined, prepend_callee_arg, to_i32, Numeric,
};
use lib::value::{Value, QNAN};

#[test]
fn int_values_round_trip() {
    for v in [0i32, 1, -1, 42, i32::MAX, i32::MIN] {
        let x = Value::i32(v);
        assert_eq!(x.as_i32(), Some(v));
        assert!(x.is_int());
        assert!(!x.is_f64());
        assert_eq!(x.int_payload_unchecked(), v);
        assert_eq!(make_int32(v), x);
    }
}

#[test]
fn bool_values_round_trip() {
    assert_eq!(Value::bool(true).as_bool(), Some(true));
    assert_eq!(Value::bool(false).as_bool(), Some(false));
    assert_eq!(make_true(), Value::bool(true));
    assert_eq!(make_false(), Value::bool(false));
    assert_eq!(bool_from_value(make_bool(true)), Some(true));
    assert_eq!(bool_from_value(Value::i32(1)), None);
    assert_eq!(Value::i32(1).as_bool(), None);
}

#[test]
fn null_undefined_and_empty() {
    assert!(Value::null().is_null());
    assert!(!Value::null().is_undefined());
    assert!(Value::undefined().is_undefined());
    assert!(Value::empty().is_undefined());
    assert!(Value::empty().is_empty());
    assert!(!Value::undefined().is_empty());
    assert!(is_null(make_null()));
    assert!(is_undefined(make_undefined()));
    assert!(!is_undefined(make_null()));
    assert_ne!(Value::null(), Value::undefined());
}

#[test]
fn doubles_stay_unboxed() {
    let x = Value::from_f64_bits(1.5f64.to_bits());
    assert!(x.is_f64());
    assert_eq!(x.as_f64(), Some(1.5f64.to_bits()));
    assert_eq!(x.f64_payload_unchecked(), 1.5f64.to_bits());
    assert!(is_number(x));
    assert!(is_number(Value::i32(3)));
    assert!(!is_number(Value::null()));
}

#[test]
fn boxed_patterns_become_canonical_nan() {
    let x = Value::from_f64_bits(QNAN | 0x15);
    assert_eq!(x.bits(), CANONICAL_NAN_BITS);
    assert_eq!(x.as_f64(), Some(CANONICAL_NAN_BITS));
    let y = Value::from_f64_bits(f64::NAN.to_bits());
    assert!(y.is_f64());
}

#[test]
fn atom_values_round_trip() {
    let v = Value::atom(lib::atoms::Atom(12));
    assert_eq!(v.as_atom(), Some(lib::atoms::Atom(12)));
    assert_eq!(Value::i32(12).as_atom(), None);
}

#[test]
fn to_i32_truncates_and_saturates() {
    assert_eq!(to_i32(Value::i32(-5)), Some(-5));
    assert_eq!(to_i32(Value::from_f64_bits(3.9f64.to_bits())), Some(3));
    assert_eq!(to_i32(Value::from_f64_bits((-3.9f64).to_bits())), Some(-3));
    assert_eq!(to_i32(Value::from_f64_bits(1e20f64.to_bits())), Some(i32::MAX));
    assert_eq!(to_i32(Value::from_f64_bits((-1e20f64).to_bits())), Some(i32::MIN));
    assert_eq!(to_i32(Value::from_f64_bits(f64::NAN.to_bits())), Some(0));
    assert_eq!(to_i32(Value::null()), None);
}

#[test]
fn value_to_i32_method_maps_non_finite_to_zero() {
    assert_eq!(Value::from_f64_bits(f64::INFINITY.to_bits()).to_i32(), 0);
    assert_eq!(Value::from_f64_bits(f64::NAN.to_bits()).to_i32(), 0);
    assert_eq!(Value::from_f64_bits(7.25f64.to_bits()).to_i32(), 7);
    assert_eq!(Value::i32(9).to_i32(), 9);
}

#[test]
fn to_numeric_reads_ints_and_doubles() {
    assert_eq!(Value::i32(4).to_numeric(), Numeric::Int(4));
    assert_eq!(
        Value::from_f64_bits(2.5f64.to_bits()).to_numeric(),
        Numeric::Double(2.5f64.to_bits())
    );
}

#[test]
fn classification_of_bit_patterns() {
    assert!(bits_is_nan(f64::NAN.to_bits()));
    assert!(!bits_is_nan(f64::INFINITY.to_bits()));
    assert!(bits_is_infinite(f64::NEG_INFINITY.to_bits()));
    assert!(bits_is_zero(0.0f64.to_bits()));
    assert!(bits_is_zero((-0.0f64).to_bits()));
    assert!(!bits_is_zero(1e-310f64.to_bits()));
    assert!(bits_is_integral(4.0f64.to_bits()));
    assert!(!bits_is_integral(4.5f64.to_bits()));
    assert!(!bits_is_integral(f64::NAN.to_bits()));
}

#[test]
fn saturating_casts_match_as() {
    for x in [0.0f64, -0.0, 1.5, -1.5, 255.9, 256.0, -129.0, 1e300, -1e300, 1e-300] {
        assert_eq!(saturating_cast_bits(x.to_bits(), -128, 127), (x as i8) as i128);
        assert_eq!(saturating_cast_bits(x.to_bits(), 0, 255), (x as u8) as i128);
        assert_eq!(
            saturating_cast_bits(x.to_bits(), i64::MIN as i128, i64::MAX as i128),
            (x as i64) as i128
        );
    }
    assert_eq!(saturating_cast_bits(f64::NAN.to_bits(), -128, 127), 0);
    assert_eq!(saturating_cast_bits(f64::INFINITY.to_bits(), -128, 127), 127);
}

#[test]
fn integers_convert_to_exact_doubles() {
    for i in [0i64, 1, -1, 3, 1 << 40, -(1 << 52), (1 << 53) - 1] {
        assert_eq!(int_to_f64_bits(i), (i as f64).to_bits());
    }
}

#[test]
fn callee_goes_first() {
    let args = [Value::i32(1), Value::i32(2)];
    let all = prepend_callee_arg(Value::null(), &args);
    assert_eq!(all, vec![Value::null(), Value::i32(1), Value::i32(2)]);
}
