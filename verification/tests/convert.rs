use lib::atoms::Atom;
use lib::gc::GC;
use lib::js_value::convert::{
    try_atom, try_bool, try_null, try_number, try_signed, try_undefined, try_unsigned, Null,
    Undefined, NULL, UNDEFINED,
};
use lib::js_value::Numeric;
use lib::value::Value;

fn double(x: f64) -> Value {
    Value::from_f64_bits(x.to_bits())
}

#[test]
fn unit_types_make_their_values() {
    assert!(Value::from(Null).is_null());
    assert!(Value::from(NULL).is_null());
    assert!(Value::from(Undefined).is_undefined());
    assert!(Value::from(UNDEFINED).is_undefined());
    assert_eq!(Null::default(), NULL);
    assert_eq!(Undefined::default(), UNDEFINED);
}

#[test]
fn small_integers_and_booleans_become_values() {
    assert_eq!(Value::from(true), Value::bool(true));
    assert_eq!(Value::from(-7i8), Value::i32(-7));
    assert_eq!(Value::from(300i16), Value::i32(300));
    assert_eq!(Value::from(200u8), Value::i32(200));
    assert_eq!(Value::from(65535u16), Value::i32(65535));
    assert_eq!(Value::from(i32::MIN), Value::i32(i32::MIN));
    assert_eq!(Value::from(Atom(9)), Value::atom(Atom(9)));
}

#[test]
fn integer_value_reads_integral_numbers() {
    assert_eq!(Value::i32(-5).integer_value(), Some(-5));
    assert_eq!(double(4.0).integer_value(), Some(4));
    assert_eq!(double(-1e20).integer_value(), Some(-100000000000000000000));
    assert_eq!(double(1e300).integer_value(), Some(i128::MAX));
    assert_eq!(double(2.5).integer_value(), None);
    assert_eq!(double(f64::NAN).integer_value(), None);
    assert_eq!(double(f64::INFINITY).integer_value(), None);
    assert_eq!(Value::bool(true).integer_value(), None);
    assert_eq!(Value::i32(-1).unsigned_integer_value(), None);
    assert_eq!(double(7.0).unsigned_integer_value(), Some(7));
}

#[test]
fn checked_reads_name_what_they_found() {
    let heap = GC::new();
    assert!(try_null(Value::null(), &heap).is_ok());
    let e = try_null(Value::i32(1), &heap).unwrap_err();
    assert_eq!((e.expected(), e.actual()), ("null", "number"));
    assert!(try_undefined(Value::empty(), &heap).is_ok());
    let e = try_undefined(Value::null(), &heap).unwrap_err();
    assert_eq!((e.expected(), e.actual()), ("undefined", "null"));
    assert_eq!(try_bool(Value::bool(false), &heap), Ok(false));
    let e = try_bool(Value::atom(Atom(1)), &heap).unwrap_err();
    assert_eq!((e.expected(), e.actual()), ("bool", "string"));
    assert_eq!(try_atom(Value::atom(Atom(3)), &heap), Ok(Atom(3)));
    let e = try_atom(Value::undefined(), &heap).unwrap_err();
    assert_eq!((e.expected(), e.actual()), ("string", "undefined"));
    assert_eq!(try_number(Value::i32(2), &heap), Ok(Numeric::Int(2)));
    assert_eq!(try_number(double(0.5), &heap), Ok(Numeric::Double(0.5f64.to_bits())));
    let e = try_number(Value::bool(true), &heap).unwrap_err();
    assert_eq!((e.expected(), e.actual()), ("number", "bool"));
}

#[test]
fn integer_reads_check_the_range() {
    let heap = GC::new();
    assert_eq!(try_signed(Value::i32(-128), &heap, -128, 127, "i8"), Ok(-128));
    let e = try_signed(Value::i32(128), &heap, -128, 127, "i8").unwrap_err();
    assert_eq!((e.expected(), e.actual()), ("i8", "number"));
    let e = try_signed(double(1.5), &heap, -128, 127, "i8").unwrap_err();
    assert_eq!((e.expected(), e.actual()), ("number", "number"));
    assert_eq!(try_unsigned(double(255.0), &heap, 255, "u8"), Ok(255));
    let e = try_unsigned(Value::i32(256), &heap, 255, "u8").unwrap_err();
    assert_eq!((e.expected(), e.actual()), ("u8", "number"));
    let e = try_unsigned(Value::i32(-1), &heap, 255, "u8").unwrap_err();
    assert_eq!((e.expected(), e.actual()), ("number", "number"));
    let e = try_unsigned(Value::null(), &heap, 255, "u8").unwrap_err();
    assert_eq!((e.expected(), e.actual()), ("number", "null"));
}
