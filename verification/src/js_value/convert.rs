//! Conversions between values and Rust values: the unit types `Null` and
//! `Undefined`, values made from booleans, small integers and atoms, and the
//! checked reads back, which name the type they found when they fail.
use vstd::prelude::*;

use crate::atoms::Atom;
use crate::float_bits::{clamp, integral_i128, is_integral_bits, trunc_value};
use crate::gc::GC;
use crate::js_value::{type_label_of, Numeric, ValueTypeError};
use crate::value::{
    atom_value, bool_value, int_value, spec_is_undefined, tagged_bits, Value, ValueView, TAG_NULL,
    TAG_UNDEF,
};

verus! {

/// JavaScript `null` as a type of its own.
#[derive(Clone, Copy, Debug, PartialEq, Eq, Structural)]
pub struct Null;

/// JavaScript `undefined` as a type of its own.
#[derive(Clone, Copy, Debug, PartialEq, Eq, Structural)]
pub struct Undefined;

pub const NULL: Null = Null;

pub const UNDEFINED: Undefined = Undefined;

impl Default for Null {
    fn default() -> (r: Self)
        ensures
            r == Null,
    {
        Null
    }
}

impl Default for Undefined {
    fn default() -> (r: Self)
        ensures
            r == Undefined,
    {
        Undefined
    }
}

/// The integer a value denotes: an integer as itself, a finite double
/// without fractional part as its value saturated to the range of `i128`.
pub open spec fn integer_of(v: ValueView) -> Option<int> {
    match v {
        ValueView::Int(i) => Some(i as int),
        ValueView::Number(b) => if is_integral_bits(b) {
            Some(clamp(trunc_value(b), i128::MIN as int, i128::MAX as int))
        } else {
            None
        },
        _ => None,
    }
}

impl Value {
    /// The integer the value denotes, if it is a number with no fractional
    /// part.
    pub fn integer_value(self) -> (r: Option<i128>)
        ensures
            match integer_of(self@) {
                Some(i) => r == Some(i as i128),
                None => r is None,
            },
    {
        if let Some(value) = self.as_i32() {
            return Some(value as i128);
        }
        match self.as_f64() {
            Some(bits) => integral_i128(bits),
            None => None,
        }
    }

    /// The integer the value denotes, if it is a number with no fractional
    /// part and not negative.
    pub fn unsigned_integer_value(self) -> (r: Option<u128>)
        ensures
            match integer_of(self@) {
                Some(i) => if i >= 0 {
                    r == Some(i as u128)
                } else {
                    r is None
                },
                None => r is None,
            },
    {
        match self.integer_value() {
            Some(i) => if i >= 0 {
                Some(i as u128)
            } else {
                None
            },
            None => None,
        }
    }
}

impl From<Null> for Value {
    fn from(_v: Null) -> (r: Value) {
        Value::null()
    }
}

impl vstd::std_specs::convert::FromSpecImpl<Null> for Value {
    open spec fn obeys_from_spec() -> bool {
        true
    }

    open spec fn from_spec(v: Null) -> Value {
        Value(tagged_bits(TAG_NULL, 0))
    }
}

impl From<Undefined> for Value {
    fn from(_v: Undefined) -> (r: Value) {
        Value::undefined()
    }
}

impl vstd::std_specs::convert::FromSpecImpl<Undefined> for Value {
    open spec fn obeys_from_spec() -> bool {
        true
    }

    open spec fn from_spec(v: Undefined) -> Value {
        Value(tagged_bits(TAG_UNDEF, 0))
    }
}

impl From<bool> for Value {
    fn from(v: bool) -> (r: Value) {
        Value::bool(v)
    }
}

impl vstd::std_specs::convert::FromSpecImpl<bool> for Value {
    open spec fn obeys_from_spec() -> bool {
        true
    }

    open spec fn from_spec(v: bool) -> Value {
        bool_value(v)
    }
}

impl From<i32> for Value {
    fn from(v: i32) -> (r: Value) {
        Value::i32(v)
    }
}

impl vstd::std_specs::convert::FromSpecImpl<i32> for Value {
    open spec fn obeys_from_spec() -> bool {
        true
    }

    open spec fn from_spec(v: i32) -> Value {
        int_value(v)
    }
}

impl From<i16> for Value {
    fn from(v: i16) -> (r: Value) {
        Value::i32(v as i32)
    }
}

impl vstd::std_specs::convert::FromSpecImpl<i16> for Value {
    open spec fn obeys_from_spec() -> bool {
        true
    }

    open spec fn from_spec(v: i16) -> Value {
        int_value(v as i32)
    }
}

impl From<i8> for Value {
    fn from(v: i8) -> (r: Value) {
        Value::i32(v as i32)
    }
}

impl vstd::std_specs::convert::FromSpecImpl<i8> for Value {
    open spec fn obeys_from_spec() -> bool {
        true
    }

    open spec fn from_spec(v: i8) -> Value {
        int_value(v as i32)
    }
}

impl From<u16> for Value {
    fn from(v: u16) -> (r: Value) {
        Value::i32(v as i32)
    }
}

impl vstd::std_specs::convert::FromSpecImpl<u16> for Value {
    open spec fn obeys_from_spec() -> bool {
        true
    }

    open spec fn from_spec(v: u16) -> Value {
        int_value(v as i32)
    }
}

impl From<u8> for Value {
    fn from(v: u8) -> (r: Value) {
        Value::i32(v as i32)
    }
}

impl vstd::std_specs::convert::FromSpecImpl<u8> for Value {
    open spec fn obeys_from_spec() -> bool {
        true
    }

    open spec fn from_spec(v: u8) -> Value {
        int_value(v as i32)
    }
}

impl From<Atom> for Value {
    fn from(v: Atom) -> (r: Value) {
        Value::atom(v)
    }
}

impl vstd::std_specs::convert::FromSpecImpl<Atom> for Value {
    open spec fn obeys_from_spec() -> bool {
        true
    }

    open spec fn from_spec(v: Atom) -> Value {
        atom_value(v.0)
    }
}

/// `value` as `null`; otherwise the error names the type found.
pub fn try_null(value: Value, heap: &GC) -> (r: Result<Null, ValueTypeError>)
    requires
        heap.wf(),
    ensures
        match r {
            Ok(_) => value@ is Null,
            Err(e) => !(value@ is Null) && e.expected_text() == "null" && e.actual_text()
                == type_label_of(heap.cells(), value@),
        },
{
    if value.is_null() {
        Ok(Null)
    } else {
        Err(ValueTypeError::new("null", value.type_label(heap)))
    }
}

/// `value` as `undefined` (the empty hole counts); otherwise the error names
/// the type found.
pub fn try_undefined(value: Value, heap: &GC) -> (r: Result<Undefined, ValueTypeError>)
    requires
        heap.wf(),
    ensures
        match r {
            Ok(_) => spec_is_undefined(value@),
            Err(e) => !spec_is_undefined(value@) && e.expected_text() == "undefined"
                && e.actual_text() == type_label_of(heap.cells(), value@),
        },
{
    if value.is_undefined() {
        Ok(Undefined)
    } else {
        Err(ValueTypeError::new("undefined", value.type_label(heap)))
    }
}

/// `value` as a boolean; otherwise the error names the type found.
pub fn try_bool(value: Value, heap: &GC) -> (r: Result<bool, ValueTypeError>)
    requires
        heap.wf(),
    ensures
        match r {
            Ok(b) => value@ == ValueView::Bool(b),
            Err(e) => !(value@ is Bool) && e.expected_text() == "bool" && e.actual_text()
                == type_label_of(heap.cells(), value@),
        },
{
    match value.as_bool() {
        Some(b) => Ok(b),
        None => Err(ValueTypeError::new("bool", value.type_label(heap))),
    }
}

/// `value` as an atom; otherwise the error names the type found.
pub fn try_atom(value: Value, heap: &GC) -> (r: Result<Atom, ValueTypeError>)
    requires
        heap.wf(),
    ensures
        match r {
            Ok(a) => value@ == ValueView::Atom(a.0),
            Err(e) => !(value@ is Atom) && e.expected_text() == "string" && e.actual_text()
                == type_label_of(heap.cells(), value@),
        },
{
    match value.as_atom() {
        Some(a) => Ok(a),
        None => Err(ValueTypeError::new("string", value.type_label(heap))),
    }
}

/// `value` as a number, an integer or a double given by its bits; otherwise
/// the error names the type found.
pub fn try_number(value: Value, heap: &GC) -> (r: Result<Numeric, ValueTypeError>)
    requires
        heap.wf(),
    ensures
        match r {
            Ok(n) => match value@ {
                ValueView::Int(i) => n == Numeric::Int(i),
                ValueView::Number(b) => n == Numeric::Double(b),
                _ => false,
            },
            Err(e) => !(value@ is Int) && !(value@ is Number) && e.expected_text() == "number"
                && e.actual_text() == type_label_of(heap.cells(), value@),
        },
{
    if let Some(i) = value.as_i32() {
        return Ok(Numeric::Int(i));
    }
    match value.as_f64() {
        Some(b) => Ok(Numeric::Double(b)),
        None => Err(ValueTypeError::new("number", value.type_label(heap))),
    }
}

/// What a checked read of an integer type with range `lo..=hi` named
/// `name` gives: the integer, or the error "number" when the value denotes
/// no integer, or the error `name` when the integer is out of range.
pub open spec fn integer_read(
    cells: Seq<crate::gc::GcBox>,
    v: ValueView,
    lo: int,
    hi: int,
    name: &'static str,
    r: Result<int, ValueTypeError>,
) -> bool {
    match integer_of(v) {
        None => r matches Err(e) && e.expected_text() == "number" && e.actual_text()
            == type_label_of(cells, v),
        Some(i) => if lo <= i <= hi {
            r == Ok::<int, ValueTypeError>(i)
        } else {
            r matches Err(e) && e.expected_text() == name && e.actual_text() == type_label_of(
                cells,
                v,
            )
        },
    }
}

/// The ghost reading of a checked read's result.
pub open spec fn as_int_result<T>(r: Result<T, ValueTypeError>, f: spec_fn(T) -> int) -> Result<
    int,
    ValueTypeError,
> {
    match r {
        Ok(x) => Ok(f(x)),
        Err(e) => Err(e),
    }
}

/// `value` as an integer in `lo..=hi`; the errors are those of
/// `integer_read`.
pub fn try_signed(value: Value, heap: &GC, lo: i128, hi: i128, name: &'static str) -> (r: Result<
    i128,
    ValueTypeError,
>)
    requires
        heap.wf(),
    ensures
        integer_read(
            heap.cells(),
            value@,
            lo as int,
            hi as int,
            name,
            as_int_result(r, |x: i128| x as int),
        ),
{
    match value.integer_value() {
        None => Err(ValueTypeError::new("number", value.type_label(heap))),
        Some(i) => if lo <= i && i <= hi {
            Ok(i)
        } else {
            Err(ValueTypeError::new(name, value.type_label(heap)))
        },
    }
}

/// `value` as a non-negative integer at most `hi`; the errors are those of
/// `integer_read` over `0..=hi`, negative integers giving "number".
pub fn try_unsigned(value: Value, heap: &GC, hi: u128, name: &'static str) -> (r: Result<
    u128,
    ValueTypeError,
>)
    requires
        heap.wf(),
    ensures
        match integer_of(value@) {
            Some(i) if i < 0 => r matches Err(e) && e.expected_text() == "number"
                && e.actual_text() == type_label_of(heap.cells(), value@),
            _ => integer_read(
                heap.cells(),
                value@,
                0,
                hi as int,
                name,
                as_int_result(r, |x: u128| x as int),
            ),
        },
{
    match value.unsigned_integer_value() {
        None => Err(ValueTypeError::new("number", value.type_label(heap))),
        Some(i) => if i <= hi {
            Ok(i)
        } else {
            Err(ValueTypeError::new(name, value.type_label(heap)))
        },
    }
}

} // verus!
