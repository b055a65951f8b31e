//! What a value means with the heap at hand: its kind, truthiness, integer
//! coercion and type names; the conversion errors; and the value helpers
//! that the interpreter calls.
use vstd::prelude::*;

pub mod construct;
pub mod calls;
pub mod convert;
pub mod type_error;

use crate::atoms::{intern_post, is_live, text_of, texts_unique, Atom, EntryView};
use crate::float_bits::{
    bits_is_infinite, bits_is_nan, bits_is_zero, is_infinite_bits, is_nan_bits, is_zero_bits,
    saturating_cast, saturating_cast_bits, sign_negative, CANONICAL_NAN_BITS,
};
use crate::fmt::{dec, push_dec, push_str};
use crate::gc::{object_kind, GcBox, Gc, HeapObject, HeapTyped, ObjType, GC};
use crate::heap::{object_get, QArray, QObject};
use crate::runtime::{atom_room, atoms_grow, room_for, Context};
use crate::heap::QString;
use crate::value::{heap_kind_name, spec_is_undefined, HeapKind, Value, ValueView, MAX_HEAP_HANDLE};

verus! {

// ---------------------------------------------------------------------------
// Errors
// ---------------------------------------------------------------------------
/// A value did not have the type a conversion asked for.
#[derive(Clone, Debug, PartialEq, Eq)]
pub struct ValueTypeError {
    expected: &'static str,
    actual: &'static str,
}

impl ValueTypeError {
    pub closed spec fn expected_text(&self) -> &'static str {
        self.expected
    }

    pub closed spec fn actual_text(&self) -> &'static str {
        self.actual
    }

    pub(crate) fn new(expected: &'static str, actual: &'static str) -> (r: Self)
        ensures
            r.expected_text() == expected,
            r.actual_text() == actual,
    {
        ValueTypeError { expected, actual }
    }

    /// The type that was asked for.
    pub fn expected(&self) -> (r: &'static str)
        ensures
            r == self.expected_text(),
    {
        self.expected
    }

    /// The type that was found.
    pub fn actual(&self) -> (r: &'static str)
        ensures
            r == self.actual_text(),
    {
        self.actual
    }

    /// "expected {expected}, got {actual}".
    pub fn describe(&self) -> (r: String)
        ensures
            r@ == "expected "@ + self.expected_text()@ + ", got "@ + self.actual_text()@,
    {
        let mut s = String::new();
        push_str(&mut s, "expected ");
        push_str(&mut s, self.expected);
        push_str(&mut s, ", got ");
        push_str(&mut s, self.actual);
        s
    }
}

/// `prefix + name + suffix` as a new string.
fn framed(prefix: &str, name: &str, suffix: &str) -> (r: String)
    ensures
        r@ == prefix@ + name@ + suffix@,
{
    let mut s = String::new();
    push_str(&mut s, prefix);
    push_str(&mut s, name);
    push_str(&mut s, suffix);
    s
}

/// `name + suffix` as a new string.
fn suffixed(name: &str, suffix: &str) -> (r: String)
    ensures
        r@ == name@ + suffix@,
{
    let mut s = String::new();
    push_str(&mut s, name);
    push_str(&mut s, suffix);
    s
}

/// A JSON conversion failed.
#[derive(Clone, Debug, PartialEq, Eq)]
pub struct JsonValueError {
    message: String,
}

impl JsonValueError {
    pub closed spec fn text(&self) -> Seq<char> {
        self.message@
    }

    pub(crate) fn unsupported(kind_name: &'static str) -> (r: Self)
        ensures
            r.text() == kind_name@ + " cannot be converted to JSON"@,
    {
        JsonValueError { message: suffixed(kind_name, " cannot be converted to JSON") }
    }

    pub(crate) fn cyclic(kind_name: &'static str) -> (r: Self)
        ensures
            r.text() == "cyclic "@ + kind_name@ + " cannot be converted to JSON"@,
    {
        JsonValueError { message: framed("cyclic ", kind_name, " cannot be converted to JSON") }
    }

    pub(crate) fn parse(message: &str) -> (r: Self)
        ensures
            r.text() == message@,
    {
        JsonValueError { message: message.to_string() }
    }

    pub fn message(&self) -> (r: &str)
        ensures
            r@ == self.text(),
    {
        self.message.as_str()
    }
}

/// A YAML conversion failed.
#[derive(Clone, Debug, PartialEq, Eq)]
pub struct YamlValueError {
    message: String,
}

impl YamlValueError {
    pub closed spec fn text(&self) -> Seq<char> {
        self.message@
    }

    pub(crate) fn unsupported(kind_name: &'static str) -> (r: Self)
        ensures
            r.text() == kind_name@ + " cannot be converted to YAML"@,
    {
        YamlValueError { message: suffixed(kind_name, " cannot be converted to YAML") }
    }

    pub(crate) fn cyclic(kind_name: &'static str) -> (r: Self)
        ensures
            r.text() == "cyclic "@ + kind_name@ + " cannot be converted to YAML"@,
    {
        YamlValueError { message: framed("cyclic ", kind_name, " cannot be converted to YAML") }
    }

    pub(crate) fn parse(message: &str) -> (r: Self)
        ensures
            r.text() == message@,
    {
        YamlValueError { message: message.to_string() }
    }

    pub fn message(&self) -> (r: &str)
        ensures
            r@ == self.text(),
    {
        self.message.as_str()
    }
}

/// A MessagePack conversion failed.
#[derive(Clone, Debug, PartialEq, Eq)]
pub struct MsgpackValueError {
    message: String,
}

impl MsgpackValueError {
    pub closed spec fn text(&self) -> Seq<char> {
        self.message@
    }

    pub(crate) fn unsupported(kind_name: &'static str) -> (r: Self)
        ensures
            r.text() == kind_name@ + " cannot be converted to MsgPack"@,
    {
        MsgpackValueError { message: suffixed(kind_name, " cannot be converted to MsgPack") }
    }

    pub(crate) fn cyclic(kind_name: &'static str) -> (r: Self)
        ensures
            r.text() == "cyclic "@ + kind_name@ + " cannot be converted to MsgPack"@,
    {
        MsgpackValueError {
            message: framed("cyclic ", kind_name, " cannot be converted to MsgPack"),
        }
    }

    pub(crate) fn parse(message: &str) -> (r: Self)
        ensures
            r.text() == message@,
    {
        MsgpackValueError { message: message.to_string() }
    }

    pub fn message(&self) -> (r: &str)
        ensures
            r@ == self.text(),
    {
        self.message.as_str()
    }
}

/// A serde conversion failed.
#[derive(Clone, Debug, PartialEq, Eq)]
pub struct SerdeValueError {
    message: String,
}

impl SerdeValueError {
    pub closed spec fn text(&self) -> Seq<char> {
        self.message@
    }

    pub(crate) fn unsupported(kind_name: &'static str) -> (r: Self)
        ensures
            r.text() == kind_name@ + " cannot be converted through serde"@,
    {
        SerdeValueError { message: suffixed(kind_name, " cannot be converted through serde") }
    }

    pub(crate) fn cyclic(kind_name: &'static str) -> (r: Self)
        ensures
            r.text() == "cyclic "@ + kind_name@ + " cannot be converted through serde"@,
    {
        SerdeValueError {
            message: framed("cyclic ", kind_name, " cannot be converted through serde"),
        }
    }

    /// An error carrying the text of another error.
    pub(crate) fn serde_json(error: &str) -> (r: Self)
        ensures
            r.text() == error@,
    {
        SerdeValueError { message: error.to_string() }
    }

    pub fn message(&self) -> (r: &str)
        ensures
            r@ == self.text(),
    {
        self.message.as_str()
    }
}

/// A feature of the value layer is not available.
#[derive(Clone, Debug, PartialEq, Eq)]
pub struct ValueError {
    message: String,
}

impl ValueError {
    pub closed spec fn text(&self) -> Seq<char> {
        self.message@
    }

    pub(crate) fn unsupported(feature: &'static str) -> (r: Self)
        ensures
            r.text() == feature@ + " support is not available in this register-vm build"@,
    {
        ValueError {
            message: suffixed(feature, " support is not available in this register-vm build"),
        }
    }

    pub fn message(&self) -> (r: &str)
        ensures
            r@ == self.text(),
    {
        self.message.as_str()
    }
}

// ---------------------------------------------------------------------------
// Reading values against the heap
// ---------------------------------------------------------------------------
/// The kind of the cell a value refers to, when it refers to a cell of
/// `cells`.
pub open spec fn kind_in(cells: Seq<GcBox>, v: ValueView) -> Option<HeapKind> {
    match v {
        ValueView::Heap(h) => if h < cells.len() {
            Some(object_kind(cells[h as int].value))
        } else {
            None
        },
        _ => None,
    }
}

/// The value refers to an object cell that is marked as `document.all`-like.
pub open spec fn html_dda(cells: Seq<GcBox>, v: ValueView) -> bool {
    match v {
        ValueView::Heap(h) => h < cells.len() && (cells[h as int].value matches HeapObject::Object(o)
            && o.is_html_dda),
        _ => false,
    }
}

/// Truthiness of a value.
pub open spec fn truthy(cells: Seq<GcBox>, v: ValueView) -> bool {
    match v {
        ValueView::Number(b) => !is_zero_bits(b) && !is_nan_bits(b),
        ValueView::Int(i) => i != 0,
        ValueView::Bool(b) => b,
        ValueView::Null | ValueView::Undefined | ValueView::Empty => false,
        ValueView::Heap(_) => !html_dda(cells, v),
        ValueView::Atom(_) | ValueView::Unknown => true,
    }
}

/// The name of a value's type.
pub open spec fn type_label_of(cells: Seq<GcBox>, v: ValueView) -> &'static str {
    match v {
        ValueView::Number(_) | ValueView::Int(_) => "number",
        ValueView::Bool(_) => "bool",
        ValueView::Null => "null",
        ValueView::Undefined | ValueView::Empty => "undefined",
        ValueView::Atom(_) => "string",
        ValueView::Heap(_) => match kind_in(cells, v) {
            Some(k) => heap_kind_name(k),
            None => "object",
        },
        ValueView::Unknown => "unknown",
    }
}

/// ToInt32 as the interpreter does it: a double is truncated and saturated
/// (NaN and the infinities give 0), booleans give 0 or 1, everything else 0.
pub open spec fn to_int32(v: ValueView) -> i32 {
    match v {
        ValueView::Number(b) => if is_nan_bits(b) || is_infinite_bits(b) {
            0
        } else {
            saturating_cast(b, i32::MIN as int, i32::MAX as int) as i32
        },
        ValueView::Int(i) => i,
        ValueView::Bool(b) => if b {
            1
        } else {
            0
        },
        _ => 0,
    }
}

/// A number as ToNumber produces it: an integer, or a double given by its
/// bits.
#[derive(Clone, Copy, PartialEq, Eq, Structural, Debug)]
pub enum Numeric {
    Int(i32),
    Double(u64),
}

/// ToNumber: doubles and integers are themselves, booleans are 0 or 1, null
/// is 0, everything else is NaN.
pub open spec fn numeric_of(v: ValueView) -> Numeric {
    match v {
        ValueView::Number(b) => Numeric::Double(b),
        ValueView::Int(i) => Numeric::Int(i),
        ValueView::Bool(b) => Numeric::Int(
            if b {
                1
            } else {
                0
            },
        ),
        ValueView::Null => Numeric::Int(0),
        _ => Numeric::Double(CANONICAL_NAN_BITS),
    }
}

impl Value {
    /// The kind of the cell the value refers to.
    pub fn heap_kind(self, heap: &GC) -> (r: Option<HeapKind>)
        requires
            heap.wf(),
        ensures
            r == kind_in(heap.cells(), self@),
    {
        match self.as_heap_ptr() {
            Some(h) => heap.kind_of(h),
            None => None,
        }
    }

    /// The object cell the value refers to.
    pub fn as_obj(self, heap: &GC) -> (r: Option<Gc<QObject>>)
        requires
            heap.wf(),
        ensures
            match r {
                Some(g) => kind_in(heap.cells(), self@) == Some(HeapKind::Object) && self@
                    == ValueView::Heap(g.index) && g.valid(heap),
                None => kind_in(heap.cells(), self@) != Some(HeapKind::Object),
            },
    {
        match self.as_heap_ptr() {
            Some(h) => match heap.kind_of(h) {
                Some(HeapKind::Object) => Some(Gc { index: h, marker: core::marker::PhantomData }),
                _ => None,
            },
            None => None,
        }
    }

    /// The name of the value's type.
    pub fn type_label(self, heap: &GC) -> (r: &'static str)
        requires
            heap.wf(),
        ensures
            r == type_label_of(heap.cells(), self@),
    {
        if !self.is_f64() {
            if self.is_int() {
                return "number";
            }
            if self.as_bool().is_some() {
                return "bool";
            }
            if self.is_null() {
                return "null";
            }
            if self.is_undefined() {
                return "undefined";
            }
            if self.as_atom().is_some() {
                return "string";
            }
            if self.as_heap_ptr().is_some() {
                return match self.heap_kind(heap) {
                    Some(kind) => kind.type_label(),
                    None => "object",
                };
            }
            return "unknown";
        }
        "number"
    }

    /// The value refers to an object marked as `document.all`-like.
    pub fn is_html_dda(self, heap: &GC) -> (r: bool)
        requires
            heap.wf(),
        ensures
            r == html_dda(heap.cells(), self@),
    {
        match self.as_obj(heap) {
            Some(obj) => obj.borrow(heap).is_html_dda,
            None => false,
        }
    }

    /// Truthiness: nonzero numbers, true, strings, other cells and unknown
    /// words are truthy; `document.all`-like objects are not.
    pub fn is_truthy(self, heap: &GC) -> (r: bool)
        requires
            heap.wf(),
        ensures
            r == truthy(heap.cells(), self@),
    {
        match self.as_f64() {
            Some(bits) => !bits_is_zero(bits) && !bits_is_nan(bits),
            None => {
                if let Some(b) = self.as_bool() {
                    b
                } else if let Some(i) = self.as_i32() {
                    i != 0
                } else if self.is_null() || self.is_undefined() {
                    false
                } else if self.as_heap_ptr().is_some() {
                    !self.is_html_dda(heap)
                } else {
                    true
                }
            },
        }
    }

    /// ToInt32 as the interpreter does it.
    pub fn to_i32(&self) -> (r: i32)
        ensures
            r == to_int32(self@),
    {
        match self.as_f64() {
            Some(bits) => {
                if bits_is_nan(bits) || bits_is_infinite(bits) {
                    0
                } else {
                    saturating_cast_bits(bits, i32::MIN as i128, i32::MAX as i128) as i32
                }
            },
            None => {
                if let Some(i) = self.as_i32() {
                    i
                } else if let Some(b) = self.as_bool() {
                    if b {
                        1
                    } else {
                        0
                    }
                } else {
                    0
                }
            },
        }
    }

    /// ToNumber of the value.
    pub fn to_numeric(&self) -> (r: Numeric)
        ensures
            r == numeric_of(self@),
    {
        if let Some(bits) = self.as_f64() {
            Numeric::Double(bits)
        } else if let Some(i) = self.as_i32() {
            Numeric::Int(i)
        } else if let Some(b) = self.as_bool() {
            Numeric::Int(
                if b {
                    1
                } else {
                    0
                },
            )
        } else if self.is_null() {
            Numeric::Int(0)
        } else {
            Numeric::Double(CANONICAL_NAN_BITS)
        }
    }

    // -- conversions that this build does not offer -------------------------
    /// JSON text cannot be read in this build.
    pub fn from_json(_ctx: &Context, _json: &str) -> (r: Result<Value, JsonValueError>)
        ensures
            r matches Err(e) && e.text() == "JSON support is not available in this register-vm build"@,
    {
        Err(JsonValueError::parse("JSON support is not available in this register-vm build"))
    }

    /// Values cannot be built through serde in this build.
    pub fn from_serde<T>(_ctx: &Context, _value: &T) -> (r: Result<Value, SerdeValueError>)
        ensures
            r matches Err(e) && e.text() == "serde"@ + " cannot be converted through serde"@,
    {
        Err(SerdeValueError::unsupported("serde"))
    }

    /// Any serde value becomes undefined in this build.
    pub fn from_serde_json<T>(_ctx: &Context, _value: &T) -> (r: Value)
        ensures
            r@ == ValueView::Undefined,
    {
        Value::undefined()
    }

    /// JSON text cannot be written in this build.
    pub fn to_json(self, _ctx: &Context) -> (r: Result<String, JsonValueError>)
        ensures
            r matches Err(e) && e.text() == "JSON support is not available in this register-vm build"@,
    {
        Err(JsonValueError::parse("JSON support is not available in this register-vm build"))
    }

    /// Values cannot be converted through serde in this build.
    pub fn to_serde<T>(self, _ctx: &Context) -> (r: Result<T, SerdeValueError>)
        ensures
            r matches Err(e) && e.text() == "serde"@ + " cannot be converted through serde"@,
    {
        Err(SerdeValueError::unsupported("serde"))
    }

    /// Values cannot be written through serde_json in this build.
    pub fn to_serde_json(self, _ctx: &Context) -> (r: Result<String, SerdeValueError>)
        ensures
            r matches Err(e) && e.text() == "serde_json"@ + " cannot be converted through serde"@,
    {
        Err(SerdeValueError::unsupported("serde_json"))
    }

    /// Pretty JSON text cannot be written in this build.
    pub fn to_pretty_json(self, _ctx: &Context) -> (r: Result<String, JsonValueError>)
        ensures
            r matches Err(e) && e.text() == "JSON support is not available in this register-vm build"@,
    {
        Err(JsonValueError::parse("JSON support is not available in this register-vm build"))
    }

    /// YAML text cannot be read in this build.
    pub fn from_yaml(_ctx: &Context, _yaml: &str) -> (r: Result<Value, YamlValueError>)
        ensures
            r matches Err(e) && e.text() == "YAML support is not available in this register-vm build"@,
    {
        Err(YamlValueError::parse("YAML support is not available in this register-vm build"))
    }

    /// YAML text cannot be written in this build.
    pub fn to_yaml(self, _ctx: &Context) -> (r: Result<String, YamlValueError>)
        ensures
            r matches Err(e) && e.text() == "YAML support is not available in this register-vm build"@,
    {
        Err(YamlValueError::parse("YAML support is not available in this register-vm build"))
    }

    /// MessagePack bytes cannot be read in this build.
    pub fn from_msgpack(_ctx: &Context, _bytes: &[u8]) -> (r: Result<Value, MsgpackValueError>)
        ensures
            r matches Err(e) && e.text()
                == "MsgPack support is not available in this register-vm build"@,
    {
        Err(MsgpackValueError::parse("MsgPack support is not available in this register-vm build"))
    }

    /// MessagePack bytes cannot be written in this build.
    pub fn to_msgpack(self, _ctx: &Context) -> (r: Result<Vec<u8>, MsgpackValueError>)
        ensures
            r matches Err(e) && e.text()
                == "MsgPack support is not available in this register-vm build"@,
    {
        Err(MsgpackValueError::parse("MsgPack support is not available in this register-vm build"))
    }

    /// Arena buffers cannot be read in this build.
    pub fn from_arena_buffer(_ctx: &Context, _bytes: &[u8]) -> (r: Result<Value, ValueError>)
        ensures
            r matches Err(e) && e.text() == "arena buffer"@
                + " support is not available in this register-vm build"@,
    {
        Err(ValueError::unsupported("arena buffer"))
    }

    /// Arena buffers cannot be written in this build.
    pub fn to_arena_buffer(self, _ctx: &Context) -> (r: Result<Vec<u8>, ValueError>)
        ensures
            r matches Err(e) && e.text() == "arena buffer"@
                + " support is not available in this register-vm build"@,
    {
        Err(ValueError::unsupported("arena buffer"))
    }
}

impl<T: HeapTyped> Gc<T> {
    /// The handle a value refers to, when its cell holds a `T`; otherwise the
    /// error names `T` and what was found.
    pub fn from_value(value: Value, heap: &GC) -> (r: Result<Gc<T>, ValueTypeError>)
        requires
            heap.wf(),
        ensures
            match r {
                Ok(g) => self_refers(value, g.index) && g.valid(heap),
                Err(e) => kind_in(heap.cells(), value@) != Some(T::spec_kind()) && e.expected_text()
                    == heap_kind_name(T::spec_kind()) && e.actual_text() == match kind_in(
                    heap.cells(),
                    value@,
                ) {
                    Some(k) => heap_kind_name(k),
                    None => type_label_of(heap.cells(), value@),
                },
            },
    {
        let want = T::kind();
        match value.as_heap_ptr() {
            Some(h) => match heap.kind_of(h) {
                Some(kind) => {
                    if kind == want {
                        Ok(Gc { index: h, marker: core::marker::PhantomData })
                    } else {
                        Err(ValueTypeError::new(want.type_label(), kind.type_label()))
                    }
                },
                None => Err(ValueTypeError::new(want.type_label(), value.type_label(heap))),
            },
            None => Err(ValueTypeError::new(want.type_label(), value.type_label(heap))),
        }
    }
}

/// The value refers to the cell `handle`.
pub open spec fn self_refers(value: Value, handle: u64) -> bool {
    value@ == ValueView::Heap(handle)
}

// ---------------------------------------------------------------------------
// Free helpers
// ---------------------------------------------------------------------------
pub fn make_int32(value: i32) -> (r: Value)
    ensures
        r@ == ValueView::Int(value),
{
    Value::i32(value)
}

pub fn make_bool(value: bool) -> (r: Value)
    ensures
        r@ == ValueView::Bool(value),
{
    Value::bool(value)
}

pub fn make_true() -> (r: Value)
    ensures
        r@ == ValueView::Bool(true),
{
    Value::bool(true)
}

pub fn make_false() -> (r: Value)
    ensures
        r@ == ValueView::Bool(false),
{
    Value::bool(false)
}

pub fn make_null() -> (r: Value)
    ensures
        r@ == ValueView::Null,
{
    Value::null()
}

pub fn make_undefined() -> (r: Value)
    ensures
        r@ == ValueView::Undefined,
{
    Value::undefined()
}

/// A value referring to the object cell `handle`.
pub fn make_object(handle: u64) -> (r: Value)
    requires
        handle <= MAX_HEAP_HANDLE,
    ensures
        r@ == ValueView::Heap(handle),
{
    Value::heap(handle)
}

/// A value referring to the string cell `handle`.
pub fn make_string(handle: u64) -> (r: Value)
    requires
        handle <= MAX_HEAP_HANDLE,
    ensures
        r@ == ValueView::Heap(handle),
{
    Value::heap(handle)
}

/// The integer of an int, or a double truncated and saturated (NaN gives 0).
pub fn to_i32(value: Value) -> (r: Option<i32>)
    ensures
        r == match value@ {
            ValueView::Int(i) => Some(i),
            ValueView::Number(b) => Some(saturating_cast(b, i32::MIN as int, i32::MAX as int) as i32),
            _ => None::<i32>,
        },
{
    match value.as_i32() {
        Some(i) => Some(i),
        None => match value.as_f64() {
            Some(bits) => Some(saturating_cast_bits(bits, i32::MIN as i128, i32::MAX as i128) as i32),
            None => None,
        },
    }
}

pub fn bool_from_value(value: Value) -> (r: Option<bool>)
    ensures
        r == match value@ {
            ValueView::Bool(b) => Some(b),
            _ => None::<bool>,
        },
{
    value.as_bool()
}

/// Ints and doubles are numbers.
pub fn is_number(value: Value) -> (r: bool)
    ensures
        r == (value@ is Int || value@ is Number),
{
    value.as_i32().is_some() || value.as_f64().is_some()
}

pub fn is_null(value: Value) -> (r: bool)
    ensures
        r == (value@ is Null),
{
    value.is_null()
}

pub fn is_undefined(value: Value) -> (r: bool)
    ensures
        r == spec_is_undefined(value@),
{
    value.is_undefined()
}

pub fn is_truthy(value: Value, heap: &GC) -> (r: bool)
    requires
        heap.wf(),
    ensures
        r == truthy(heap.cells(), value@),
{
    value.is_truthy(heap)
}

/// The cell class of the cell a value refers to.
pub open spec fn class_in(cells: Seq<GcBox>, v: ValueView) -> Option<ObjType> {
    match v {
        ValueView::Heap(h) => if h < cells.len() {
            Some(cells[h as int].header.obj_type)
        } else {
            None
        },
        _ => None,
    }
}

fn cell_class(value: Value, heap: &GC) -> (r: Option<ObjType>)
    requires
        heap.wf(),
    ensures
        r == class_in(heap.cells(), value@),
{
    match value.as_heap_ptr() {
        Some(h) => if h < heap.object_count() as u64 {
            Some(heap.header(h).obj_type)
        } else {
            None
        },
        None => None,
    }
}

/// The handle of the object-class cell a value refers to.
pub fn object_from_value(value: Value, heap: &GC) -> (r: Option<u64>)
    requires
        heap.wf(),
    ensures
        r == (if class_in(heap.cells(), value@) == Some(ObjType::Object) {
            Some(value@->Heap_0)
        } else {
            None
        }),
{
    match cell_class(value, heap) {
        Some(ObjType::Object) => value.as_heap_ptr(),
        _ => None,
    }
}

/// The handle of the string-class cell a value refers to.
pub fn string_from_value(value: Value, heap: &GC) -> (r: Option<u64>)
    requires
        heap.wf(),
    ensures
        r == (if class_in(heap.cells(), value@) == Some(ObjType::String) {
            Some(value@->Heap_0)
        } else {
            None
        }),
{
    match cell_class(value, heap) {
        Some(ObjType::String) => value.as_heap_ptr(),
        _ => None,
    }
}

pub fn is_object(value: Value, heap: &GC) -> (r: bool)
    requires
        heap.wf(),
    ensures
        r == (class_in(heap.cells(), value@) == Some(ObjType::Object)),
{
    object_from_value(value, heap).is_some()
}

/// Atoms and string-class cells are strings.
pub fn is_string(value: Value, heap: &GC) -> (r: bool)
    requires
        heap.wf(),
    ensures
        r == (value@ is Atom || class_in(heap.cells(), value@) == Some(ObjType::String)),
{
    value.as_atom().is_some() || string_from_value(value, heap).is_some()
}

/// `callee` followed by `args`.
pub fn prepend_callee_arg(callee: Value, args: &[Value]) -> (r: Vec<Value>)
    ensures
        r@ == seq![callee] + args@,
{
    let mut merged: Vec<Value> = Vec::new();
    merged.push(callee);
    let mut i: usize = 0;
    while i < args.len()
        invariant
            i <= args@.len(),
            merged@ == seq![callee] + args@.take(i as int),
        decreases args@.len() - i,
    {
        merged.push(args[i]);
        proof {
            assert(args@.take(i + 1) =~= args@.take(i as int).push(args@[i as int]));
        }
        i = i + 1;
    }
    proof {
        assert(args@.take(args@.len() as int) =~= args@);
    }
    merged
}

/// The elements of the array cell that `bound` refers to, if any, followed
/// by `args`.
pub open spec fn merged_args(cells: Seq<GcBox>, bound: ValueView, args: Seq<Value>) -> Seq<Value> {
    match bound {
        ValueView::Heap(h) => if h < cells.len() && cells[h as int].value is Array {
            cells[h as int].value->Array_0.elements@ + args
        } else {
            args
        },
        _ => args,
    }
}

/// The elements of the bound-argument array, when `bound_args` refers to an
/// array cell, followed by `args`.
pub fn merge_bound_args(bound_args: Value, args: &[Value], heap: &GC) -> (r: Vec<Value>)
    requires
        heap.wf(),
    ensures
        r@ == merged_args(heap.cells(), bound_args@, args@),
{
    let mut merged: Vec<Value> = Vec::new();
    let ghost prefix: Seq<Value> = Seq::empty();
    match Gc::<QArray>::from_value(bound_args, heap) {
        Ok(arr) => {
            let elements = &arr.borrow(heap).elements;
            let mut k: usize = 0;
            while k < elements.len()
                invariant
                    k <= elements@.len(),
                    merged@ == elements@.take(k as int),
                decreases elements@.len() - k,
            {
                merged.push(elements[k]);
                proof {
                    assert(elements@.take(k + 1) =~= elements@.take(k as int).push(elements@[k as int]));
                }
                k = k + 1;
            }
            proof {
                assert(elements@.take(elements@.len() as int) =~= elements@);
                prefix = elements@;
            }
        },
        Err(_) => {},
    }
    let ghost base = merged@;
    let mut i: usize = 0;
    while i < args.len()
        invariant
            i <= args@.len(),
            merged@ == base + args@.take(i as int),
        decreases args@.len() - i,
    {
        merged.push(args[i]);
        proof {
            assert(args@.take(i + 1) =~= args@.take(i as int).push(args@[i as int]));
            assert(base + args@.take(i + 1) =~= (base + args@.take(i as int)).push(args@[i as int]));
        }
        i = i + 1;
    }
    proof {
        assert(args@.take(args@.len() as int) =~= args@);
    }
    merged
}


// ---------------------------------------------------------------------------
// Conversions that intern text
// ---------------------------------------------------------------------------
/// The live atom of `t` whose text is `s`.
pub open spec fn atom_of(t: Seq<Option<EntryView>>, s: Seq<char>) -> Atom {
    choose|a: Atom| is_live(t, a) && text_of(t, a) == s
}

pub(crate) proof fn lemma_atom_of(t: Seq<Option<EntryView>>, a: Atom, s: Seq<char>)
    requires
        texts_unique(t),
        is_live(t, a),
        text_of(t, a) == s,
    ensures
        atom_of(t, s) == a,
{
    let b = atom_of(t, s);
    assert(is_live(t, b) && text_of(t, b) == s);
    if b.0 != a.0 {
        assert(t[b.0 as int]->Some_0.text != t[a.0 as int]->Some_0.text);
    }
}

pub(crate) proof fn lemma_atom_of_grows(
    t: Seq<Option<EntryView>>,
    t2: Seq<Option<EntryView>>,
    a: Atom,
    s: Seq<char>,
)
    requires
        texts_unique(t2),
        atoms_grow(t, t2),
        is_live(t, a),
        text_of(t, a) == s,
    ensures
        atom_of(t2, s) == a,
{
    assert(t2[a.0 as int] == t[a.0 as int]);
    lemma_atom_of(t2, a, s);
}

/// The value of property `a` of `o`, or undefined.
pub open spec fn prop_view(o: QObject, a: Atom) -> ValueView {
    match object_get(o, a) {
        Some(x) => x@,
        None => ValueView::Undefined,
    }
}

/// The object carries one of the markers of a callable: a truthy bound
/// target, a native function, or a bytecode number.
pub open spec fn marked_callable(cells: Seq<GcBox>, t: Seq<Option<EntryView>>, o: QObject) -> bool {
    ||| truthy(cells, prop_view(o, atom_of(t, "__vm_bound_target"@)))
    ||| kind_in(cells, prop_view(o, atom_of(t, "__vm_native_fn"@))) == Some(
        HeapKind::NativeFunction,
    )
    ||| prop_view(o, atom_of(t, "__vm_bytecode_id"@)) is Int
}

/// The text that `typeof` gives.
pub open spec fn typeof_text(cells: Seq<GcBox>, t: Seq<Option<EntryView>>, v: ValueView) -> Seq<
    char,
> {
    if html_dda(cells, v) {
        "undefined"@
    } else {
        match v {
            ValueView::Number(_) | ValueView::Int(_) => "number"@,
            ValueView::Bool(_) => "boolean"@,
            ValueView::Undefined | ValueView::Empty => "undefined"@,
            ValueView::Atom(_) => "string"@,
            ValueView::Heap(h) => match kind_in(cells, v) {
                Some(HeapKind::Function) | Some(HeapKind::Closure) | Some(
                    HeapKind::NativeFunction,
                ) | Some(HeapKind::NativeClosure) => "function"@,
                Some(HeapKind::Object) => if marked_callable(
                    cells,
                    t,
                    cells[h as int].value->Object_0,
                ) {
                    "function"@
                } else {
                    "object"@
                },
                _ => "object"@,
            },
            _ => "object"@,
        }
    }
}

/// `typeof` of every callable cell (a function, a closure, a native
/// function or a native closure) is "function", whatever the atom table.
pub proof fn law_typeof_callable(cells: Seq<GcBox>, t: Seq<Option<EntryView>>, v: ValueView)
    requires
        kind_in(cells, v) == Some(HeapKind::Function) || kind_in(cells, v) == Some(HeapKind::Closure)
            || kind_in(cells, v) == Some(HeapKind::NativeFunction) || kind_in(cells, v) == Some(
            HeapKind::NativeClosure,
        ),
    ensures
        typeof_text(cells, t, v) == "function"@,
{
}

/// `typeof` of values that are not heap cells: numbers are "number",
/// booleans "boolean", atoms "string", undefined "undefined" and null
/// "object"; a plain object cell is "object".
pub proof fn law_typeof_primitives(cells: Seq<GcBox>, t: Seq<Option<EntryView>>, v: ValueView)
    ensures
        v is Int || v is Number ==> typeof_text(cells, t, v) == "number"@,
        v is Bool ==> typeof_text(cells, t, v) == "boolean"@,
        v is Atom ==> typeof_text(cells, t, v) == "string"@,
        v is Undefined ==> typeof_text(cells, t, v) == "undefined"@,
        v is Null ==> typeof_text(cells, t, v) == "object"@,
{
}

/// Interns `s` and returns the atom value.
fn intern_value(ctx: &mut Context, s: &str) -> (r: Value)
    requires
        old(ctx).wf(),
        atom_room(&old(ctx).rt.atoms, 0),
    ensures
        final(ctx).wf(),
        final(ctx).cells() == old(ctx).cells(),
        final(ctx).same_frame(&*old(ctx)),
        r@ is Atom,
        intern_post(old(ctx).rt.atoms@, s@, final(ctx).rt.atoms@, Atom(r@->Atom_0)),
        atoms_grow(old(ctx).rt.atoms@, final(ctx).rt.atoms@),
        final(ctx).rt.atoms@.len() <= old(ctx).rt.atoms@.len() + 1,
{
    let a = ctx.intern(s);
    proof {
        assert(atoms_grow(old(ctx).rt.atoms@, ctx.rt.atoms@));
    }
    Value::atom(a)
}

/// Looks up a property of an object cell by the text of its key, interning
/// the key.
pub(crate) fn marker(ctx: &mut Context, obj: &Gc<QObject>, key: &str) -> (r: Value)
    requires
        old(ctx).wf(),
        obj.valid(&old(ctx).rt.gc),
        atom_room(&old(ctx).rt.atoms, 0),
    ensures
        final(ctx).wf(),
        final(ctx).cells() == old(ctx).cells(),
        final(ctx).same_frame(&*old(ctx)),
        atoms_grow(old(ctx).rt.atoms@, final(ctx).rt.atoms@),
        final(ctx).rt.atoms@.len() <= old(ctx).rt.atoms@.len() + 1,
        is_live(final(ctx).rt.atoms@, atom_of(final(ctx).rt.atoms@, key@)),
        text_of(final(ctx).rt.atoms@, atom_of(final(ctx).rt.atoms@, key@)) == key@,
        old(ctx).cell(obj.index) matches HeapObject::Object(o) && r@ == prop_view(
            o,
            atom_of(final(ctx).rt.atoms@, key@),
        ),
{
    let a = ctx.intern(key);
    proof {
        ctx.rt.atoms.lemma_wf_unique();
        lemma_atom_of(ctx.rt.atoms@, a, key@);
    }
    let o = obj.borrow(&ctx.rt.gc);
    proof {
        use_type_invariant(&o.shape);
    }
    match o.get(a) {
        Some(v) => v,
        None => Value::undefined(),
    }
}

/// Whether an object cell carries a callable marker; the markers are
/// interned in order, each only when the previous ones are absent.
fn object_is_callable(ctx: &mut Context, obj: &Gc<QObject>) -> (r: bool)
    requires
        old(ctx).wf(),
        obj.valid(&old(ctx).rt.gc),
        atom_room(&old(ctx).rt.atoms, 3),
    ensures
        final(ctx).wf(),
        final(ctx).cells() == old(ctx).cells(),
        final(ctx).same_frame(&*old(ctx)),
        atoms_grow(old(ctx).rt.atoms@, final(ctx).rt.atoms@),
        final(ctx).rt.atoms@.len() <= old(ctx).rt.atoms@.len() + 3,
        old(ctx).cell(obj.index) matches HeapObject::Object(o) && forall|t2: Seq<Option<EntryView>>|
            atoms_grow(final(ctx).rt.atoms@, t2) && texts_unique(t2) ==> marked_callable(
                old(ctx).cells(),
                t2,
                o,
            ) == r,
{
    let ghost cells = ctx.cells();
    let ghost o = ctx.cell(obj.index)->Object_0;
    let ghost t0 = ctx.rt.atoms@;
    let bound = marker(ctx, obj, "__vm_bound_target");
    let ghost t1 = ctx.rt.atoms@;
    let ghost a1 = atom_of(t1, "__vm_bound_target"@);
    if bound.is_truthy(&ctx.rt.gc) {
        proof {
            assert forall|t2: Seq<Option<EntryView>>|
                atoms_grow(t1, t2) && texts_unique(t2) implies marked_callable(cells, t2, o)
                == true by {
                lemma_atom_of_grows(t1, t2, a1, "__vm_bound_target"@);
            }
        }
        return true;
    }
    let native = marker(ctx, obj, "__vm_native_fn");
    let ghost t2a = ctx.rt.atoms@;
    let ghost a2 = atom_of(t2a, "__vm_native_fn"@);
    proof {
        crate::runtime::lemma_grow_trans(t0, t1, t2a);
        ctx.rt.atoms.lemma_wf_unique();
        lemma_atom_of_grows(t1, t2a, a1, "__vm_bound_target"@);
    }
    if native.heap_kind(&ctx.rt.gc) == Some(HeapKind::NativeFunction) {
        proof {
            assert forall|t2: Seq<Option<EntryView>>|
                atoms_grow(t2a, t2) && texts_unique(t2) implies marked_callable(cells, t2, o)
                == true by {
                lemma_atom_of_grows(t2a, t2, a2, "__vm_native_fn"@);
            }
        }
        return true;
    }
    let id = marker(ctx, obj, "__vm_bytecode_id");
    let ghost t3 = ctx.rt.atoms@;
    let ghost a3 = atom_of(t3, "__vm_bytecode_id"@);
    proof {
        crate::runtime::lemma_grow_trans(t0, t2a, t3);
        ctx.rt.atoms.lemma_wf_unique();
        lemma_atom_of_grows(t1, t3, a1, "__vm_bound_target"@);
        lemma_atom_of_grows(t2a, t3, a2, "__vm_native_fn"@);
    }
    let r = id.as_i32().is_some();
    proof {
        assert forall|t2: Seq<Option<EntryView>>|
            atoms_grow(t3, t2) && texts_unique(t2) implies marked_callable(cells, t2, o) == r by {
            crate::runtime::lemma_grow_trans(t1, t3, t2);
            crate::runtime::lemma_grow_trans(t2a, t3, t2);
            lemma_atom_of_grows(t1, t2, a1, "__vm_bound_target"@);
            lemma_atom_of_grows(t2a, t2, a2, "__vm_native_fn"@);
            lemma_atom_of_grows(t3, t2, a3, "__vm_bytecode_id"@);
        }
    }
    r
}

impl Value {
    /// `typeof`: the type text of the value, interned. Object cells with a
    /// callable marker are functions; `document.all`-like objects are
    /// undefined.
    pub fn typeof_with_context(&self, ctx: &mut Context) -> (r: Value)
        requires
            old(ctx).wf(),
            atom_room(&old(ctx).rt.atoms, 4),
        ensures
            final(ctx).wf(),
            final(ctx).cells() == old(ctx).cells(),
            final(ctx).same_frame(&*old(ctx)),
            atoms_grow(old(ctx).rt.atoms@, final(ctx).rt.atoms@),
            final(ctx).rt.atoms@.len() <= old(ctx).rt.atoms@.len() + 4,
            r@ is Atom,
            is_live(final(ctx).rt.atoms@, Atom(r@->Atom_0)),
            text_of(final(ctx).rt.atoms@, Atom(r@->Atom_0)) == typeof_text(
                old(ctx).cells(),
                final(ctx).rt.atoms@,
                self@,
            ),
    {
        let ghost cells = ctx.cells();
        let ghost t0 = ctx.rt.atoms@;
        let text: &str = if self.is_html_dda(&ctx.rt.gc) {
            "undefined"
        } else if self.is_f64() || self.is_int() {
            "number"
        } else if self.as_bool().is_some() {
            "boolean"
        } else if self.is_undefined() {
            "undefined"
        } else if self.as_atom().is_some() {
            "string"
        } else {
            match self.heap_kind(&ctx.rt.gc) {
                Some(HeapKind::Function) | Some(HeapKind::Closure) | Some(
                    HeapKind::NativeFunction,
                ) | Some(HeapKind::NativeClosure) => "function",
                Some(HeapKind::Object) => {
                    let obj = Gc::<QObject> {
                        index: self.as_heap_ptr().unwrap(),
                        marker: core::marker::PhantomData,
                    };
                    if object_is_callable(ctx, &obj) {
                        "function"
                    } else {
                        "object"
                    }
                },
                _ => "object",
            }
        };
        let ghost t_mid = ctx.rt.atoms@;
        let r = intern_value(ctx, text);
        proof {
            crate::runtime::lemma_grow_trans(t0, t_mid, ctx.rt.atoms@);
            ctx.rt.atoms.lemma_wf_unique();
        }
        r
    }
}


/// What converting a value to a string gives: an atom value, or the bits of
/// a finite, nonzero double whose decimal form the caller renders.
#[derive(Clone, Copy, PartialEq, Eq, Structural, Debug)]
pub enum StringForm {
    Atom(Value),
    Double(u64),
}

/// The text that ToString interns for values that are neither strings nor
/// doubles in need of rendering.
pub open spec fn string_text(v: ValueView) -> Seq<char> {
    match v {
        ValueView::Null => "null"@,
        ValueView::Undefined | ValueView::Empty => "undefined"@,
        ValueView::Bool(b) => if b {
            "true"@
        } else {
            "false"@
        },
        ValueView::Int(i) => dec(i as int),
        ValueView::Number(b) => if is_nan_bits(b) {
            "NaN"@
        } else if is_infinite_bits(b) {
            if sign_negative(b) {
                "-Infinity"@
            } else {
                "Infinity"@
            }
        } else {
            "0"@
        },
        _ => "[object Object]"@,
    }
}

/// The double needs decimal rendering: it is finite and nonzero.
pub open spec fn needs_rendering(v: ValueView) -> bool {
    v matches ValueView::Number(b) && !is_nan_bits(b) && !is_infinite_bits(b) && !is_zero_bits(b)
}

/// What ToString gives for `v` with the heap `cells`, the atom table
/// going from `before` to `after`: a string cell gives the atom of its
/// text and an atom itself, with the table unchanged; a double in need of
/// rendering is handed back, with the table unchanged; any other value
/// gives an atom of its text (`string_text`), interned.
pub open spec fn to_string_post(
    cells: Seq<GcBox>,
    before: Seq<Option<EntryView>>,
    v: Value,
    r: StringForm,
    after: Seq<Option<EntryView>>,
) -> bool {
    if kind_in(cells, v@) == Some(HeapKind::String) {
        after == before && (r matches StringForm::Atom(x) && x@ == ValueView::Atom(
            cells[v@->Heap_0 as int].value->String_0.atom.0,
        ))
    } else if v@ is Atom {
        r == StringForm::Atom(v) && after == before
    } else if needs_rendering(v@) {
        r == StringForm::Double(v@->Number_0) && after == before
    } else {
        r matches StringForm::Atom(x) && x@ is Atom && intern_post(before, string_text(v@), after, Atom(x@->Atom_0))
    }
}

impl Value {
    /// ToString. String cells give the atom of their text and atoms are
    /// themselves; finite nonzero doubles are handed back for rendering;
    /// every other value gives its text, interned.
    pub fn to_string_with_context(&self, ctx: &mut Context) -> (r: StringForm)
        requires
            old(ctx).wf(),
            atom_room(&old(ctx).rt.atoms, 0),
        ensures
            final(ctx).wf(),
            final(ctx).cells() == old(ctx).cells(),
            final(ctx).same_frame(&*old(ctx)),
            to_string_post(old(ctx).cells(), old(ctx).rt.atoms@, *self, r, final(ctx).rt.atoms@),
    {
        if self.heap_kind(&ctx.rt.gc) == Some(HeapKind::String) {
            let s = Gc::<QString> { index: self.as_heap_ptr().unwrap(), marker: core::marker::PhantomData };
            return StringForm::Atom(Value::atom(s.borrow(&ctx.rt.gc).atom));
        }
        if self.as_atom().is_some() {
            return StringForm::Atom(*self);
        }
        if let Some(bits) = self.as_f64() {
            if !bits_is_nan(bits) && !bits_is_infinite(bits) && !bits_is_zero(bits) {
                return StringForm::Double(bits);
            }
        }
        let text: String = if self.is_null() {
            "null".to_string()
        } else if self.is_undefined() {
            "undefined".to_string()
        } else if let Some(b) = self.as_bool() {
            if b {
                "true".to_string()
            } else {
                "false".to_string()
            }
        } else if let Some(i) = self.as_i32() {
            let mut t = String::new();
            push_dec(&mut t, i as i64);
            proof {
                assert(t@ =~= dec(i as int));
            }
            t
        } else if let Some(bits) = self.as_f64() {
            if bits_is_nan(bits) {
                "NaN".to_string()
            } else if bits_is_infinite(bits) {
                if (bits >> 63) == 1 {
                    "-Infinity".to_string()
                } else {
                    "Infinity".to_string()
                }
            } else {
                "0".to_string()
            }
        } else {
            "[object Object]".to_string()
        };
        StringForm::Atom(intern_value(ctx, text.as_str()))
    }

    /// A new string object holding `s`.
    pub fn from_str_with_context(ctx: &mut Context, s: &str) -> (r: Value)
        requires
            old(ctx).wf(),
            room_for(&old(ctx).rt.gc, 1),
            atom_room(&old(ctx).rt.atoms, 0),
        ensures
            final(ctx).grew(&*old(ctx), 1),
            r@ == ValueView::Heap(old(ctx).cells().len() as u64),
            final(ctx).cell(old(ctx).cells().len() as u64) matches HeapObject::String(q)
                && intern_post(old(ctx).rt.atoms@, s@, final(ctx).rt.atoms@, q.atom),
    {
        let string = ctx.new_string(s);
        string.to_value(&ctx.rt.gc)
    }

    /// A new string object holding `s`.
    pub fn from_string_with_context(ctx: &mut Context, s: String) -> (r: Value)
        requires
            old(ctx).wf(),
            room_for(&old(ctx).rt.gc, 1),
            atom_room(&old(ctx).rt.atoms, 0),
        ensures
            final(ctx).grew(&*old(ctx), 1),
            r@ == ValueView::Heap(old(ctx).cells().len() as u64),
            final(ctx).cell(old(ctx).cells().len() as u64) matches HeapObject::String(q)
                && intern_post(old(ctx).rt.atoms@, s@, final(ctx).rt.atoms@, q.atom),
    {
        Value::from_str_with_context(ctx, s.as_str())
    }

    /// A new string object holding `s`.
    pub fn from_owned_string_with_context(ctx: &mut Context, s: String) -> (r: Value)
        requires
            old(ctx).wf(),
            room_for(&old(ctx).rt.gc, 1),
            atom_room(&old(ctx).rt.atoms, 0),
        ensures
            final(ctx).grew(&*old(ctx), 1),
            r@ == ValueView::Heap(old(ctx).cells().len() as u64),
            final(ctx).cell(old(ctx).cells().len() as u64) matches HeapObject::String(q)
                && intern_post(old(ctx).rt.atoms@, s@, final(ctx).rt.atoms@, q.atom),
    {
        Value::from_str_with_context(ctx, s.as_str())
    }
}

} // verus!
