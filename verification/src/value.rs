//! The NaN-boxed value representation.
//!
//! A value is a 64-bit word. Words whose bits contain the quiet-NaN prefix
//! `QNAN` are boxed: their low four bits are a tag and bits 4..48 a payload.
//! Every other word is the bit pattern of a double.

use vstd::prelude::*;
use crate::float_bits::CANONICAL_NAN_BITS;

verus! {

/// Quiet-NaN prefix that marks a boxed (non-float) value.
pub const QNAN: u64 = 0x7ffc_0000_0000_0000u64;
/// Mask of the four tag bits.
pub const TAG_MASK: u64 = 0xfu64;
/// Mask of the payload bits (bits 4..48).
pub const PAYLOAD_MASK: u64 = 0x0000_ffff_ffff_fff0u64;

pub const TAG_INT: u64 = 1u64;
pub const TAG_BOOL: u64 = 2u64;
pub const TAG_NULL: u64 = 3u64;
pub const TAG_UNDEF: u64 = 4u64;
pub const TAG_HEAP: u64 = 5u64;
pub const TAG_ATOM: u64 = 6u64;
pub const TAG_EMPTY: u64 = 7u64;

/// Largest heap handle that fits in the payload.
pub const MAX_HEAP_HANDLE: u64 = 0x0fff_ffff_ffffu64;

/// A NaN-boxed JavaScript value.
#[derive(Clone, Copy, PartialEq, Eq, Structural, Hash, Debug)]
pub struct Value(pub u64);

/// The abstract reading of a value word.
pub enum ValueView {
    /// An unboxed double, given by its bit pattern.
    Number(u64),
    Int(i32),
    Bool(bool),
    Null,
    Undefined,
    Empty,
    /// A reference to a heap cell, given by its handle.
    Heap(u64),
    Atom(u32),
    /// A boxed word with a tag that no constructor produces.
    Unknown,
}

pub open spec fn is_boxed(bits: u64) -> bool {
    bits & QNAN == QNAN
}

pub open spec fn tag_of(bits: u64) -> u64 {
    bits & TAG_MASK
}

pub open spec fn tagged_bits(tag: u64, payload: u64) -> u64 {
    QNAN | (payload & PAYLOAD_MASK) | tag
}

pub open spec fn view_of(bits: u64) -> ValueView {
    if !is_boxed(bits) {
        ValueView::Number(bits)
    } else if tag_of(bits) == TAG_INT {
        ValueView::Int((bits >> 4u64) as i32)
    } else if tag_of(bits) == TAG_BOOL {
        ValueView::Bool(((bits >> 4u64) & 1u64) != 0)
    } else if tag_of(bits) == TAG_NULL {
        ValueView::Null
    } else if tag_of(bits) == TAG_UNDEF {
        ValueView::Undefined
    } else if tag_of(bits) == TAG_EMPTY {
        ValueView::Empty
    } else if tag_of(bits) == TAG_HEAP {
        ValueView::Heap((bits & PAYLOAD_MASK) >> 4u64)
    } else if tag_of(bits) == TAG_ATOM {
        ValueView::Atom((bits >> 4u64) as u32)
    } else {
        ValueView::Unknown
    }
}

impl View for Value {
    type V = ValueView;

    open spec fn view(&self) -> ValueView {
        view_of(self.0)
    }
}

/// The word of the integer `v`.
pub open spec fn int_value(v: i32) -> Value {
    Value(tagged_bits(TAG_INT, ((v as u32) as u64) << 4u64))
}

/// The word of the boolean `v`.
pub open spec fn bool_value(v: bool) -> Value {
    Value(tagged_bits(TAG_BOOL, (if v { 1u64 } else { 0u64 }) << 4u64))
}

/// The word of the atom numbered `a`.
pub open spec fn atom_value(a: u32) -> Value {
    Value(tagged_bits(TAG_ATOM, (a as u64) << 4u64))
}

/// Undefined in the loose sense: the undefined value or the empty hole.
pub open spec fn spec_is_undefined(v: ValueView) -> bool {
    v is Undefined || v is Empty
}

pub open spec fn spec_is_nullish(v: ValueView) -> bool {
    v is Null || spec_is_undefined(v)
}

proof fn lemma_int_box(v: i32)
    ensures
        is_boxed(tagged_bits(TAG_INT, ((v as u32) as u64) << 4u64)),
        tag_of(tagged_bits(TAG_INT, ((v as u32) as u64) << 4u64)) == TAG_INT,
        (tagged_bits(TAG_INT, ((v as u32) as u64) << 4u64) >> 4u64) as i32 == v,
{
    assert((QNAN | ((((v as u32) as u64) << 4u64) & PAYLOAD_MASK) | 1u64) & QNAN == QNAN
        && (QNAN | ((((v as u32) as u64) << 4u64) & PAYLOAD_MASK) | 1u64) & TAG_MASK == 1u64
        && ((QNAN | ((((v as u32) as u64) << 4u64) & PAYLOAD_MASK) | 1u64) >> 4u64) as i32 == v)
        by (bit_vector);
}

proof fn lemma_tag_box(tag: u64, p: u64)
    requires
        2 <= tag <= 7,
        p <= MAX_HEAP_HANDLE,
    ensures
        is_boxed(tagged_bits(tag, p << 4u64)),
        tag_of(tagged_bits(tag, p << 4u64)) == tag,
        (tagged_bits(tag, p << 4u64) & PAYLOAD_MASK) >> 4u64 == p,
        p <= 1 ==> ((tagged_bits(tag, p << 4u64) >> 4u64) & 1u64) == p,
        ((tagged_bits(tag, p << 4u64) >> 4u64) as u32) == (p as u32),
{
    assert((QNAN | ((p << 4u64) & PAYLOAD_MASK) | tag) & QNAN == QNAN
        && (QNAN | ((p << 4u64) & PAYLOAD_MASK) | tag) & TAG_MASK == tag
        && ((QNAN | ((p << 4u64) & PAYLOAD_MASK) | tag) & PAYLOAD_MASK) >> 4u64 == p
        && (p <= 1u64 ==> (((QNAN | ((p << 4u64) & PAYLOAD_MASK) | tag) >> 4u64) & 1u64) == p)
        && (((QNAN | ((p << 4u64) & PAYLOAD_MASK) | tag) >> 4u64) as u32) == (p as u32))
        by (bit_vector)
        requires
            2u64 <= tag <= 7u64,
            p <= MAX_HEAP_HANDLE,
    ;
}

/// The boolean word reads as that boolean.
pub proof fn lemma_bool_value_view(v: bool)
    ensures
        bool_value(v)@ == ValueView::Bool(v),
{
    let p: u64 = if v { 1 } else { 0 };
    lemma_tag_box(TAG_BOOL, p);
}

/// An integer boxed into a value reads back as that integer.
pub proof fn law_int_roundtrip(v: i32)
    ensures
        int_value(v)@ == ValueView::Int(v),
{
    lemma_int_box(v);
}

proof fn lemma_zero_shift()
    ensures
        0u64 << 4u64 == 0u64,
{
    assert(0u64 << 4u64 == 0u64) by (bit_vector);
}

impl Value {
    /// The raw word.
    pub fn bits(self) -> (r: u64)
        ensures
            r == self.0,
    {
        self.0
    }

    fn is_tagged_int_bits(bits: u64) -> (r: bool)
        ensures
            r == (view_of(bits) is Int),
    {
        (bits & QNAN) == QNAN && (bits & TAG_MASK) == TAG_INT
    }

    fn tagged(tag: u64, payload: u64) -> (r: Self)
        ensures
            r.0 == tagged_bits(tag, payload),
    {
        Value(QNAN | (payload & PAYLOAD_MASK) | tag)
    }

    fn is_tagged(self) -> (r: bool)
        ensures
            r == is_boxed(self.0),
            r == !(self@ is Number),
    {
        (self.0 & QNAN) == QNAN
    }

    fn tag(self) -> (r: u64)
        ensures
            r == tag_of(self.0),
            r < 16,
    {
        let b = self.0;
        assert(b & TAG_MASK < 16) by (bit_vector);
        b & TAG_MASK
    }

    fn int_payload(bits: u64) -> (r: i32)
        ensures
            r == (bits >> 4u64) as i32,
            view_of(bits) is Int ==> view_of(bits) == ValueView::Int(r),
    {
        (bits >> 4) as i32
    }

    /// A reference to the heap cell with the given handle.
    pub(crate) fn heap(handle: u64) -> (r: Self)
        requires
            handle <= MAX_HEAP_HANDLE,
        ensures
            r@ == ValueView::Heap(handle),
    {
        proof {
            lemma_tag_box(TAG_HEAP, handle);
        }
        Self::tagged(TAG_HEAP, handle << 4)
    }

    /// The handle of the heap cell that the value refers to.
    pub(crate) fn as_heap_ptr(self) -> (r: Option<u64>)
        ensures
            match self@ {
                ValueView::Heap(h) => r == Some(h),
                _ => r is None,
            },
    {
        if !(self.is_tagged() && self.tag() == TAG_HEAP) {
            return None;
        }
        Some((self.0 & PAYLOAD_MASK) >> 4)
    }

    pub fn i32(v: i32) -> (r: Self)
        ensures
            r@ == ValueView::Int(v),
            r == int_value(v),
    {
        proof {
            lemma_int_box(v);
        }
        Self::tagged(TAG_INT, ((v as u32) as u64) << 4)
    }

    pub fn bool(v: bool) -> (r: Self)
        ensures
            r@ == ValueView::Bool(v),
            r == bool_value(v),
    {
        let p: u64 = if v { 1 } else { 0 };
        proof {
            lemma_tag_box(TAG_BOOL, p);
        }
        Self::tagged(TAG_BOOL, p << 4)
    }

    /// A number from the bit pattern of a double. Patterns that would read as
    /// boxed values are replaced by the canonical NaN.
    pub fn from_f64_bits(bits: u64) -> (r: Self)
        ensures
            r@ == ValueView::Number(if is_boxed(bits) { CANONICAL_NAN_BITS } else { bits }),
            r == Value(if is_boxed(bits) { CANONICAL_NAN_BITS } else { bits }),
    {
        if bits & QNAN == QNAN {
            proof {
                assert(CANONICAL_NAN_BITS & QNAN != QNAN) by (bit_vector);
            }
            Value(CANONICAL_NAN_BITS)
        } else {
            Value(bits)
        }
    }

    pub fn null() -> (r: Self)
        ensures
            r@ == ValueView::Null,
            r.0 == tagged_bits(TAG_NULL, 0),
    {
        proof {
            lemma_tag_box(TAG_NULL, 0);
            lemma_zero_shift();
        }
        Self::tagged(TAG_NULL, 0u64 << 4)
    }

    pub fn undefined() -> (r: Self)
        ensures
            r@ == ValueView::Undefined,
            r.0 == tagged_bits(TAG_UNDEF, 0),
    {
        proof {
            lemma_tag_box(TAG_UNDEF, 0);
            lemma_zero_shift();
        }
        Self::tagged(TAG_UNDEF, 0u64 << 4)
    }

    pub fn empty() -> (r: Self)
        ensures
            r@ == ValueView::Empty,
            r.0 == tagged_bits(TAG_EMPTY, 0),
    {
        proof {
            lemma_tag_box(TAG_EMPTY, 0);
            lemma_zero_shift();
        }
        Self::tagged(TAG_EMPTY, 0u64 << 4)
    }

    pub fn atom(atom: crate::atoms::Atom) -> (r: Self)
        ensures
            r@ == ValueView::Atom(atom.0),
            r == atom_value(atom.0),
    {
        proof {
            lemma_tag_box(TAG_ATOM, atom.0 as u64);
        }
        Self::tagged(TAG_ATOM, (atom.0 as u64) << 4)
    }

    pub fn as_i32(self) -> (r: Option<i32>)
        ensures
            match self@ {
                ValueView::Int(i) => r == Some(i),
                _ => r is None,
            },
    {
        if self.is_tagged() && self.tag() == TAG_INT {
            Some(Self::int_payload(self.0))
        } else {
            None
        }
    }

    pub fn as_bool(self) -> (r: Option<bool>)
        ensures
            match self@ {
                ValueView::Bool(b) => r == Some(b),
                _ => r is None,
            },
    {
        if self.is_tagged() && self.tag() == TAG_BOOL {
            Some(((self.0 >> 4) & 1) != 0)
        } else {
            None
        }
    }

    /// The bit pattern of the double, when the value is an unboxed number.
    pub fn as_f64(self) -> (r: Option<u64>)
        ensures
            match self@ {
                ValueView::Number(b) => r == Some(b),
                _ => r is None,
            },
    {
        if !self.is_tagged() {
            Some(self.0)
        } else {
            None
        }
    }

    pub fn is_int(self) -> (r: bool)
        ensures
            r == (self@ is Int),
    {
        self.is_tagged() && self.tag() == TAG_INT
    }

    /// The integer payload, read without checking the tag.
    pub fn int_payload_unchecked(self) -> (r: i32)
        ensures
            r == (self.0 >> 4u64) as i32,
            self@ is Int ==> self@ == ValueView::Int(r),
    {
        Self::int_payload(self.0)
    }

    pub fn is_f64(self) -> (r: bool)
        ensures
            r == (self@ is Number),
    {
        !self.is_tagged()
    }

    /// The bit pattern of the word read as a double, without checking.
    pub fn f64_payload_unchecked(self) -> (r: u64)
        ensures
            r == self.0,
    {
        self.0
    }

    pub fn as_atom(self) -> (r: Option<crate::atoms::Atom>)
        ensures
            match self@ {
                ValueView::Atom(a) => r == Some(crate::atoms::Atom(a)),
                _ => r is None,
            },
    {
        if self.is_tagged() && self.tag() == TAG_ATOM {
            Some(crate::atoms::Atom((self.0 >> 4) as u32))
        } else {
            None
        }
    }

    pub fn is_null(self) -> (r: bool)
        ensures
            r == (self@ is Null),
    {
        self.is_tagged() && self.tag() == TAG_NULL
    }

    /// True for the undefined value and for the empty hole.
    pub fn is_undefined(self) -> (r: bool)
        ensures
            r == spec_is_undefined(self@),
    {
        self.is_tagged() && (self.tag() == TAG_UNDEF || self.tag() == TAG_EMPTY)
    }

    pub fn is_empty(self) -> (r: bool)
        ensures
            r == (self@ is Empty),
    {
        self.is_tagged() && self.tag() == TAG_EMPTY
    }
}

/// The kind of a heap cell.
#[derive(Clone, Copy, PartialEq, Eq, Structural, Debug)]
pub enum HeapKind {
    Object,
    Array,
    BoolArray,
    Uint8Array,
    Int32Array,
    Float64Array,
    StringArray,
    String,
    Symbol,
    Function,
    Closure,
    NativeFunction,
    NativeClosure,
    Class,
    Module,
    Instance,
}

pub open spec fn heap_kind_name(k: HeapKind) -> &'static str {
    match k {
        HeapKind::Object => "object",
        HeapKind::Array => "array",
        HeapKind::BoolArray => "bool array",
        HeapKind::Uint8Array => "uint8 array",
        HeapKind::Int32Array => "int32 array",
        HeapKind::Float64Array => "float64 array",
        HeapKind::StringArray => "string array",
        HeapKind::String => "string object",
        HeapKind::Symbol => "symbol object",
        HeapKind::Function => "function",
        HeapKind::Closure => "closure",
        HeapKind::NativeFunction => "native function",
        HeapKind::NativeClosure => "native closure",
        HeapKind::Class => "class",
        HeapKind::Module => "module",
        HeapKind::Instance => "instance",
    }
}

impl HeapKind {
    pub fn type_label(self) -> (r: &'static str)
        ensures
            r == heap_kind_name(self),
    {
        match self {
            HeapKind::Object => "object",
            HeapKind::Array => "array",
            HeapKind::BoolArray => "bool array",
            HeapKind::Uint8Array => "uint8 array",
            HeapKind::Int32Array => "int32 array",
            HeapKind::Float64Array => "float64 array",
            HeapKind::StringArray => "string array",
            HeapKind::String => "string object",
            HeapKind::Symbol => "symbol object",
            HeapKind::Function => "function",
            HeapKind::Closure => "closure",
            HeapKind::NativeFunction => "native function",
            HeapKind::NativeClosure => "native closure",
            HeapKind::Class => "class",
            HeapKind::Module => "module",
            HeapKind::Instance => "instance",
        }
    }
}

} // verus!
