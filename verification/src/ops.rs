//! The operator families of the value layer: logical, bitwise, nullish,
//! conditional, property and type operators, and the integer fast paths of
//! the arithmetic operators.
use vstd::prelude::*;

use crate::gc::GC;
use crate::atoms::{intern_post, is_live, text_of, Atom, EntryView};
use crate::gc::{GcBox, Gc};
use crate::heap::QString;
use crate::js_value::{html_dda, kind_in, numeric_of, to_int32, to_string_post, truthy, Numeric, StringForm};
use crate::runtime::{atom_room, Context};
use crate::float_bits::CANONICAL_NAN_BITS;
use crate::value::{int_value, spec_is_nullish, spec_is_undefined, HeapKind, Value, ValueView, QNAN, TAG_ATOM, TAG_MASK};

verus! {

/// `&&`, `||` and `!`.
pub trait LogicalOps: Sized {
    fn logical_and(&self, rhs: &Self, heap: &GC) -> Self
        requires
            heap.wf(),
    ;

    fn logical_or(&self, rhs: &Self, heap: &GC) -> Self
        requires
            heap.wf(),
    ;

    fn logical_not(&self, heap: &GC) -> Self
        requires
            heap.wf(),
    ;
}

impl LogicalOps for Value {
    /// The right operand when the left is truthy, else the left.
    fn logical_and(&self, rhs: &Self, heap: &GC) -> (r: Self)
        ensures
            r == if truthy(heap.cells(), self@) {
                *rhs
            } else {
                *self
            },
    {
        if self.is_truthy(heap) {
            *rhs
        } else {
            *self
        }
    }

    /// The left operand when it is truthy, else the right.
    fn logical_or(&self, rhs: &Self, heap: &GC) -> (r: Self)
        ensures
            r == if truthy(heap.cells(), self@) {
                *self
            } else {
                *rhs
            },
    {
        if self.is_truthy(heap) {
            *self
        } else {
            *rhs
        }
    }

    fn logical_not(&self, heap: &GC) -> (r: Self)
        ensures
            r@ == ValueView::Bool(!truthy(heap.cells(), self@)),
    {
        Value::bool(!self.is_truthy(heap))
    }
}

/// The 32-bit integer operators: `&`, `|`, `^`, `~`, `<<`, `>>`, `>>>`.
pub trait BitwiseOps: Sized {
    fn bit_and(&self, rhs: &Self) -> Self;

    fn bit_or(&self, rhs: &Self) -> Self;

    fn bit_xor(&self, rhs: &Self) -> Self;

    fn bit_not(&self) -> Self;

    fn shl(&self, rhs: &Self) -> Self;

    fn shr(&self, rhs: &Self) -> Self;

    fn ushr(&self, rhs: &Self) -> Self;
}

/// The shift count: the low five bits of the right operand.
pub open spec fn shift_count(v: ValueView) -> u32 {
    (to_int32(v) as u32) & 31
}

impl BitwiseOps for Value {
    fn bit_and(&self, rhs: &Self) -> (r: Self)
        ensures
            r@ == ValueView::Int(to_int32(self@) & to_int32(rhs@)),
    {
        Value::i32(self.to_i32() & rhs.to_i32())
    }

    fn bit_or(&self, rhs: &Self) -> (r: Self)
        ensures
            r@ == ValueView::Int(to_int32(self@) | to_int32(rhs@)),
    {
        Value::i32(self.to_i32() | rhs.to_i32())
    }

    fn bit_xor(&self, rhs: &Self) -> (r: Self)
        ensures
            r@ == ValueView::Int(to_int32(self@) ^ to_int32(rhs@)),
    {
        Value::i32(self.to_i32() ^ rhs.to_i32())
    }

    fn bit_not(&self) -> (r: Self)
        ensures
            r@ == ValueView::Int(!to_int32(self@)),
    {
        Value::i32(!self.to_i32())
    }

    /// Left shift of the 32-bit pattern, wrapping.
    fn shl(&self, rhs: &Self) -> (r: Self)
        ensures
            r@ == ValueView::Int(((to_int32(self@) as u32) << shift_count(rhs@)) as i32),
    {
        let n: u32 = rhs.to_i32() as u32;
        let count: u32 = n & 31;
        assert(count < 32) by (bit_vector)
            requires
                count == n & 31,
        ;
        let a: u32 = self.to_i32() as u32;
        Value::i32((a << count) as i32)
    }

    /// Arithmetic right shift.
    fn shr(&self, rhs: &Self) -> (r: Self)
        ensures
            r@ == ValueView::Int(to_int32(self@) >> shift_count(rhs@)),
    {
        let n: u32 = rhs.to_i32() as u32;
        let count: u32 = n & 31;
        assert(count < 32) by (bit_vector)
            requires
                count == n & 31,
        ;
        Value::i32(self.to_i32() >> count)
    }

    /// Logical right shift of the 32-bit pattern.
    fn ushr(&self, rhs: &Self) -> (r: Self)
        ensures
            r@ == ValueView::Int(((to_int32(self@) as u32) >> shift_count(rhs@)) as i32),
    {
        let n: u32 = rhs.to_i32() as u32;
        let count: u32 = n & 31;
        assert(count < 32) by (bit_vector)
            requires
                count == n & 31,
        ;
        let a: u32 = self.to_i32() as u32;
        Value::i32((a >> count) as i32)
    }
}

/// `&&=` and `||=`.
pub trait LogicalAssignOps: Sized {
    fn and_assign(&mut self, rhs: Self, heap: &GC)
        requires
            heap.wf(),
    ;

    fn or_assign(&mut self, rhs: Self, heap: &GC)
        requires
            heap.wf(),
    ;
}

impl LogicalAssignOps for Value {
    fn and_assign(&mut self, rhs: Self, heap: &GC)
        ensures
            *final(self) == if truthy(heap.cells(), old(self)@) {
                rhs
            } else {
                *old(self)
            },
    {
        if self.is_truthy(heap) {
            *self = rhs;
        }
    }

    fn or_assign(&mut self, rhs: Self, heap: &GC)
        ensures
            *final(self) == if truthy(heap.cells(), old(self)@) {
                *old(self)
            } else {
                rhs
            },
    {
        if !self.is_truthy(heap) {
            *self = rhs;
        }
    }
}

/// `??` and `??=`.
pub trait NullishOps: Sized {
    fn nullish_coalesce(&self, rhs: &Self) -> Self;

    fn nullish_assign(&mut self, rhs: Self);
}

impl NullishOps for Value {
    /// The right operand when the left is null, undefined or empty.
    fn nullish_coalesce(&self, rhs: &Self) -> (r: Self)
        ensures
            r == if spec_is_nullish(self@) {
                *rhs
            } else {
                *self
            },
    {
        if self.is_null() || self.is_undefined() {
            *rhs
        } else {
            *self
        }
    }

    fn nullish_assign(&mut self, rhs: Self)
        ensures
            *final(self) == if spec_is_nullish(old(self)@) {
                rhs
            } else {
                *old(self)
            },
    {
        if self.is_null() || self.is_undefined() {
            *self = rhs;
        }
    }
}

/// `cond ? a : b`.
pub trait Ternary: Sized {
    fn ternary(cond: &Self, a: &Self, b: &Self, heap: &GC) -> Self
        requires
            heap.wf(),
    ;
}

impl Ternary for Value {
    fn ternary(cond: &Self, a: &Self, b: &Self, heap: &GC) -> (r: Self)
        ensures
            r == if truthy(heap.cells(), cond@) {
                *a
            } else {
                *b
            },
    {
        if cond.is_truthy(heap) {
            *a
        } else {
            *b
        }
    }
}

/// Property access on plain values, which carry no properties.
pub trait PropertyOps: Sized {
    fn get(&self, key: &Self) -> Self;

    fn set(&mut self, key: Self, value: Self);

    fn has(&self, key: &Self) -> Self;

    fn delete_property(&mut self, key: &Self) -> Self;
}

impl PropertyOps for Value {
    fn get(&self, _key: &Self) -> (r: Self)
        ensures
            r@ == ValueView::Undefined,
    {
        Value::undefined()
    }

    fn set(&mut self, _key: Self, _value: Self)
        ensures
            *final(self) == *old(self),
    {
    }

    fn has(&self, _key: &Self) -> (r: Self)
        ensures
            r@ == ValueView::Bool(false),
    {
        Value::bool(false)
    }

    fn delete_property(&mut self, _key: &Self) -> (r: Self)
        ensures
            r@ == ValueView::Bool(true),
            *final(self) == *old(self),
    {
        Value::bool(true)
    }
}

/// `typeof`, `instanceof`, `in` and `delete`.
pub trait TypeOps: Sized {
    fn typeof_(&self, ctx: &mut Context) -> Self
        requires
            old(ctx).wf(),
            atom_room(&old(ctx).rt.atoms, 4),
    ;

    fn instanceof(&self, rhs: &Self) -> Self;

    fn in_(&self, rhs: &Self) -> Self;

    fn delete(&self) -> Self;
}

impl TypeOps for Value {
    /// The type text of the value, interned (see `typeof_with_context`).
    fn typeof_(&self, ctx: &mut Context) -> (r: Self)
        ensures
            final(ctx).wf(),
            final(ctx).cells() == old(ctx).cells(),
            r@ is Atom,
            crate::atoms::text_of(final(ctx).rt.atoms@, crate::atoms::Atom(r@->Atom_0))
                == crate::js_value::typeof_text(old(ctx).cells(), final(ctx).rt.atoms@, self@),
    {
        self.typeof_with_context(ctx)
    }

    fn instanceof(&self, _rhs: &Self) -> (r: Self)
        ensures
            r@ == ValueView::Bool(false),
    {
        Value::bool(false)
    }

    fn in_(&self, _rhs: &Self) -> (r: Self)
        ensures
            r@ == ValueView::Bool(false),
    {
        Value::bool(false)
    }

    fn delete(&self) -> (r: Self)
        ensures
            r@ == ValueView::Bool(true),
    {
        Value::bool(true)
    }
}

// ---------------------------------------------------------------------------
// Arithmetic: exact integer results, or the two numbers that the double
// operation takes.
// ---------------------------------------------------------------------------
/// An arithmetic result: a value computed exactly, or the operands of the
/// double operation that gives it.
#[derive(Clone, Copy, PartialEq, Eq, Structural, Debug)]
pub enum NumericPlan {
    Exact(Value),
    Double(Numeric, Numeric),
}

/// Both operands are integers.
pub open spec fn both_ints(a: ValueView, b: ValueView) -> bool {
    a is Int && b is Int
}

/// The plan of an operator whose integer fast path gives `f(x, y)` when it
/// fits in 32 bits.
pub open spec fn int_or_double(a: ValueView, b: ValueView, exact: int) -> bool {
    both_ints(a, b) && i32::MIN <= exact <= i32::MAX
}

/// The remainder with the sign of the dividend, as Rust's `%` on integers.
pub open spec fn trunc_rem(x: int, y: int) -> int {
    let m = if y < 0 { -y } else { y };
    if x >= 0 { x % m } else { -((-x) % m) }
}

/// Plain addition of numbers: integers add exactly when the sum fits;
/// otherwise the doubles of both operands are added.
pub fn add_numbers(lhs: &Value, rhs: &Value) -> (r: NumericPlan)
    ensures
        r == add_numbers_spec(lhs@, rhs@),
{
    if let (Some(a), Some(b)) = (lhs.as_i32(), rhs.as_i32()) {
        if let Some(sum) = a.checked_add(b) {
            return NumericPlan::Exact(Value::i32(sum));
        }
    }
    NumericPlan::Double(lhs.to_numeric(), rhs.to_numeric())
}

/// `-`: integers subtract exactly when the difference fits.
pub fn sub_numbers(lhs: &Value, rhs: &Value) -> (r: NumericPlan)
    ensures
        r == sub_numbers_spec(lhs@, rhs@),
{
    if let (Some(a), Some(b)) = (lhs.as_i32(), rhs.as_i32()) {
        if let Some(d) = a.checked_sub(b) {
            return NumericPlan::Exact(Value::i32(d));
        }
    }
    NumericPlan::Double(lhs.to_numeric(), rhs.to_numeric())
}

/// `*`: integers multiply exactly when the product fits.
pub fn mul_numbers(lhs: &Value, rhs: &Value) -> (r: NumericPlan)
    ensures
        r == mul_numbers_spec(lhs@, rhs@),
{
    if let (Some(a), Some(b)) = (lhs.as_i32(), rhs.as_i32()) {
        if let Some(p) = a.checked_mul(b) {
            return NumericPlan::Exact(Value::i32(p));
        }
    }
    NumericPlan::Double(lhs.to_numeric(), rhs.to_numeric())
}

/// `/`: always a double division.
pub fn div_numbers(lhs: &Value, rhs: &Value) -> (r: NumericPlan)
    ensures
        r == NumericPlan::Double(numeric_of(lhs@), numeric_of(rhs@)),
{
    NumericPlan::Double(lhs.to_numeric(), rhs.to_numeric())
}

/// `%`: integers give NaN for a zero divisor and the truncated remainder
/// when it fits; otherwise the double remainder.
pub fn rem_numbers(lhs: &Value, rhs: &Value) -> (r: NumericPlan)
    ensures
        r == rem_numbers_spec(lhs@, rhs@),
{
    if let (Some(a), Some(b)) = (lhs.as_i32(), rhs.as_i32()) {
        if b == 0 {
            return NumericPlan::Exact(Value::from_f64_bits(CANONICAL_NAN_BITS));
        }
        if !(a == i32::MIN && b == -1) {
            let m: i64 = if b < 0 { -(b as i64) } else { b as i64 };
            let q: i64 = if a >= 0 { (a as i64) % m } else { -((-(a as i64)) % m) };
            return NumericPlan::Exact(Value::i32(q as i32));
        }
    }
    NumericPlan::Double(lhs.to_numeric(), rhs.to_numeric())
}

/// What `+` does: add numbers, or concatenate the string forms of both
/// operands.
#[derive(Clone, Copy, PartialEq, Eq, Structural, Debug)]
pub enum AddPlan {
    Numbers(NumericPlan),
    Joined(Value),
    Concat(StringForm, StringForm),
}

/// How `+` finishes once both operands have their string forms `a` and `b`
/// in the table `t`: two live atoms give the atom of their texts joined,
/// left first, interned (`Joined`); otherwise the forms are handed back
/// for rendering (`Concat`) and the table is unchanged.
pub open spec fn joined_post(
    t: Seq<Option<EntryView>>,
    a: StringForm,
    b: StringForm,
    r: AddPlan,
    after: Seq<Option<EntryView>>,
) -> bool {
    match (a, b) {
        (StringForm::Atom(x), StringForm::Atom(y)) if x@ is Atom && y@ is Atom && is_live(
            t,
            Atom(x@->Atom_0),
        ) && is_live(t, Atom(y@->Atom_0)) => r matches AddPlan::Joined(v) && v@ is Atom
            && intern_post(
            t,
            text_of(t, Atom(x@->Atom_0)) + text_of(t, Atom(y@->Atom_0)),
            after,
            Atom(v@->Atom_0),
        ),
        _ => r == AddPlan::Concat(a, b) && after == t,
    }
}

/// The value is a string: an atom or a string cell.
pub open spec fn is_string_value(cells: Seq<GcBox>, v: ValueView) -> bool {
    v is Atom || kind_in(cells, v) == Some(HeapKind::String)
}

impl Value {
    /// `+`: numbers add (see `add_numbers`) unless an operand is a string,
    /// in which case both operands are converted to strings, left first.
    pub fn add_with_context(ctx: &mut Context, lhs: &Value, rhs: &Value) -> (r: AddPlan)
        requires
            old(ctx).wf(),
            atom_room(&old(ctx).rt.atoms, 3),
        ensures
            final(ctx).wf(),
            final(ctx).cells() == old(ctx).cells(),
            final(ctx).same_frame(&*old(ctx)),
            (lhs@ is Number && rhs@ is Number) || both_ints(lhs@, rhs@) || !(is_string_value(
                old(ctx).cells(),
                lhs@,
            ) || is_string_value(old(ctx).cells(), rhs@)) ==> r == AddPlan::Numbers(
                add_numbers_spec(lhs@, rhs@),
            ) && final(ctx).rt.atoms@ == old(ctx).rt.atoms@,
            !((lhs@ is Number && rhs@ is Number) || both_ints(lhs@, rhs@)) && (is_string_value(
                old(ctx).cells(),
                lhs@,
            ) || is_string_value(old(ctx).cells(), rhs@)) ==> exists|
                a: StringForm,
                b: StringForm,
                mid: Seq<Option<EntryView>>,
                mid2: Seq<Option<EntryView>>,
            |
                #[trigger] to_string_post(old(ctx).cells(), old(ctx).rt.atoms@, *lhs, a, mid)
                    && #[trigger] to_string_post(old(ctx).cells(), mid, *rhs, b, mid2)
                    && joined_post(mid2, a, b, r, final(ctx).rt.atoms@),
            final(ctx).rt.atoms@.len() <= old(ctx).rt.atoms@.len() + 3,
    {
        if (lhs.is_f64() && rhs.is_f64()) || (lhs.is_int() && rhs.is_int()) {
            return AddPlan::Numbers(add_numbers(lhs, rhs));
        }
        let lhs_is_string = lhs.as_atom().is_some() || lhs.heap_kind(&ctx.rt.gc) == Some(
            HeapKind::String,
        );
        let rhs_is_string = rhs.as_atom().is_some() || rhs.heap_kind(&ctx.rt.gc) == Some(
            HeapKind::String,
        );
        if lhs_is_string || rhs_is_string {
            let a = lhs.to_string_with_context(ctx);
            let ghost mid = ctx.rt.atoms@;
            let b = rhs.to_string_with_context(ctx);
            let ghost mid2 = ctx.rt.atoms@;
            proof {
                assert(to_string_post(old(ctx).cells(), old(ctx).rt.atoms@, *lhs, a, mid));
                assert(to_string_post(old(ctx).cells(), mid, *rhs, b, mid2));
            }
            if let (StringForm::Atom(x), StringForm::Atom(y)) = (a, b) {
                if let (Some(p), Some(q)) = (x.as_atom(), y.as_atom()) {
                    if ctx.rt.atoms.has_atom(p) && ctx.rt.atoms.has_atom(q) {
                        let joined = ctx.concat_atoms(p, q);
                        return AddPlan::Joined(Value::atom(joined));
                    }
                }
            }
            return AddPlan::Concat(a, b);
        }
        AddPlan::Numbers(add_numbers(lhs, rhs))
    }

    /// `-`: integers subtract exactly when the difference fits.
    pub fn sub_with_context(_ctx: &Context, lhs: &Value, rhs: &Value) -> (r: NumericPlan)
        ensures
            r == sub_numbers_spec(lhs@, rhs@),
    {
        sub_numbers(lhs, rhs)
    }

    /// `*`: integers multiply exactly when the product fits.
    pub fn mul_with_context(_ctx: &Context, lhs: &Value, rhs: &Value) -> (r: NumericPlan)
        ensures
            r == mul_numbers_spec(lhs@, rhs@),
    {
        mul_numbers(lhs, rhs)
    }

    /// `/`: always a double division.
    pub fn div_with_context(_ctx: &Context, lhs: &Value, rhs: &Value) -> (r: NumericPlan)
        ensures
            r == NumericPlan::Double(numeric_of(lhs@), numeric_of(rhs@)),
    {
        div_numbers(lhs, rhs)
    }

    /// `%`: integers give NaN for a zero divisor and the truncated remainder
    /// when it fits; otherwise the double remainder.
    pub fn rem_with_context(_ctx: &Context, lhs: &Value, rhs: &Value) -> (r: NumericPlan)
        ensures
            r == rem_numbers_spec(lhs@, rhs@),
    {
        rem_numbers(lhs, rhs)
    }

    /// `**`: always on the doubles of both operands.
    pub fn pow_with_context(_ctx: &Context, lhs: &Value, rhs: &Value) -> (r: (Numeric, Numeric))
        ensures
            r == (numeric_of(lhs@), numeric_of(rhs@)),
    {
        (lhs.to_numeric(), rhs.to_numeric())
    }

    /// `>`: compares the doubles of both operands.
    pub fn gt_with_context(_ctx: &Context, lhs: &Value, rhs: &Value) -> (r: (Numeric, Numeric))
        ensures
            r == (numeric_of(lhs@), numeric_of(rhs@)),
    {
        (lhs.to_numeric(), rhs.to_numeric())
    }

    /// `<`: compares the doubles of both operands.
    pub fn lt_with_context(_ctx: &Context, lhs: &Value, rhs: &Value) -> (r: (Numeric, Numeric))
        ensures
            r == (numeric_of(lhs@), numeric_of(rhs@)),
    {
        (lhs.to_numeric(), rhs.to_numeric())
    }

    /// `>=`: compares the doubles of both operands.
    pub fn ge_with_context(_ctx: &Context, lhs: &Value, rhs: &Value) -> (r: (Numeric, Numeric))
        ensures
            r == (numeric_of(lhs@), numeric_of(rhs@)),
    {
        (lhs.to_numeric(), rhs.to_numeric())
    }

    /// `<=`: compares the doubles of both operands.
    pub fn le_with_context(_ctx: &Context, lhs: &Value, rhs: &Value) -> (r: (Numeric, Numeric))
        ensures
            r == (numeric_of(lhs@), numeric_of(rhs@)),
    {
        (lhs.to_numeric(), rhs.to_numeric())
    }
}

/// The plain addition of numbers.
pub open spec fn add_numbers_spec(a: ValueView, b: ValueView) -> NumericPlan {
    if int_or_double(a, b, a->Int_0 + b->Int_0) {
        NumericPlan::Exact(int_value((a->Int_0 + b->Int_0) as i32))
    } else {
        NumericPlan::Double(numeric_of(a), numeric_of(b))
    }
}

/// What an equality test comes to: a known answer, a comparison of two
/// doubles (false when either is NaN), or a comparison of a string's
/// numeric reading with a double.
#[derive(Clone, Copy, PartialEq, Eq, Structural, Debug)]
pub enum EqPlan {
    Known(bool),
    Doubles(Numeric, Numeric),
    TextAndNumber(Atom, Numeric),
}

/// What `==` decides without the context: identical bits are equal; null
/// and undefined equal each other and nothing else; a comparison that
/// involves an atom (read from the tag bits) needs the context (`None`);
/// everything else compares numeric readings.
pub open spec fn quick_eq_plan(a: Value, b: Value) -> Option<EqPlan> {
    if a.0 == b.0 {
        Some(EqPlan::Known(true))
    } else if (a@ is Null && spec_is_undefined(b@)) || (spec_is_undefined(a@) && b@ is Null) {
        Some(EqPlan::Known(true))
    } else if spec_is_nullish(a@) || spec_is_nullish(b@) {
        Some(EqPlan::Known(false))
    } else if (a.0 & QNAN) == QNAN && ((a.0 & TAG_MASK) == TAG_ATOM || (b.0 & TAG_MASK) == TAG_ATOM) {
        None
    } else {
        Some(EqPlan::Doubles(numeric_of(a@), numeric_of(b@)))
    }
}

impl Value {
    /// `==` as far as it can be decided without the context; `None` when
    /// the comparison needs it (see `eq_with_context`).
    pub fn eq_without_context(lhs: &Value, rhs: &Value) -> (r: Option<EqPlan>)
        ensures
            r == quick_eq_plan(*lhs, *rhs),
    {
        if lhs.0 == rhs.0 {
            return Some(EqPlan::Known(true));
        }
        if (lhs.is_null() && rhs.is_undefined()) || (lhs.is_undefined() && rhs.is_null()) {
            return Some(EqPlan::Known(true));
        }
        if lhs.is_null() || lhs.is_undefined() || rhs.is_null() || rhs.is_undefined() {
            return Some(EqPlan::Known(false));
        }
        let a = lhs.0;
        let b = rhs.0;
        if (a & QNAN) == QNAN && ((a & TAG_MASK) == TAG_ATOM || (b & TAG_MASK) == TAG_ATOM) {
            return None;
        }
        Some(EqPlan::Doubles(lhs.to_numeric(), rhs.to_numeric()))
    }
}

/// The plain subtraction of numbers.
pub open spec fn sub_numbers_spec(a: ValueView, b: ValueView) -> NumericPlan {
    if int_or_double(a, b, a->Int_0 - b->Int_0) {
        NumericPlan::Exact(int_value((a->Int_0 - b->Int_0) as i32))
    } else {
        NumericPlan::Double(numeric_of(a), numeric_of(b))
    }
}

/// The plain multiplication of numbers.
pub open spec fn mul_numbers_spec(a: ValueView, b: ValueView) -> NumericPlan {
    if int_or_double(a, b, a->Int_0 * b->Int_0) {
        NumericPlan::Exact(int_value((a->Int_0 * b->Int_0) as i32))
    } else {
        NumericPlan::Double(numeric_of(a), numeric_of(b))
    }
}

/// The remainder of numbers: NaN for an integer zero divisor, the
/// truncated integer remainder when it fits, else on doubles.
pub open spec fn rem_numbers_spec(a: ValueView, b: ValueView) -> NumericPlan {
    if both_ints(a, b) && b->Int_0 == 0 {
        NumericPlan::Exact(Value(CANONICAL_NAN_BITS))
    } else if both_ints(a, b) && !(a->Int_0 == i32::MIN && b->Int_0 == -1) {
        NumericPlan::Exact(int_value(trunc_rem(a->Int_0 as int, b->Int_0 as int) as i32))
    } else {
        NumericPlan::Double(numeric_of(a), numeric_of(b))
    }
}

/// The atom of a string value: an atom, or the atom of a string cell.
pub open spec fn string_atom(cells: Seq<GcBox>, v: ValueView) -> Option<u32> {
    match v {
        ValueView::Atom(a) => Some(a),
        ValueView::Heap(h) => if kind_in(cells, v) == Some(HeapKind::String) {
            Some(cells[h as int].value->String_0.atom.0)
        } else {
            None
        },
        _ => None,
    }
}

/// Int or double.
pub open spec fn is_num(v: ValueView) -> bool {
    v is Int || v is Number
}

/// What `===` decides without comparing doubles.
pub open spec fn strict_eq_plan(cells: Seq<GcBox>, a: Value, b: Value) -> EqPlan {
    if a == b {
        EqPlan::Known(true)
    } else if is_num(a@) && is_num(b@) {
        EqPlan::Doubles(numeric_of(a@), numeric_of(b@))
    } else if is_num(a@) || is_num(b@) {
        EqPlan::Known(false)
    } else if a@ is Bool && b@ is Bool {
        EqPlan::Known(a@->Bool_0 == b@->Bool_0)
    } else if a@ is Null || b@ is Null || spec_is_undefined(a@) || spec_is_undefined(b@) {
        EqPlan::Known((a@ is Null && b@ is Null) || (spec_is_undefined(a@) && spec_is_undefined(b@)))
    } else if string_atom(cells, a@) is Some || string_atom(cells, b@) is Some {
        EqPlan::Known(string_atom(cells, a@) == string_atom(cells, b@))
    } else {
        EqPlan::Known(false)
    }
}

fn string_atom_of(v: &Value, heap: &GC) -> (r: Option<u32>)
    requires
        heap.wf(),
    ensures
        r == string_atom(heap.cells(), v@),
{
    if let Some(a) = v.as_atom() {
        return Some(a.0);
    }
    if v.heap_kind(heap) == Some(HeapKind::String) {
        let s = Gc::<QString> { index: v.as_heap_ptr().unwrap(), marker: core::marker::PhantomData };
        return Some(s.borrow(heap).atom.0);
    }
    None
}

impl Value {
    /// `===`: identical words are equal; numbers compare as doubles; a
    /// number never equals a non-number; booleans compare by value; null and
    /// undefined equal only themselves; strings compare by atom.
    pub fn strict_eq_with_context(ctx: &Context, lhs: &Value, rhs: &Value) -> (r: EqPlan)
        requires
            ctx.wf(),
        ensures
            r == strict_eq_plan(ctx.cells(), *lhs, *rhs),
    {
        if lhs.0 == rhs.0 {
            return EqPlan::Known(true);
        }
        let lhs_num = lhs.is_int() || lhs.is_f64();
        let rhs_num = rhs.is_int() || rhs.is_f64();
        if lhs_num || rhs_num {
            if lhs_num && rhs_num {
                return EqPlan::Doubles(lhs.to_numeric(), rhs.to_numeric());
            }
            return EqPlan::Known(false);
        }
        if let (Some(a), Some(b)) = (lhs.as_bool(), rhs.as_bool()) {
            return EqPlan::Known(a == b);
        }
        if lhs.is_null() || rhs.is_null() || lhs.is_undefined() || rhs.is_undefined() {
            return EqPlan::Known(
                (lhs.is_null() && rhs.is_null()) || (lhs.is_undefined() && rhs.is_undefined()),
            );
        }
        let la = string_atom_of(lhs, &ctx.rt.gc);
        let ra = string_atom_of(rhs, &ctx.rt.gc);
        if la.is_some() || ra.is_some() {
            return EqPlan::Known(la == ra);
        }
        EqPlan::Known(false)
    }

    /// `==`: identical words are equal; `document.all`-like objects equal
    /// null and undefined; null and undefined equal each other and nothing
    /// else; two strings compare by text; a string and another value compare
    /// through the string's numeric reading; everything else compares as
    /// doubles.
    pub fn eq_with_context(ctx: &Context, lhs: &Value, rhs: &Value) -> (r: EqPlan)
        requires
            ctx.wf(),
            lhs@ is Atom ==> is_live(ctx.rt.atoms@, Atom(lhs@->Atom_0)),
            rhs@ is Atom ==> is_live(ctx.rt.atoms@, Atom(rhs@->Atom_0)),
        ensures
            r == eq_plan(ctx.cells(), ctx.rt.atoms@, *lhs, *rhs),
    {
        let heap = &ctx.rt.gc;
        if lhs.0 == rhs.0 {
            return EqPlan::Known(true);
        }
        if (lhs.is_html_dda(heap) && (rhs.is_null() || rhs.is_undefined())) || (rhs.is_html_dda(
            heap,
        ) && (lhs.is_null() || lhs.is_undefined())) {
            return EqPlan::Known(true);
        }
        if (lhs.is_null() && rhs.is_undefined()) || (lhs.is_undefined() && rhs.is_null()) {
            return EqPlan::Known(true);
        }
        if lhs.is_null() || lhs.is_undefined() || rhs.is_null() || rhs.is_undefined() {
            return EqPlan::Known(false);
        }
        if let (Some(a), Some(b)) = (lhs.as_atom(), rhs.as_atom()) {
            proof {
                ctx.rt.atoms.lemma_wf_unique();
                if a.0 != b.0 {
                    assert(ctx.rt.atoms@[a.0 as int]->Some_0.text != ctx.rt.atoms@[b.0 as int]->Some_0.text);
                }
            }
            // Live atoms have distinct texts, so two texts are equal exactly
            // when the atoms are.
            return EqPlan::Known(a.0 == b.0);
        }
        if let Some(a) = lhs.as_atom() {
            return EqPlan::TextAndNumber(a, rhs.to_numeric());
        }
        if let Some(b) = rhs.as_atom() {
            return EqPlan::TextAndNumber(b, lhs.to_numeric());
        }
        EqPlan::Doubles(lhs.to_numeric(), rhs.to_numeric())
    }
}

/// What `==` decides without reading numbers from text or comparing
/// doubles.
pub open spec fn eq_plan(
    cells: Seq<GcBox>,
    t: Seq<Option<EntryView>>,
    a: Value,
    b: Value,
) -> EqPlan {
    if a == b {
        EqPlan::Known(true)
    } else if (html_dda(cells, a@) && spec_is_nullish(b@)) || (html_dda(cells, b@)
        && spec_is_nullish(a@)) {
        EqPlan::Known(true)
    } else if (a@ is Null && spec_is_undefined(b@)) || (spec_is_undefined(a@) && b@ is Null) {
        EqPlan::Known(true)
    } else if spec_is_nullish(a@) || spec_is_nullish(b@) {
        EqPlan::Known(false)
    } else if a@ is Atom && b@ is Atom {
        EqPlan::Known(text_of(t, Atom(a@->Atom_0)) == text_of(t, Atom(b@->Atom_0)))
    } else if a@ is Atom {
        EqPlan::TextAndNumber(Atom(a@->Atom_0), numeric_of(b@))
    } else if b@ is Atom {
        EqPlan::TextAndNumber(Atom(b@->Atom_0), numeric_of(a@))
    } else {
        EqPlan::Doubles(numeric_of(a@), numeric_of(b@))
    }
}

/// The same plan with the two operands exchanged.
pub open spec fn swapped(p: EqPlan) -> EqPlan {
    match p {
        EqPlan::Doubles(x, y) => EqPlan::Doubles(y, x),
        _ => p,
    }
}

/// `===` holds of a value and itself.
pub proof fn law_strict_eq_reflexive(cells: Seq<GcBox>, a: Value)
    ensures
        strict_eq_plan(cells, a, a) == EqPlan::Known(true),
{
}

/// `===` does not depend on the order of its operands.
pub proof fn law_strict_eq_symmetric(cells: Seq<GcBox>, a: Value, b: Value)
    ensures
        strict_eq_plan(cells, b, a) == swapped(strict_eq_plan(cells, a, b)),
{
}

/// `==` holds of a value and itself.
pub proof fn law_eq_reflexive(cells: Seq<GcBox>, t: Seq<Option<EntryView>>, a: Value)
    ensures
        eq_plan(cells, t, a, a) == EqPlan::Known(true),
{
}

/// `==` does not depend on the order of its operands.
pub proof fn law_eq_symmetric(cells: Seq<GcBox>, t: Seq<Option<EntryView>>, a: Value, b: Value)
    ensures
        eq_plan(cells, t, b, a) == swapped(eq_plan(cells, t, a, b)),
{
}

/// `===` on two booleans is decided on the spot, and says whether they are
/// the same boolean: `true === false` is false.
pub proof fn law_strict_eq_booleans(cells: Seq<GcBox>, a: Value, b: Value, x: bool, y: bool)
    requires
        a@ == ValueView::Bool(x),
        b@ == ValueView::Bool(y),
    ensures
        strict_eq_plan(cells, a, b) == EqPlan::Known(x == y),
{
}

/// `+` on numbers adds the left operand to the right one: an exact result
/// is the integer sum, and a plan on doubles carries the left operand's
/// number first and the right operand's second.
pub proof fn law_add_numbers_operands(a: ValueView, b: ValueView)
    ensures
        add_numbers_spec(a, b) matches NumericPlan::Double(x, y) ==> x == numeric_of(a) && y
            == numeric_of(b),
        add_numbers_spec(a, b) matches NumericPlan::Exact(v) ==> a is Int && b is Int && v@
            == ValueView::Int((a->Int_0 + b->Int_0) as i32) && i32::MIN <= a->Int_0 + b->Int_0
            <= i32::MAX,
{
    if int_or_double(a, b, a->Int_0 + b->Int_0) {
        crate::value::law_int_roundtrip((a->Int_0 + b->Int_0) as i32);
    }
}

/// `+` on numbers is commutative: swapping the operands gives the same
/// exact result, or the same doubles swapped.
pub proof fn law_add_numbers_commutes(a: ValueView, b: ValueView)
    ensures
        add_numbers_spec(a, b) matches NumericPlan::Exact(v) ==> add_numbers_spec(b, a)
            == NumericPlan::Exact(v),
        add_numbers_spec(a, b) matches NumericPlan::Double(x, y) ==> add_numbers_spec(b, a)
            == NumericPlan::Double(y, x),
{
}

/// `-`, `*` and `%` on numbers take the left operand first: a plan on
/// doubles carries the left operand's number and then the right one's, and
/// an exact integer result is the difference, the product, or a remainder.
pub proof fn law_arith_operand_order(a: ValueView, b: ValueView)
    ensures
        sub_numbers_spec(a, b) matches NumericPlan::Double(x, y) ==> x == numeric_of(a) && y
            == numeric_of(b),
        mul_numbers_spec(a, b) matches NumericPlan::Double(x, y) ==> x == numeric_of(a) && y
            == numeric_of(b),
        rem_numbers_spec(a, b) matches NumericPlan::Double(x, y) ==> x == numeric_of(a) && y
            == numeric_of(b),
        sub_numbers_spec(a, b) matches NumericPlan::Exact(v) ==> a is Int && b is Int && v@
            == ValueView::Int((a->Int_0 - b->Int_0) as i32) && i32::MIN <= a->Int_0 - b->Int_0
            <= i32::MAX,
        mul_numbers_spec(a, b) matches NumericPlan::Exact(v) ==> a is Int && b is Int && v@
            == ValueView::Int((a->Int_0 * b->Int_0) as i32) && i32::MIN <= a->Int_0 * b->Int_0
            <= i32::MAX,
{
    if int_or_double(a, b, a->Int_0 - b->Int_0) {
        crate::value::law_int_roundtrip((a->Int_0 - b->Int_0) as i32);
    }
    if int_or_double(a, b, a->Int_0 * b->Int_0) {
        crate::value::law_int_roundtrip((a->Int_0 * b->Int_0) as i32);
    }
}

/// The integer remainder `x % y` (y nonzero) is smaller than the divisor
/// in size, has the sign of the dividend, and differs from the dividend by
/// a multiple of the divisor.
pub proof fn law_trunc_rem(x: int, y: int)
    requires
        y != 0,
    ensures
        (if y < 0 { -y } else { y }) > (if trunc_rem(x, y) < 0 { -trunc_rem(x, y) } else { trunc_rem(x, y) }),
        x >= 0 ==> trunc_rem(x, y) >= 0,
        x < 0 ==> trunc_rem(x, y) <= 0,
        (x - trunc_rem(x, y)) % y == 0,
{
    let m = if y < 0 { -y } else { y };
    if x >= 0 {
        assert((x - x % m) % m == 0) by (nonlinear_arith)
            requires m > 0, x >= 0;
        assert((x - x % m) % y == 0) by (nonlinear_arith)
            requires m > 0, (x - x % m) % m == 0, m == y || m == -y;
    } else {
        let z = -x;
        let w = z - z % m;
        assert(w % m == 0) by (nonlinear_arith)
            requires m > 0, z > 0, w == z - z % m;
        vstd::arithmetic::div_mod::lemma_fundamental_div_mod(w, m);
        let k = w / m;
        assert(-w == (-k) * m) by (nonlinear_arith)
            requires w == m * k + 0;
        vstd::arithmetic::div_mod::lemma_mod_multiples_basic(-k, m);
        assert(x + (-x) % m == -w);
        assert((x + (-x) % m) % y == 0) by (nonlinear_arith)
            requires m > 0, (x + (-x) % m) % m == 0, m == y || m == -y;
    }
}

/// An integer `%` gives NaN for a zero divisor and otherwise, when the
/// remainder is exact, the remainder of the left operand by the right one.
pub proof fn law_rem_numbers(a: ValueView, b: ValueView)
    requires
        a is Int,
        b is Int,
    ensures
        b->Int_0 == 0 ==> rem_numbers_spec(a, b) == NumericPlan::Exact(Value(CANONICAL_NAN_BITS)),
        b->Int_0 != 0 && !(a->Int_0 == i32::MIN && b->Int_0 == -1) ==> (rem_numbers_spec(a, b) matches NumericPlan::Exact(v)
            && v@ == ValueView::Int(trunc_rem(a->Int_0 as int, b->Int_0 as int) as i32)
            && (a->Int_0 - trunc_rem(a->Int_0 as int, b->Int_0 as int)) % (b->Int_0 as int) == 0),
{
    if b->Int_0 != 0 {
        law_trunc_rem(a->Int_0 as int, b->Int_0 as int);
        let q = trunc_rem(a->Int_0 as int, b->Int_0 as int);
        assert(i32::MIN <= q <= i32::MAX);
        crate::value::law_int_roundtrip(q as i32);
    }
}

/// `===` across kinds: a number never strictly equals a non-number; two
/// numbers in different words are compared as doubles; null equals only
/// null and undefined only undefined; two atoms are equal exactly when
/// they are the same atom.
pub proof fn law_strict_eq_kinds(cells: Seq<GcBox>, a: Value, b: Value)
    ensures
        is_num(a@) && !is_num(b@) ==> strict_eq_plan(cells, a, b) == EqPlan::Known(false),
        is_num(a@) && is_num(b@) && a != b ==> strict_eq_plan(cells, a, b) == EqPlan::Doubles(
            numeric_of(a@),
            numeric_of(b@),
        ),
        a@ is Null ==> strict_eq_plan(cells, a, b) == EqPlan::Known(b@ is Null),
        spec_is_undefined(a@) ==> strict_eq_plan(cells, a, b) == EqPlan::Known(spec_is_undefined(b@)),
        a@ is Atom && b@ is Atom ==> strict_eq_plan(cells, a, b) == EqPlan::Known(
            a@->Atom_0 == b@->Atom_0,
        ),
{
}

} // verus!
