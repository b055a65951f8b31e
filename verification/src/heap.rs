//! The objects that heap cells hold.

use vstd::prelude::*;
use std::collections::BTreeMap;
use crate::atoms::{marked_with, Atom, AtomTable, Shape};
use crate::gc::{GCHeader, HeapObject, HeapTyped, ObjType};
use crate::value::{HeapKind, Value, ValueView};

verus! {

/// An ordinary object: a shape, the value slots it indexes, a prototype.
#[derive(Debug)]
pub struct QObject {
    pub shape: Shape,
    pub values: Vec<Value>,
    pub prototype: Option<Value>,
    pub is_html_dda: bool,
}

/// What reading property `atom` gives: the value in its slot, when the
/// shape has the property and the slot is filled.
pub open spec fn object_get(o: QObject, atom: Atom) -> Option<Value> {
    if o.shape.slots().contains_key(atom) && o.shape.slots()[atom] < o.values@.len() {
        Some(o.values@[o.shape.slots()[atom] as int])
    } else {
        None
    }
}

/// The slot that `set` writes for `atom`: the existing slot, or the next
/// slot number for a new property.
pub open spec fn set_slot(o: QObject, atom: Atom) -> nat {
    if o.shape.slots().contains_key(atom) {
        o.shape.slots()[atom] as nat
    } else {
        o.shape.slots().dom().len()
    }
}

/// The values after writing `v` at slot `idx`, growing with undefined.
pub open spec fn write_slot(values: Seq<Value>, idx: nat, v: Value) -> Seq<Value> {
    if idx < values.len() {
        values.update(idx as int, v)
    } else {
        Seq::new(idx + 1, |i: int| if i < values.len() {
            values[i]
        } else if i == idx {
            v
        } else {
            Value(crate::value::tagged_bits(crate::value::TAG_UNDEF, 0))
        })
    }
}

/// What `set` does: a new property gets the next slot and the writable
/// attribute; the value lands in the property's slot; nothing else changes.
pub open spec fn set_post(before: QObject, atom: Atom, value: Value, after: QObject) -> bool {
    &&& after.shape.slots() == if before.shape.slots().contains_key(atom) {
        before.shape.slots()
    } else {
        before.shape.slots().insert(atom, before.shape.slots().dom().len() as usize)
    }
    &&& after.shape.attrs() == if before.shape.slots().contains_key(atom) {
        before.shape.attrs()
    } else {
        before.shape.attrs().insert(atom, crate::atoms::PropFlags(1))
    }
    &&& after.values@ == write_slot(before.values@, set_slot(before, atom), value)
    &&& after.prototype == before.prototype
    &&& after.is_html_dda == before.is_html_dda
}

/// Every property has a slot of its own, and the slots are exactly the
/// filled values; objects built by `set` from an empty shape stay so.
pub open spec fn slots_dense(o: QObject) -> bool {
    let m = o.shape.slots();
    &&& m.dom().finite()
    &&& o.values@.len() == m.dom().len()
    &&& forall|x: Atom| #[trigger] m.contains_key(x) ==> (m[x] as int) < o.values@.len()
    &&& forall|x: Atom, y: Atom|
        #[trigger] m.contains_key(x) && #[trigger] m.contains_key(y) && x != y ==> m[x] != m[y]
}

/// Reading a property after writing it gives the written value; every
/// other property reads as before; the object stays densely slotted.
pub proof fn law_get_after_set(before: QObject, atom: Atom, value: Value, after: QObject, other: Atom)
    requires
        slots_dense(before),
        set_slot(before, atom) < usize::MAX,
        set_post(before, atom, value, after),
    ensures
        object_get(after, atom) == Some(value),
        other != atom ==> object_get(after, other) == object_get(before, other),
        slots_dense(after),
        before.shape.slots().contains_key(atom) ==> after.shape.slots() == before.shape.slots(),
        after.shape.slots().dom().len() == before.shape.slots().dom().len() + if before.shape.slots().contains_key(
            atom,
        ) {
            0nat
        } else {
            1nat
        },
{
    let m = before.shape.slots();
    let m2 = after.shape.slots();
    let idx = set_slot(before, atom);
    if m.contains_key(atom) {
        assert(after.values@ =~= before.values@.update(idx as int, value));
        if other != atom && m.contains_key(other) {
            assert(m[other] != m[atom]);
        }
    } else {
        assert(idx == before.values@.len());
        assert(m2[atom] as int == idx);
        assert(m2.dom() =~= m.dom().insert(atom));
        assert(after.values@[idx as int] == value);
        assert(after.values@.len() == idx + 1);
        assert forall|x: Atom| #[trigger] m2.contains_key(x) implies (m2[x] as int) < after.values@.len() by {
            if x != atom {
                assert(m.contains_key(x));
            }
        }
        if other != atom && m.contains_key(other) {
            assert(after.values@[m[other] as int] == before.values@[m[other] as int]);
        }
    }
}

impl QObject {
    pub open spec fn wf(&self) -> bool {
        self.shape.wf()
    }

    pub fn new(shape: Shape) -> (r: Self)
        requires
            shape.wf(),
        ensures
            r.wf(),
            r.shape == shape,
            r.values@ == Seq::<Value>::empty(),
            r.prototype is None,
            !r.is_html_dda,
    {
        QObject { shape, values: Vec::new(), prototype: None, is_html_dda: false }
    }

    /// The value of property `atom`, if the object has it.
    pub fn get(&self, atom: Atom) -> (r: Option<Value>)
        requires
            self.wf(),
        ensures
            r == object_get(*self, atom),
    {
        match self.shape.get(atom) {
            Some(index) => {
                if index < self.values.len() {
                    Some(self.values[index])
                } else {
                    None
                }
            },
            None => None,
        }
    }

    /// Writes property `atom`, adding it to the shape when it is new.
    pub fn set(&mut self, atom: Atom, value: Value)
        requires
            old(self).wf(),
            set_slot(*old(self), atom) < usize::MAX,
        ensures
            final(self).wf(),
            set_post(*old(self), atom, value, *final(self)),
    {
        let existing = self.shape.get(atom);
        let index = match existing {
            Some(i) => i,
            None => {
                let n = self.shape.len();
                let next = self.shape.transition(atom);
                self.shape = next;
                n
            },
        };
        let ghost before = self.values@;
        let ghost slots = self.shape.slots();
        let ghost attrs = self.shape.attrs();
        let undefined = Value::undefined();
        if index >= self.values.len() {
            while self.values.len() < index + 1
                invariant
                    index < usize::MAX,
                    self.shape.wf(),
                    self.shape.slots() == slots,
                    self.shape.attrs() == attrs,
                    self.prototype == old(self).prototype,
                    self.is_html_dda == old(self).is_html_dda,
                    self.values@.len() <= index + 1,
                    self.values@.len() >= before.len(),
                    forall|i: int| 0 <= i < before.len() ==> #[trigger] self.values@[i] == before[i],
                    forall|i: int| before.len() <= i < self.values@.len() ==> #[trigger] self.values@[i] == undefined,
                decreases index + 1 - self.values@.len(),
            {
                self.values.push(undefined);
            }
        }
        self.values.set(index, value);
        proof {
            assert(self.values@ =~= write_slot(before, set_slot(*old(self), atom), value));
        }
    }

    /// Marks the atoms of the shape's keys.
    pub fn trace_atoms(&self, atoms: &mut AtomTable)
        requires
            old(atoms).wf(),
        ensures
            final(atoms).wf(),
            marked_with(old(atoms)@, final(atoms)@, self.shape.key_ids()),
    {
        self.shape.trace_atoms(atoms);
    }
}

/// An array: dense elements, optional sparse elements, a length, the
/// properties of an object, and an optional window into a shared buffer of
/// 32-bit integers.
#[derive(Debug)]
pub struct QArray {
    pub elements: Vec<Value>,
    pub sparse: Option<BTreeMap<usize, Value>>,
    pub length: u64,
    pub object: QObject,
    pub shared_buffer: Option<Vec<i32>>,
    pub shared_offset: usize,
    pub shared_length: usize,
}

/// What reading element `index` gives.
pub open spec fn array_get(a: QArray, index: usize) -> Option<Value> {
    if a.shared_buffer is Some && index < a.shared_length {
        let shared = a.shared_buffer->Some_0@;
        let offset = if a.shared_offset + index > usize::MAX {
            usize::MAX as int
        } else {
            a.shared_offset + index
        };
        if offset < shared.len() {
            Some(Value(crate::value::tagged_bits(
                crate::value::TAG_INT,
                ((shared[offset] as u32) as u64) << 4u64,
            )))
        } else {
            Some(Value(crate::value::tagged_bits(crate::value::TAG_UNDEF, 0)))
        }
    } else if index < a.elements@.len() {
        Some(a.elements@[index as int])
    } else if a.sparse is Some && a.sparse->Some_0@.contains_key(index) {
        Some(a.sparse->Some_0@[index])
    } else {
        None
    }
}

impl QArray {
    pub fn new(shape: Shape) -> (r: Self)
        requires
            shape.wf(),
        ensures
            r.elements@ == Seq::<Value>::empty(),
            r.sparse is None,
            r.length == 0,
            r.object.wf(),
            r.object.shape == shape,
            r.object.values@ == Seq::<Value>::empty(),
            r.object.prototype is None,
            !r.object.is_html_dda,
            r.shared_buffer is None,
            r.shared_offset == 0,
            r.shared_length == 0,
    {
        QArray {
            elements: Vec::new(),
            sparse: None,
            length: 0,
            object: QObject::new(shape),
            shared_buffer: None,
            shared_offset: 0,
            shared_length: 0,
        }
    }

    /// Appends an element; the length grows to cover it.
    pub fn push(&mut self, value: Value)
        ensures
            final(self).elements@ == old(self).elements@.push(value),
            final(self).length == if old(self).length >= old(self).elements@.len() + 1 {
                old(self).length
            } else {
                (old(self).elements@.len() + 1) as u64
            },
            final(self).sparse == old(self).sparse,
            final(self).object == old(self).object,
            final(self).shared_buffer == old(self).shared_buffer,
            final(self).shared_offset == old(self).shared_offset,
            final(self).shared_length == old(self).shared_length,
    {
        self.elements.push(value);
        let n = self.elements.len() as u64;
        if n > self.length {
            self.length = n;
        }
    }

    /// The element at `index`: from the shared window when it covers the
    /// index, else from the dense elements, else from the sparse ones.
    pub fn get(&self, index: usize) -> (r: Option<Value>)
        ensures
            r == array_get(*self, index),
    {
        match &self.shared_buffer {
            Some(shared) => {
                if index < self.shared_length {
                    let offset = self.shared_offset.saturating_add(index);
                    if offset < shared.len() {
                        return Some(Value::i32(shared[offset]));
                    } else {
                        return Some(Value::undefined());
                    }
                }
            },
            None => {},
        }
        if index < self.elements.len() {
            return Some(self.elements[index]);
        }
        match &self.sparse {
            Some(sparse) => match sparse.get(&index) {
                Some(v) => Some(*v),
                None => None,
            },
            None => None,
        }
    }
}

/// A dense array of plain elements, with the properties of an object.
#[derive(Debug)]
pub struct QBoolArray {
    pub elements: Vec<bool>,
    pub object: QObject,
}

impl QBoolArray {
    pub fn new(shape: Shape) -> (r: Self)
        requires
            shape.wf(),
        ensures
            r.elements@ == Seq::<bool>::empty(),
            r.object.wf(),
            r.object.shape == shape,
            r.object.values@ == Seq::<Value>::empty(),
            r.object.prototype is None,
            !r.object.is_html_dda,
    {
        QBoolArray { elements: Vec::new(), object: QObject::new(shape) }
    }

    pub fn push(&mut self, value: bool)
        ensures
            final(self).elements@ == old(self).elements@.push(value),
            final(self).object == old(self).object,
    {
        self.elements.push(value);
    }

    pub fn get(&self, index: usize) -> (r: Option<bool>)
        ensures
            r == if index < self.elements@.len() {
                Some(self.elements@[index as int])
            } else {
                None::<bool>
            },
    {
        if index < self.elements.len() {
            Some(self.elements[index])
        } else {
            None
        }
    }
}

/// A dense array of plain elements, with the properties of an object.
#[derive(Debug)]
pub struct QUint8Array {
    pub elements: Vec<u8>,
    pub object: QObject,
}

impl QUint8Array {
    pub fn new(shape: Shape) -> (r: Self)
        requires
            shape.wf(),
        ensures
            r.elements@ == Seq::<u8>::empty(),
            r.object.wf(),
            r.object.shape == shape,
            r.object.values@ == Seq::<Value>::empty(),
            r.object.prototype is None,
            !r.object.is_html_dda,
    {
        QUint8Array { elements: Vec::new(), object: QObject::new(shape) }
    }

    pub fn push(&mut self, value: u8)
        ensures
            final(self).elements@ == old(self).elements@.push(value),
            final(self).object == old(self).object,
    {
        self.elements.push(value);
    }

    pub fn get(&self, index: usize) -> (r: Option<u8>)
        ensures
            r == if index < self.elements@.len() {
                Some(self.elements@[index as int])
            } else {
                None::<u8>
            },
    {
        if index < self.elements.len() {
            Some(self.elements[index])
        } else {
            None
        }
    }
}

/// A dense array of plain elements, with the properties of an object.
#[derive(Debug)]
pub struct QInt32Array {
    pub elements: Vec<i32>,
    pub object: QObject,
}

impl QInt32Array {
    pub fn new(shape: Shape) -> (r: Self)
        requires
            shape.wf(),
        ensures
            r.elements@ == Seq::<i32>::empty(),
            r.object.wf(),
            r.object.shape == shape,
            r.object.values@ == Seq::<Value>::empty(),
            r.object.prototype is None,
            !r.object.is_html_dda,
    {
        QInt32Array { elements: Vec::new(), object: QObject::new(shape) }
    }

    pub fn push(&mut self, value: i32)
        ensures
            final(self).elements@ == old(self).elements@.push(value),
            final(self).object == old(self).object,
    {
        self.elements.push(value);
    }

    pub fn get(&self, index: usize) -> (r: Option<i32>)
        ensures
            r == if index < self.elements@.len() {
                Some(self.elements@[index as int])
            } else {
                None::<i32>
            },
    {
        if index < self.elements.len() {
            Some(self.elements[index])
        } else {
            None
        }
    }
}

/// A dense array of plain elements, with the properties of an object. Elements are the bit patterns of doubles.
#[derive(Debug)]
pub struct QFloat64Array {
    pub elements: Vec<u64>,
    pub object: QObject,
}

impl QFloat64Array {
    pub fn new(shape: Shape) -> (r: Self)
        requires
            shape.wf(),
        ensures
            r.elements@ == Seq::<u64>::empty(),
            r.object.wf(),
            r.object.shape == shape,
            r.object.values@ == Seq::<Value>::empty(),
            r.object.prototype is None,
            !r.object.is_html_dda,
    {
        QFloat64Array { elements: Vec::new(), object: QObject::new(shape) }
    }

    pub fn push(&mut self, value: u64)
        ensures
            final(self).elements@ == old(self).elements@.push(value),
            final(self).object == old(self).object,
    {
        self.elements.push(value);
    }

    pub fn get(&self, index: usize) -> (r: Option<u64>)
        ensures
            r == if index < self.elements@.len() {
                Some(self.elements@[index as int])
            } else {
                None::<u64>
            },
    {
        if index < self.elements.len() {
            Some(self.elements[index])
        } else {
            None
        }
    }
}

/// An array of string values, with the properties of an object.
#[derive(Debug)]
pub struct QStringArray {
    pub elements: Vec<Value>,
    pub object: QObject,
}

impl QStringArray {
    pub fn new(shape: Shape) -> (r: Self)
        requires
            shape.wf(),
        ensures
            r.elements@ == Seq::<Value>::empty(),
            r.object.wf(),
            r.object.shape == shape,
            r.object.values@ == Seq::<Value>::empty(),
            r.object.prototype is None,
            !r.object.is_html_dda,
    {
        QStringArray { elements: Vec::new(), object: QObject::new(shape) }
    }

    pub fn push(&mut self, value: Value)
        ensures
            final(self).elements@ == old(self).elements@.push(value),
            final(self).object == old(self).object,
    {
        self.elements.push(value);
    }

    pub fn get(&self, index: usize) -> (r: Option<Value>)
        ensures
            r == if index < self.elements@.len() {
                Some(self.elements@[index as int])
            } else {
                None::<Value>
            },
    {
        if index < self.elements.len() {
            Some(self.elements[index])
        } else {
            None
        }
    }
}

/// A string object: its header and the atom of its text.
#[derive(Debug)]
pub struct QString {
    pub header: GCHeader,
    pub atom: Atom,
}

impl QString {
    pub fn new(atom: Atom) -> (r: Self)
        ensures
            r.atom == atom,
            r.header == (GCHeader { marked: false, obj_type: ObjType::String, kind: HeapKind::String }),
    {
        QString { header: GCHeader::new(ObjType::String), atom }
    }

    /// The text of the string.
    pub fn text<'a>(&self, atoms: &'a AtomTable) -> (r: &'a str)
        requires
            atoms.wf(),
            crate::atoms::is_live(atoms@, self.atom),
        ensures
            r@ == crate::atoms::text_of(atoms@, self.atom),
    {
        atoms.resolve(self.atom)
    }
}

/// A symbol: its number and optional description.
#[derive(Debug)]
pub struct QSymbol {
    pub id: u64,
    pub description: Option<Atom>,
}

/// A function compiled to a body of values.
#[derive(Debug)]
pub struct QFunction {
    pub name: Option<Atom>,
    pub params: Vec<Atom>,
    pub body: Vec<Value>,
    pub prototype: Option<Value>,
    pub descriptor: Value,
}

/// A function with captured values.
#[derive(Debug)]
pub struct QClosure {
    pub function: Value,
    pub captures: Vec<Value>,
}

/// A host function, named by the number under which the host registered
/// its callback.
#[derive(Debug)]
pub struct QNativeFunction {
    pub name: Option<Atom>,
    pub callback: usize,
}

/// A host function with captured values.
#[derive(Debug)]
pub struct QNativeClosure {
    pub name: Option<Atom>,
    pub callback: usize,
    pub captures: Vec<Value>,
}

/// A class: prototype, constructor, static properties (distinct keys) and
/// base.
#[derive(Debug)]
pub struct QClass {
    pub name: Option<Atom>,
    pub prototype: Option<Value>,
    pub constructor: Option<Value>,
    pub static_props: Vec<(Atom, Value)>,
    pub base: Value,
}

/// A module and its exports (distinct keys).
#[derive(Debug)]
pub struct QModule {
    pub name: Option<Atom>,
    pub exports: Vec<(Atom, Value)>,
}

/// An instance of a class.
#[derive(Debug)]
pub struct QInstance {
    pub class: Value,
    pub object: QObject,
}

impl HeapTyped for QObject {
    open spec fn spec_kind() -> HeapKind {
        HeapKind::Object
    }

    open spec fn spec_wrap(self) -> HeapObject {
        HeapObject::Object(self)
    }

    fn kind() -> (r: HeapKind) {
        HeapKind::Object
    }

    fn wrap(self) -> (r: HeapObject) {
        HeapObject::Object(self)
    }

    fn project(o: &HeapObject) -> (r: Option<&Self>) {
        match o {
            HeapObject::Object(x) => Some(x),
            _ => None,
        }
    }

    fn unwrap_owned(o: HeapObject) -> (r: Option<Self>) {
        match o {
            HeapObject::Object(x) => Some(x),
            _ => None,
        }
    }

    fn project_mut(o: &mut HeapObject) -> (r: Option<&mut Self>) {
        match o {
            HeapObject::Object(x) => Some(x),
            _ => None,
        }
    }

    proof fn lemma_wrap_kind(x: Self) {
    }
}

impl HeapTyped for QArray {
    open spec fn spec_kind() -> HeapKind {
        HeapKind::Array
    }

    open spec fn spec_wrap(self) -> HeapObject {
        HeapObject::Array(self)
    }

    fn kind() -> (r: HeapKind) {
        HeapKind::Array
    }

    fn wrap(self) -> (r: HeapObject) {
        HeapObject::Array(self)
    }

    fn project(o: &HeapObject) -> (r: Option<&Self>) {
        match o {
            HeapObject::Array(x) => Some(x),
            _ => None,
        }
    }

    fn unwrap_owned(o: HeapObject) -> (r: Option<Self>) {
        match o {
            HeapObject::Array(x) => Some(x),
            _ => None,
        }
    }

    fn project_mut(o: &mut HeapObject) -> (r: Option<&mut Self>) {
        match o {
            HeapObject::Array(x) => Some(x),
            _ => None,
        }
    }

    proof fn lemma_wrap_kind(x: Self) {
    }
}

impl HeapTyped for QBoolArray {
    open spec fn spec_kind() -> HeapKind {
        HeapKind::BoolArray
    }

    open spec fn spec_wrap(self) -> HeapObject {
        HeapObject::BoolArray(self)
    }

    fn kind() -> (r: HeapKind) {
        HeapKind::BoolArray
    }

    fn wrap(self) -> (r: HeapObject) {
        HeapObject::BoolArray(self)
    }

    fn project(o: &HeapObject) -> (r: Option<&Self>) {
        match o {
            HeapObject::BoolArray(x) => Some(x),
            _ => None,
        }
    }

    fn unwrap_owned(o: HeapObject) -> (r: Option<Self>) {
        match o {
            HeapObject::BoolArray(x) => Some(x),
            _ => None,
        }
    }

    fn project_mut(o: &mut HeapObject) -> (r: Option<&mut Self>) {
        match o {
            HeapObject::BoolArray(x) => Some(x),
            _ => None,
        }
    }

    proof fn lemma_wrap_kind(x: Self) {
    }
}

impl HeapTyped for QUint8Array {
    open spec fn spec_kind() -> HeapKind {
        HeapKind::Uint8Array
    }

    open spec fn spec_wrap(self) -> HeapObject {
        HeapObject::Uint8Array(self)
    }

    fn kind() -> (r: HeapKind) {
        HeapKind::Uint8Array
    }

    fn wrap(self) -> (r: HeapObject) {
        HeapObject::Uint8Array(self)
    }

    fn project(o: &HeapObject) -> (r: Option<&Self>) {
        match o {
            HeapObject::Uint8Array(x) => Some(x),
            _ => None,
        }
    }

    fn unwrap_owned(o: HeapObject) -> (r: Option<Self>) {
        match o {
            HeapObject::Uint8Array(x) => Some(x),
            _ => None,
        }
    }

    fn project_mut(o: &mut HeapObject) -> (r: Option<&mut Self>) {
        match o {
            HeapObject::Uint8Array(x) => Some(x),
            _ => None,
        }
    }

    proof fn lemma_wrap_kind(x: Self) {
    }
}

impl HeapTyped for QInt32Array {
    open spec fn spec_kind() -> HeapKind {
        HeapKind::Int32Array
    }

    open spec fn spec_wrap(self) -> HeapObject {
        HeapObject::Int32Array(self)
    }

    fn kind() -> (r: HeapKind) {
        HeapKind::Int32Array
    }

    fn wrap(self) -> (r: HeapObject) {
        HeapObject::Int32Array(self)
    }

    fn project(o: &HeapObject) -> (r: Option<&Self>) {
        match o {
            HeapObject::Int32Array(x) => Some(x),
            _ => None,
        }
    }

    fn unwrap_owned(o: HeapObject) -> (r: Option<Self>) {
        match o {
            HeapObject::Int32Array(x) => Some(x),
            _ => None,
        }
    }

    fn project_mut(o: &mut HeapObject) -> (r: Option<&mut Self>) {
        match o {
            HeapObject::Int32Array(x) => Some(x),
            _ => None,
        }
    }

    proof fn lemma_wrap_kind(x: Self) {
    }
}

impl HeapTyped for QFloat64Array {
    open spec fn spec_kind() -> HeapKind {
        HeapKind::Float64Array
    }

    open spec fn spec_wrap(self) -> HeapObject {
        HeapObject::Float64Array(self)
    }

    fn kind() -> (r: HeapKind) {
        HeapKind::Float64Array
    }

    fn wrap(self) -> (r: HeapObject) {
        HeapObject::Float64Array(self)
    }

    fn project(o: &HeapObject) -> (r: Option<&Self>) {
        match o {
            HeapObject::Float64Array(x) => Some(x),
            _ => None,
        }
    }

    fn unwrap_owned(o: HeapObject) -> (r: Option<Self>) {
        match o {
            HeapObject::Float64Array(x) => Some(x),
            _ => None,
        }
    }

    fn project_mut(o: &mut HeapObject) -> (r: Option<&mut Self>) {
        match o {
            HeapObject::Float64Array(x) => Some(x),
            _ => None,
        }
    }

    proof fn lemma_wrap_kind(x: Self) {
    }
}

impl HeapTyped for QStringArray {
    open spec fn spec_kind() -> HeapKind {
        HeapKind::StringArray
    }

    open spec fn spec_wrap(self) -> HeapObject {
        HeapObject::StringArray(self)
    }

    fn kind() -> (r: HeapKind) {
        HeapKind::StringArray
    }

    fn wrap(self) -> (r: HeapObject) {
        HeapObject::StringArray(self)
    }

    fn project(o: &HeapObject) -> (r: Option<&Self>) {
        match o {
            HeapObject::StringArray(x) => Some(x),
            _ => None,
        }
    }

    fn unwrap_owned(o: HeapObject) -> (r: Option<Self>) {
        match o {
            HeapObject::StringArray(x) => Some(x),
            _ => None,
        }
    }

    fn project_mut(o: &mut HeapObject) -> (r: Option<&mut Self>) {
        match o {
            HeapObject::StringArray(x) => Some(x),
            _ => None,
        }
    }

    proof fn lemma_wrap_kind(x: Self) {
    }
}

impl HeapTyped for QString {
    open spec fn spec_kind() -> HeapKind {
        HeapKind::String
    }

    open spec fn spec_wrap(self) -> HeapObject {
        HeapObject::String(self)
    }

    fn kind() -> (r: HeapKind) {
        HeapKind::String
    }

    fn wrap(self) -> (r: HeapObject) {
        HeapObject::String(self)
    }

    fn project(o: &HeapObject) -> (r: Option<&Self>) {
        match o {
            HeapObject::String(x) => Some(x),
            _ => None,
        }
    }

    fn unwrap_owned(o: HeapObject) -> (r: Option<Self>) {
        match o {
            HeapObject::String(x) => Some(x),
            _ => None,
        }
    }

    fn project_mut(o: &mut HeapObject) -> (r: Option<&mut Self>) {
        match o {
            HeapObject::String(x) => Some(x),
            _ => None,
        }
    }

    proof fn lemma_wrap_kind(x: Self) {
    }
}

impl HeapTyped for QSymbol {
    open spec fn spec_kind() -> HeapKind {
        HeapKind::Symbol
    }

    open spec fn spec_wrap(self) -> HeapObject {
        HeapObject::Symbol(self)
    }

    fn kind() -> (r: HeapKind) {
        HeapKind::Symbol
    }

    fn wrap(self) -> (r: HeapObject) {
        HeapObject::Symbol(self)
    }

    fn project(o: &HeapObject) -> (r: Option<&Self>) {
        match o {
            HeapObject::Symbol(x) => Some(x),
            _ => None,
        }
    }

    fn unwrap_owned(o: HeapObject) -> (r: Option<Self>) {
        match o {
            HeapObject::Symbol(x) => Some(x),
            _ => None,
        }
    }

    fn project_mut(o: &mut HeapObject) -> (r: Option<&mut Self>) {
        match o {
            HeapObject::Symbol(x) => Some(x),
            _ => None,
        }
    }

    proof fn lemma_wrap_kind(x: Self) {
    }
}

impl HeapTyped for QFunction {
    open spec fn spec_kind() -> HeapKind {
        HeapKind::Function
    }

    open spec fn spec_wrap(self) -> HeapObject {
        HeapObject::Function(self)
    }

    fn kind() -> (r: HeapKind) {
        HeapKind::Function
    }

    fn wrap(self) -> (r: HeapObject) {
        HeapObject::Function(self)
    }

    fn project(o: &HeapObject) -> (r: Option<&Self>) {
        match o {
            HeapObject::Function(x) => Some(x),
            _ => None,
        }
    }

    fn unwrap_owned(o: HeapObject) -> (r: Option<Self>) {
        match o {
            HeapObject::Function(x) => Some(x),
            _ => None,
        }
    }

    fn project_mut(o: &mut HeapObject) -> (r: Option<&mut Self>) {
        match o {
            HeapObject::Function(x) => Some(x),
            _ => None,
        }
    }

    proof fn lemma_wrap_kind(x: Self) {
    }
}

impl HeapTyped for QClosure {
    open spec fn spec_kind() -> HeapKind {
        HeapKind::Closure
    }

    open spec fn spec_wrap(self) -> HeapObject {
        HeapObject::Closure(self)
    }

    fn kind() -> (r: HeapKind) {
        HeapKind::Closure
    }

    fn wrap(self) -> (r: HeapObject) {
        HeapObject::Closure(self)
    }

    fn project(o: &HeapObject) -> (r: Option<&Self>) {
        match o {
            HeapObject::Closure(x) => Some(x),
            _ => None,
        }
    }

    fn unwrap_owned(o: HeapObject) -> (r: Option<Self>) {
        match o {
            HeapObject::Closure(x) => Some(x),
            _ => None,
        }
    }

    fn project_mut(o: &mut HeapObject) -> (r: Option<&mut Self>) {
        match o {
            HeapObject::Closure(x) => Some(x),
            _ => None,
        }
    }

    proof fn lemma_wrap_kind(x: Self) {
    }
}

impl HeapTyped for QNativeFunction {
    open spec fn spec_kind() -> HeapKind {
        HeapKind::NativeFunction
    }

    open spec fn spec_wrap(self) -> HeapObject {
        HeapObject::NativeFunction(self)
    }

    fn kind() -> (r: HeapKind) {
        HeapKind::NativeFunction
    }

    fn wrap(self) -> (r: HeapObject) {
        HeapObject::NativeFunction(self)
    }

    fn project(o: &HeapObject) -> (r: Option<&Self>) {
        match o {
            HeapObject::NativeFunction(x) => Some(x),
            _ => None,
        }
    }

    fn unwrap_owned(o: HeapObject) -> (r: Option<Self>) {
        match o {
            HeapObject::NativeFunction(x) => Some(x),
            _ => None,
        }
    }

    fn project_mut(o: &mut HeapObject) -> (r: Option<&mut Self>) {
        match o {
            HeapObject::NativeFunction(x) => Some(x),
            _ => None,
        }
    }

    proof fn lemma_wrap_kind(x: Self) {
    }
}

impl HeapTyped for QNativeClosure {
    open spec fn spec_kind() -> HeapKind {
        HeapKind::NativeClosure
    }

    open spec fn spec_wrap(self) -> HeapObject {
        HeapObject::NativeClosure(self)
    }

    fn kind() -> (r: HeapKind) {
        HeapKind::NativeClosure
    }

    fn wrap(self) -> (r: HeapObject) {
        HeapObject::NativeClosure(self)
    }

    fn project(o: &HeapObject) -> (r: Option<&Self>) {
        match o {
            HeapObject::NativeClosure(x) => Some(x),
            _ => None,
        }
    }

    fn unwrap_owned(o: HeapObject) -> (r: Option<Self>) {
        match o {
            HeapObject::NativeClosure(x) => Some(x),
            _ => None,
        }
    }

    fn project_mut(o: &mut HeapObject) -> (r: Option<&mut Self>) {
        match o {
            HeapObject::NativeClosure(x) => Some(x),
            _ => None,
        }
    }

    proof fn lemma_wrap_kind(x: Self) {
    }
}

impl HeapTyped for QClass {
    open spec fn spec_kind() -> HeapKind {
        HeapKind::Class
    }

    open spec fn spec_wrap(self) -> HeapObject {
        HeapObject::Class(self)
    }

    fn kind() -> (r: HeapKind) {
        HeapKind::Class
    }

    fn wrap(self) -> (r: HeapObject) {
        HeapObject::Class(self)
    }

    fn project(o: &HeapObject) -> (r: Option<&Self>) {
        match o {
            HeapObject::Class(x) => Some(x),
            _ => None,
        }
    }

    fn unwrap_owned(o: HeapObject) -> (r: Option<Self>) {
        match o {
            HeapObject::Class(x) => Some(x),
            _ => None,
        }
    }

    fn project_mut(o: &mut HeapObject) -> (r: Option<&mut Self>) {
        match o {
            HeapObject::Class(x) => Some(x),
            _ => None,
        }
    }

    proof fn lemma_wrap_kind(x: Self) {
    }
}

impl HeapTyped for QModule {
    open spec fn spec_kind() -> HeapKind {
        HeapKind::Module
    }

    open spec fn spec_wrap(self) -> HeapObject {
        HeapObject::Module(self)
    }

    fn kind() -> (r: HeapKind) {
        HeapKind::Module
    }

    fn wrap(self) -> (r: HeapObject) {
        HeapObject::Module(self)
    }

    fn project(o: &HeapObject) -> (r: Option<&Self>) {
        match o {
            HeapObject::Module(x) => Some(x),
            _ => None,
        }
    }

    fn unwrap_owned(o: HeapObject) -> (r: Option<Self>) {
        match o {
            HeapObject::Module(x) => Some(x),
            _ => None,
        }
    }

    fn project_mut(o: &mut HeapObject) -> (r: Option<&mut Self>) {
        match o {
            HeapObject::Module(x) => Some(x),
            _ => None,
        }
    }

    proof fn lemma_wrap_kind(x: Self) {
    }
}

impl HeapTyped for QInstance {
    open spec fn spec_kind() -> HeapKind {
        HeapKind::Instance
    }

    open spec fn spec_wrap(self) -> HeapObject {
        HeapObject::Instance(self)
    }

    fn kind() -> (r: HeapKind) {
        HeapKind::Instance
    }

    fn wrap(self) -> (r: HeapObject) {
        HeapObject::Instance(self)
    }

    fn project(o: &HeapObject) -> (r: Option<&Self>) {
        match o {
            HeapObject::Instance(x) => Some(x),
            _ => None,
        }
    }

    fn unwrap_owned(o: HeapObject) -> (r: Option<Self>) {
        match o {
            HeapObject::Instance(x) => Some(x),
            _ => None,
        }
    }

    fn project_mut(o: &mut HeapObject) -> (r: Option<&mut Self>) {
        match o {
            HeapObject::Instance(x) => Some(x),
            _ => None,
        }
    }

    proof fn lemma_wrap_kind(x: Self) {
    }
}

} // verus!
