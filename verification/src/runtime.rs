//! The runtime (heap, atom table, symbol counter) and the context that
//! allocates objects in it.
use vstd::prelude::*;

use crate::atoms::{
    contains_text, intern_post, is_live, text_of, Atom, AtomTable, EntryView, PropFlags, Shape,
};
use crate::gc::{CollectStats, GcBox, Gc, HeapObject, HeapTyped, GC};
use crate::heap::{
    QArray, QBoolArray, QClass, QClosure, QFloat64Array, QFunction, QInstance, QInt32Array,
    QModule, QNativeClosure, QNativeFunction, QObject, QString, QStringArray, QSymbol,
    QUint8Array,
};
use crate::fmt::push_str;
use crate::value::{HeapKind, Value, ValueView, MAX_HEAP_HANDLE};

verus! {

/// The state that contexts share: the heap, the atom table and the counter
/// that numbers symbols.
#[derive(Debug)]
pub struct Runtime {
    pub id: u64,
    pub gc: GC,
    pub atoms: AtomTable,
    pub next_symbol_id: u64,
}

impl Runtime {
    /// A runtime with an empty heap and atom table, known by `id`.
    pub fn new(id: u64) -> (r: Self)
        ensures
            r.id == id,
            r.gc.wf(),
            r.gc.cells() == Seq::<GcBox>::empty(),
            r.atoms.wf(),
            r.atoms@ == Seq::<Option<EntryView>>::empty(),
            r.next_symbol_id == 0,
    {
        Runtime { id, gc: GC::new(), atoms: AtomTable::new(), next_symbol_id: 0 }
    }
}

/// The heap has room for `n` more cells.
pub open spec fn room_for(gc: &GC, n: nat) -> bool {
    gc.cells().len() + n <= MAX_HEAP_HANDLE && gc.cells().len() + n <= usize::MAX
}

/// The atom table can take `n` more atoms.
pub open spec fn atom_room(atoms: &AtomTable, n: nat) -> bool {
    atoms@.len() + n < u32::MAX
}

/// `v` is a value that refers to the cell `handle`.
pub open spec fn refers_to(v: Option<Value>, handle: u64) -> bool {
    v matches Some(p) && p@ == ValueView::Heap(handle)
}

/// `o` is an object without properties whose prototype is the cell `proto`.
pub open spec fn fresh_object(o: QObject, proto: Option<u64>) -> bool {
    &&& o.wf()
    &&& o.shape.slots() == Map::<Atom, usize>::empty()
    &&& o.shape.attrs() == Map::<Atom, PropFlags>::empty()
    &&& o.values@ == Seq::<Value>::empty()
    &&& match proto {
        Some(p) => refers_to(o.prototype, p),
        None => o.prototype is None,
    }
    &&& !o.is_html_dda
}

/// Every live atom of `before` is in `after` unchanged.
pub open spec fn atoms_grow(before: Seq<Option<EntryView>>, after: Seq<Option<EntryView>>) -> bool {
    &&& before.len() <= after.len()
    &&& forall|i: int| 0 <= i < before.len() && before[i] is Some ==> #[trigger] after[i] == before[i]
}

/// The atom interned for an optional name.
pub open spec fn named(
    before: Seq<Option<EntryView>>,
    after: Seq<Option<EntryView>>,
    name: Option<Seq<char>>,
    atom: Option<Atom>,
) -> bool {
    match name {
        None => atom is None && after == before,
        Some(s) => atom matches Some(a) && is_live(after, a) && text_of(after, a) == s && atoms_grow(
            before,
            after,
        ) && after.len() <= before.len() + 1,
    }
}

/// Interning only adds to the atom table, one atom at most.
pub proof fn lemma_intern_grows(
    before: Seq<Option<EntryView>>,
    s: Seq<char>,
    after: Seq<Option<EntryView>>,
    r: Atom,
)
    requires
        intern_post(before, s, after, r),
    ensures
        atoms_grow(before, after),
        after.len() <= before.len() + 1,
{
}

/// Growth of the atom table composes.
pub proof fn lemma_grow_trans(
    a: Seq<Option<EntryView>>,
    b: Seq<Option<EntryView>>,
    c: Seq<Option<EntryView>>,
)
    requires
        atoms_grow(a, b),
        atoms_grow(b, c),
    ensures
        atoms_grow(a, c),
{
    assert forall|i: int| 0 <= i < a.len() && a[i] is Some implies #[trigger] c[i] == a[i] by {
        assert(b[i] == a[i]);
    }
}

/// The shared runtime together with the empty shape, the two prototypes,
/// the global bindings and the strict-mode flag.
#[derive(Debug)]
pub struct Context {
    pub rt: Runtime,
    pub empty_shape: Shape,
    pub object_proto: Gc<QObject>,
    pub array_proto: Gc<QObject>,
    pub globals: Vec<(Atom, Value)>,
    pub current_strict: bool,
}

impl Context {
    /// The heap and the atom table are well formed, the empty shape has no
    /// properties and both prototypes are object cells of the heap.
    pub open spec fn wf(&self) -> bool {
        &&& self.rt.gc.wf()
        &&& self.rt.atoms.wf()
        &&& self.empty_shape.wf()
        &&& self.empty_shape.slots() == Map::<Atom, usize>::empty()
        &&& self.empty_shape.attrs() == Map::<Atom, PropFlags>::empty()
        &&& self.object_proto.valid(&self.rt.gc)
        &&& self.array_proto.valid(&self.rt.gc)
    }

    /// The heap cells.
    pub open spec fn cells(&self) -> Seq<GcBox> {
        self.rt.gc.cells()
    }

    /// Everything but the heap and the atom table is as in `other`.
    pub open spec fn same_frame(&self, other: &Context) -> bool {
        &&& self.rt.id == other.rt.id
        &&& self.rt.next_symbol_id == other.rt.next_symbol_id
        &&& self.object_proto.index == other.object_proto.index
        &&& self.array_proto.index == other.array_proto.index
        &&& self.globals@ == other.globals@
        &&& self.current_strict == other.current_strict
    }

    /// The object held by cell `i`.
    pub open spec fn cell(&self, i: u64) -> HeapObject {
        self.cells()[i as int].value
    }

    /// `self` is `before` with `n` more cells and nothing else changed but
    /// the atom table.
    pub open spec fn grew(&self, before: &Context, n: nat) -> bool {
        &&& self.wf()
        &&& self.same_frame(before)
        &&& self.cells().len() == before.cells().len() + n
        &&& self.cells().take(before.cells().len() as int) == before.cells()
    }

    /// A context over `rt`: it allocates the object prototype, then the
    /// array prototype, whose prototype is the object prototype.
    pub fn new(rt: Runtime) -> (r: Self)
        requires
            rt.gc.wf(),
            rt.atoms.wf(),
            room_for(&rt.gc, 2),
        ensures
            r.wf(),
            r.rt.id == rt.id,
            r.rt.atoms@ == rt.atoms@,
            r.rt.next_symbol_id == rt.next_symbol_id,
            r.object_proto.index == rt.gc.cells().len(),
            r.array_proto.index == rt.gc.cells().len() + 1,
            r.cells().len() == rt.gc.cells().len() + 2,
            r.cells().take(rt.gc.cells().len() as int) == rt.gc.cells(),
            r.cells()[r.object_proto.index as int].value matches HeapObject::Object(o) && fresh_object(
                o,
                None,
            ),
            r.cells()[r.array_proto.index as int].value matches HeapObject::Object(o) && fresh_object(
                o,
                Some(r.object_proto.index),
            ),
            r.globals@ == Seq::<(Atom, Value)>::empty(),
            !r.current_strict,
    {
        let mut rt = rt;
        let ghost start = rt.gc.cells();
        let empty_shape = Shape::new();
        let object_proto = Gc::new(&mut rt.gc, QObject::new(empty_shape.duplicate()));
        let mut obj = QObject::new(empty_shape.duplicate());
        obj.prototype = Some(object_proto.to_value(&rt.gc));
        let array_proto = Gc::new(&mut rt.gc, obj);
        proof {
            assert(rt.gc.cells().take(start.len() as int) =~= start);
            assert(rt.gc.cells()[object_proto.index as int] == start.push(
                rt.gc.cells()[object_proto.index as int],
            ).last());
        }
        Context {
            rt,
            empty_shape,
            object_proto,
            array_proto,
            globals: Vec::new(),
            current_strict: false,
        }
    }

    /// The atom of `s`, interned in the runtime's table.
    pub fn intern(&mut self, s: &str) -> (r: Atom)
        requires
            old(self).wf(),
            atom_room(&old(self).rt.atoms, 0),
        ensures
            final(self).wf(),
            intern_post(old(self).rt.atoms@, s@, final(self).rt.atoms@, r),
            final(self).cells() == old(self).cells(),
            final(self).same_frame(&*old(self)),
    {
        self.rt.atoms.intern(s)
    }

    /// The text of a live atom.
    pub fn resolve(&self, atom: Atom) -> (r: String)
        requires
            self.wf(),
            is_live(self.rt.atoms@, atom),
        ensures
            r@ == text_of(self.rt.atoms@, atom),
    {
        self.rt.atoms.resolve(atom).to_string()
    }

    /// The atom of `a` followed by `b`, interned.
    pub fn intern_joined(&mut self, a: &str, b: &str) -> (r: Atom)
        requires
            old(self).wf(),
            atom_room(&old(self).rt.atoms, 0),
        ensures
            final(self).wf(),
            intern_post(old(self).rt.atoms@, a@ + b@, final(self).rt.atoms@, r),
            final(self).cells() == old(self).cells(),
            final(self).same_frame(&*old(self)),
    {
        let mut text = String::new();
        push_str(&mut text, a);
        push_str(&mut text, b);
        proof {
            assert(text@ =~= a@ + b@);
        }
        self.intern(text.as_str())
    }

    /// The atom of the text of `a` followed by the text of `b`, interned.
    pub fn concat_atoms(&mut self, a: Atom, b: Atom) -> (r: Atom)
        requires
            old(self).wf(),
            atom_room(&old(self).rt.atoms, 0),
            is_live(old(self).rt.atoms@, a),
            is_live(old(self).rt.atoms@, b),
        ensures
            final(self).wf(),
            intern_post(
                old(self).rt.atoms@,
                text_of(old(self).rt.atoms@, a) + text_of(old(self).rt.atoms@, b),
                final(self).rt.atoms@,
                r,
            ),
            final(self).cells() == old(self).cells(),
            final(self).same_frame(&*old(self)),
    {
        let left = self.resolve(a);
        let right = self.resolve(b);
        self.intern_joined(left.as_str(), right.as_str())
    }
}


impl Context {
    /// Replaces the object of the cell with another of the same type,
    /// returning the previous one; nothing else changes.
    pub(crate) fn replace_cell<T: HeapTyped>(&mut self, cell: &Gc<T>, value: T) -> (r: T)
        requires
            old(self).wf(),
            cell.valid(&old(self).rt.gc),
        ensures
            final(self).wf(),
            final(self).same_frame(&*old(self)),
            final(self).rt.atoms@ == old(self).rt.atoms@,
            final(self).cells() == old(self).cells().update(
                cell.index as int,
                GcBox { header: old(self).cells()[cell.index as int].header, value: value.spec_wrap() },
            ),
            r.spec_wrap() == old(self).cells()[cell.index as int].value,
            cell.valid(&final(self).rt.gc),
    {
        proof {
            T::lemma_wrap_kind(value);
        }
        cell.replace(&mut self.rt.gc, value)
    }

    /// Allocates `value` in a new cell, keeping the context well formed.
    fn allocate_cell<T: HeapTyped>(&mut self, value: T) -> (r: Gc<T>)
        requires
            old(self).wf(),
            room_for(&old(self).rt.gc, 1),
        ensures
            final(self).grew(&*old(self), 1),
            final(self).rt.atoms@ == old(self).rt.atoms@,
            r.index == old(self).cells().len(),
            r.valid(&final(self).rt.gc),
            final(self).cell(r.index) == value.spec_wrap(),
    {
        let ghost before = self.cells();
        let r = Gc::new(&mut self.rt.gc, value);
        proof {
            assert(self.cells().take(before.len() as int) =~= before);
            assert(self.cells()[before.len() as int] == self.cells().last());
        }
        r
    }

    /// The value that refers to the object prototype.
    fn object_proto_value(&self) -> (r: Value)
        requires
            self.wf(),
        ensures
            r@ == ValueView::Heap(self.object_proto.index),
    {
        self.object_proto.to_value(&self.rt.gc)
    }

    /// A new object with no properties whose prototype is the object
    /// prototype.
    pub fn new_object(&mut self) -> (r: Gc<QObject>)
        requires
            old(self).wf(),
            room_for(&old(self).rt.gc, 1),
        ensures
            final(self).grew(&*old(self), 1),
            final(self).rt.atoms@ == old(self).rt.atoms@,
            r.index == old(self).cells().len(),
            r.valid(&final(self).rt.gc),
            final(self).cell(r.index) matches HeapObject::Object(o) && fresh_object(
                o,
                Some(old(self).object_proto.index),
            ),
    {
        let mut obj = QObject::new(self.empty_shape.duplicate());
        obj.prototype = Some(self.object_proto_value());
        self.allocate_cell(obj)
    }

    /// A new empty array whose prototype is the array prototype.
    pub fn new_array(&mut self) -> (r: Gc<QArray>)
        requires
            old(self).wf(),
            room_for(&old(self).rt.gc, 1),
        ensures
            final(self).grew(&*old(self), 1),
            final(self).rt.atoms@ == old(self).rt.atoms@,
            r.index == old(self).cells().len(),
            r.valid(&final(self).rt.gc),
            final(self).cell(r.index) matches HeapObject::Array(a) && a.elements@ == Seq::<
                Value,
            >::empty() && a.sparse is None && a.length == 0 && a.shared_buffer is None
                && fresh_object(a.object, Some(old(self).array_proto.index)),
    {
        let mut array = QArray::new(self.empty_shape.duplicate());
        array.object.prototype = Some(self.array_proto.to_value(&self.rt.gc));
        self.allocate_cell(array)
    }

    /// A new empty boolean array whose prototype is the object prototype.
    pub fn new_bool_array(&mut self) -> (r: Gc<QBoolArray>)
        requires
            old(self).wf(),
            room_for(&old(self).rt.gc, 1),
        ensures
            final(self).grew(&*old(self), 1),
            final(self).rt.atoms@ == old(self).rt.atoms@,
            r.index == old(self).cells().len(),
            r.valid(&final(self).rt.gc),
            final(self).cell(r.index) matches HeapObject::BoolArray(a) && a.elements@ == Seq::<
                bool,
            >::empty() && fresh_object(a.object, Some(old(self).object_proto.index)),
    {
        let mut array = QBoolArray::new(self.empty_shape.duplicate());
        array.object.prototype = Some(self.object_proto_value());
        self.allocate_cell(array)
    }

    /// A new empty byte array whose prototype is the object prototype.
    pub fn new_uint8_array(&mut self) -> (r: Gc<QUint8Array>)
        requires
            old(self).wf(),
            room_for(&old(self).rt.gc, 1),
        ensures
            final(self).grew(&*old(self), 1),
            final(self).rt.atoms@ == old(self).rt.atoms@,
            r.index == old(self).cells().len(),
            r.valid(&final(self).rt.gc),
            final(self).cell(r.index) matches HeapObject::Uint8Array(a) && a.elements@ == Seq::<
                u8,
            >::empty() && fresh_object(a.object, Some(old(self).object_proto.index)),
    {
        let mut array = QUint8Array::new(self.empty_shape.duplicate());
        array.object.prototype = Some(self.object_proto_value());
        self.allocate_cell(array)
    }

    /// A new empty 32-bit integer array whose prototype is the object
    /// prototype.
    pub fn new_int32_array(&mut self) -> (r: Gc<QInt32Array>)
        requires
            old(self).wf(),
            room_for(&old(self).rt.gc, 1),
        ensures
            final(self).grew(&*old(self), 1),
            final(self).rt.atoms@ == old(self).rt.atoms@,
            r.index == old(self).cells().len(),
            r.valid(&final(self).rt.gc),
            final(self).cell(r.index) matches HeapObject::Int32Array(a) && a.elements@ == Seq::<
                i32,
            >::empty() && fresh_object(a.object, Some(old(self).object_proto.index)),
    {
        let mut array = QInt32Array::new(self.empty_shape.duplicate());
        array.object.prototype = Some(self.object_proto_value());
        self.allocate_cell(array)
    }

    /// A new empty array of 64-bit float bit patterns whose prototype is the
    /// object prototype.
    pub fn new_float64_array(&mut self) -> (r: Gc<QFloat64Array>)
        requires
            old(self).wf(),
            room_for(&old(self).rt.gc, 1),
        ensures
            final(self).grew(&*old(self), 1),
            final(self).rt.atoms@ == old(self).rt.atoms@,
            r.index == old(self).cells().len(),
            r.valid(&final(self).rt.gc),
            final(self).cell(r.index) matches HeapObject::Float64Array(a) && a.elements@ == Seq::<
                u64,
            >::empty() && fresh_object(a.object, Some(old(self).object_proto.index)),
    {
        let mut array = QFloat64Array::new(self.empty_shape.duplicate());
        array.object.prototype = Some(self.object_proto_value());
        self.allocate_cell(array)
    }

    /// A new empty string array whose prototype is the object prototype.
    pub fn new_string_array(&mut self) -> (r: Gc<QStringArray>)
        requires
            old(self).wf(),
            room_for(&old(self).rt.gc, 1),
        ensures
            final(self).grew(&*old(self), 1),
            final(self).rt.atoms@ == old(self).rt.atoms@,
            r.index == old(self).cells().len(),
            r.valid(&final(self).rt.gc),
            final(self).cell(r.index) matches HeapObject::StringArray(a) && a.elements@ == Seq::<
                Value,
            >::empty() && fresh_object(a.object, Some(old(self).object_proto.index)),
    {
        let mut array = QStringArray::new(self.empty_shape.duplicate());
        array.object.prototype = Some(self.object_proto_value());
        self.allocate_cell(array)
    }

    /// A new string object whose text is `s`, interned.
    pub fn new_string(&mut self, s: &str) -> (r: Gc<QString>)
        requires
            old(self).wf(),
            room_for(&old(self).rt.gc, 1),
            atom_room(&old(self).rt.atoms, 0),
        ensures
            final(self).grew(&*old(self), 1),
            r.index == old(self).cells().len(),
            r.valid(&final(self).rt.gc),
            final(self).cell(r.index) matches HeapObject::String(q) && intern_post(
                old(self).rt.atoms@,
                s@,
                final(self).rt.atoms@,
                q.atom,
            ),
    {
        let atom = self.intern(s);
        self.allocate_cell(QString::new(atom))
    }

    /// Interns an optional name.
    fn intern_name(&mut self, name: Option<&str>) -> (r: Option<Atom>)
        requires
            old(self).wf(),
            atom_room(&old(self).rt.atoms, 0),
        ensures
            final(self).wf(),
            final(self).cells() == old(self).cells(),
            final(self).same_frame(&*old(self)),
            named(
                old(self).rt.atoms@,
                final(self).rt.atoms@,
                match name {
                    Some(t) => Some(t@),
                    None => None,
                },
                r,
            ),
    {
        match name {
            Some(text) => {
                let ghost before = self.rt.atoms@;
                let a = self.intern(text);
                proof {
                    lemma_intern_grows(before, text@, self.rt.atoms@, a);
                }
                Some(a)
            },
            None => None,
        }
    }

    /// A new symbol numbered by the runtime's counter, which advances; its
    /// description, if any, is interned.
    pub fn new_symbol(&mut self, description: Option<&str>) -> (r: Gc<QSymbol>)
        requires
            old(self).wf(),
            room_for(&old(self).rt.gc, 1),
            atom_room(&old(self).rt.atoms, 0),
            old(self).rt.next_symbol_id < u64::MAX,
        ensures
            final(self).wf(),
            final(self).rt.id == old(self).rt.id,
            final(self).object_proto.index == old(self).object_proto.index,
            final(self).array_proto.index == old(self).array_proto.index,
            final(self).globals@ == old(self).globals@,
            final(self).current_strict == old(self).current_strict,
            final(self).cells().len() == old(self).cells().len() + 1,
            final(self).cells().take(old(self).cells().len() as int) == old(self).cells(),
            r.index == old(self).cells().len(),
            r.valid(&final(self).rt.gc),
            final(self).cell(r.index) matches HeapObject::Symbol(q) && symbol_step(
                old(self).rt.next_symbol_id,
                q.id,
                final(self).rt.next_symbol_id,
            ) && named(
                old(self).rt.atoms@,
                final(self).rt.atoms@,
                match description {
                    Some(t) => Some(t@),
                    None => None,
                },
                q.description,
            ),
    {
        let desc = self.intern_name(description);
        let id = self.rt.next_symbol_id;
        self.rt.next_symbol_id = id + 1;
        let ghost mid = self.cells();
        let r = Gc::new(&mut self.rt.gc, QSymbol { id, description: desc });
        proof {
            assert(self.cells().take(mid.len() as int) =~= mid);
            assert(self.cells()[mid.len() as int] == self.cells().last());
        }
        r
    }
}


/// A symbol made when the counter reads `before` gets the number `before`,
/// and the counter moves on to `after`, one more.
pub open spec fn symbol_step(before: u64, id: u64, after: u64) -> bool {
    id == before && after == before + 1
}

/// Two symbols made one after the other are numbered in turn: the second
/// has the next number, so no number is handed out twice.
pub proof fn law_symbols_numbered_in_turn(c0: u64, id1: u64, c1: u64, id2: u64, c2: u64)
    requires
        symbol_step(c0, id1, c1),
        symbol_step(c1, id2, c2),
    ensures
        id2 == id1 + 1,
        id1 < id2,
        id1 == c0,
{
}

/// Each atom of `atoms` is live in `t` with the text of the same item of
/// `texts`.
pub open spec fn atoms_name(t: Seq<Option<EntryView>>, atoms: Seq<Atom>, texts: Seq<&str>) -> bool {
    &&& atoms.len() == texts.len()
    &&& forall|j: int|
        0 <= j < atoms.len() ==> is_live(t, #[trigger] atoms[j]) && text_of(t, atoms[j])
            == texts[j]@
}

/// The view of an optional name.
pub open spec fn name_view(name: Option<&str>) -> Option<Seq<char>> {
    match name {
        Some(t) => Some(t@),
        None => None,
    }
}

impl Context {
    /// Interns each of `params`, in order.
    fn intern_all(&mut self, params: &[&str]) -> (r: Vec<Atom>)
        requires
            old(self).wf(),
            atom_room(&old(self).rt.atoms, params@.len() as nat),
        ensures
            final(self).wf(),
            final(self).cells() == old(self).cells(),
            final(self).same_frame(&*old(self)),
            atoms_grow(old(self).rt.atoms@, final(self).rt.atoms@),
            final(self).rt.atoms@.len() <= old(self).rt.atoms@.len() + params@.len(),
            atoms_name(final(self).rt.atoms@, r@, params@),
    {
        let ghost start = *self;
        let mut out: Vec<Atom> = Vec::new();
        let mut i: usize = 0;
        while i < params.len()
            invariant
                self.wf(),
                self.cells() == start.cells(),
                self.same_frame(&start),
                start.rt.atoms@.len() + params@.len() < u32::MAX,
                i <= params@.len(),
                atoms_grow(start.rt.atoms@, self.rt.atoms@),
                self.rt.atoms@.len() <= start.rt.atoms@.len() + i,
                atoms_name(self.rt.atoms@, out@, params@.take(i as int)),
            decreases params@.len() - i,
        {
            let ghost prev = self.rt.atoms@;
            let a = self.intern(params[i]);
            proof {
                lemma_intern_grows(prev, params@[i as int]@, self.rt.atoms@, a);
                lemma_grow_trans(start.rt.atoms@, prev, self.rt.atoms@);
                assert forall|j: int| 0 <= j < out@.len() implies is_live(
                    self.rt.atoms@,
                    #[trigger] out@[j],
                ) && text_of(self.rt.atoms@, out@[j]) == params@.take(i as int)[j]@ by {
                    assert(is_live(prev, out@[j]));
                    assert(self.rt.atoms@[out@[j].0 as int] == prev[out@[j].0 as int]);
                }
            }
            out.push(a);
            proof {
                assert(params@.take(i + 1) =~= params@.take(i as int).push(params@[i as int]));
            }
            i = i + 1;
        }
        proof {
            assert(params@.take(params@.len() as int) =~= params@);
        }
        out
    }

    /// A new function: its name and parameters are interned, and a new
    /// object, allocated first, becomes its prototype.
    pub fn new_function(&mut self, name: Option<&str>, params: &[&str], body: Vec<Value>) -> (r:
        Gc<QFunction>)
        requires
            old(self).wf(),
            room_for(&old(self).rt.gc, 2),
            atom_room(&old(self).rt.atoms, params@.len() + 1),
        ensures
            final(self).grew(&*old(self), 2),
            atoms_grow(old(self).rt.atoms@, final(self).rt.atoms@),
            r.index == old(self).cells().len() + 1,
            r.valid(&final(self).rt.gc),
            final(self).cell(old(self).cells().len() as u64) matches HeapObject::Object(o)
                && fresh_object(o, Some(old(self).object_proto.index)),
            final(self).cell(r.index) matches HeapObject::Function(q) && {
                &&& q.body == body
                &&& refers_to(q.prototype, old(self).cells().len() as u64)
                &&& q.descriptor@ == ValueView::Undefined
                &&& atoms_name(final(self).rt.atoms@, q.params@, params@)
                &&& match name {
                    Some(t) => q.name matches Some(a) && is_live(final(self).rt.atoms@, a)
                        && text_of(final(self).rt.atoms@, a) == t@,
                    None => q.name is None,
                }
            },
    {
        let ghost start = *self;
        let name_atom = self.intern_name(name);
        let ghost after_name = self.rt.atoms@;
        let params = self.intern_all(params);
        proof {
            lemma_grow_trans(start.rt.atoms@, after_name, self.rt.atoms@);
            if let Some(a) = name_atom {
                assert(self.rt.atoms@[a.0 as int] == after_name[a.0 as int]);
            }
        }
        let prototype = self.new_object();
        let ghost mid = *self;
        let proto_value = prototype.to_value(&self.rt.gc);
        let f = QFunction {
            name: name_atom,
            params,
            body,
            prototype: Some(proto_value),
            descriptor: Value::undefined(),
        };
        let r = self.allocate_cell(f);
        proof {
            assert(self.cells().take(start.cells().len() as int) =~= start.cells()) by {
                assert(mid.cells().take(start.cells().len() as int) == start.cells());
                assert(self.cells().take(mid.cells().len() as int) == mid.cells());
            }
            assert(self.cell(start.cells().len() as u64) == mid.cell(start.cells().len() as u64));
        }
        r
    }

    /// A new closure over `function` with the captured values.
    pub fn new_closure(&mut self, function: Gc<QFunction>, captures: Vec<Value>) -> (r: Gc<
        QClosure,
    >)
        requires
            old(self).wf(),
            room_for(&old(self).rt.gc, 1),
            function.valid(&old(self).rt.gc),
        ensures
            final(self).grew(&*old(self), 1),
            final(self).rt.atoms@ == old(self).rt.atoms@,
            r.index == old(self).cells().len(),
            r.valid(&final(self).rt.gc),
            final(self).cell(r.index) matches HeapObject::Closure(c) && c.function@
                == ValueView::Heap(function.index) && c.captures == captures,
    {
        let function = function.to_value(&self.rt.gc);
        self.allocate_cell(QClosure { function, captures })
    }

    /// A new native function with the given callback number.
    pub fn new_native_function(&mut self, name: Option<&str>, callback: usize) -> (r: Gc<
        QNativeFunction,
    >)
        requires
            old(self).wf(),
            room_for(&old(self).rt.gc, 1),
            atom_room(&old(self).rt.atoms, 0),
        ensures
            final(self).grew(&*old(self), 1),
            r.index == old(self).cells().len(),
            r.valid(&final(self).rt.gc),
            final(self).cell(r.index) matches HeapObject::NativeFunction(q) && q.callback == callback
                && named(old(self).rt.atoms@, final(self).rt.atoms@, name_view(name), q.name),
    {
        let name = self.intern_name(name);
        self.allocate_cell(QNativeFunction { name, callback })
    }

    /// A new native closure with the given callback number and captures.
    pub fn new_native_closure(
        &mut self,
        name: Option<&str>,
        callback: usize,
        captures: Vec<Value>,
    ) -> (r: Gc<QNativeClosure>)
        requires
            old(self).wf(),
            room_for(&old(self).rt.gc, 1),
            atom_room(&old(self).rt.atoms, 0),
        ensures
            final(self).grew(&*old(self), 1),
            r.index == old(self).cells().len(),
            r.valid(&final(self).rt.gc),
            final(self).cell(r.index) matches HeapObject::NativeClosure(q) && q.callback == callback
                && q.captures == captures && named(
                old(self).rt.atoms@,
                final(self).rt.atoms@,
                name_view(name),
                q.name,
            ),
    {
        let name = self.intern_name(name);
        self.allocate_cell(QNativeClosure { name, callback, captures })
    }

    /// A new class named `name`: a new object, allocated first, becomes its
    /// prototype; it has no static properties and no base.
    pub fn new_class(&mut self, name: &str, constructor: Option<Value>) -> (r: Gc<QClass>)
        requires
            old(self).wf(),
            room_for(&old(self).rt.gc, 2),
            atom_room(&old(self).rt.atoms, 0),
        ensures
            final(self).grew(&*old(self), 2),
            r.index == old(self).cells().len() + 1,
            r.valid(&final(self).rt.gc),
            final(self).cell(old(self).cells().len() as u64) matches HeapObject::Object(o)
                && fresh_object(o, Some(old(self).object_proto.index)),
            final(self).cell(r.index) matches HeapObject::Class(c) && {
                &&& c.name matches Some(a) && intern_post(
                    old(self).rt.atoms@,
                    name@,
                    final(self).rt.atoms@,
                    a,
                )
                &&& refers_to(c.prototype, old(self).cells().len() as u64)
                &&& c.constructor == constructor
                &&& c.static_props@ == Seq::<(Atom, Value)>::empty()
                &&& c.base@ == ValueView::Undefined
            },
    {
        let ghost start = *self;
        let atom = self.intern(name);
        let prototype = self.new_object();
        let ghost mid = *self;
        let proto_value = prototype.to_value(&self.rt.gc);
        let class = QClass {
            name: Some(atom),
            prototype: Some(proto_value),
            constructor,
            static_props: Vec::new(),
            base: Value::undefined(),
        };
        let r = self.allocate_cell(class);
        proof {
            assert(self.cells().take(start.cells().len() as int) =~= start.cells()) by {
                assert(mid.cells().take(start.cells().len() as int) == start.cells());
                assert(self.cells().take(mid.cells().len() as int) == mid.cells());
            }
            assert(self.cell(start.cells().len() as u64) == mid.cell(start.cells().len() as u64));
        }
        r
    }

    /// A new module named `name` with no exports.
    pub fn new_module(&mut self, name: &str) -> (r: Gc<QModule>)
        requires
            old(self).wf(),
            room_for(&old(self).rt.gc, 1),
            atom_room(&old(self).rt.atoms, 0),
        ensures
            final(self).grew(&*old(self), 1),
            r.index == old(self).cells().len(),
            r.valid(&final(self).rt.gc),
            final(self).cell(r.index) matches HeapObject::Module(m) && {
                &&& m.exports@ == Seq::<(Atom, Value)>::empty()
                &&& m.name matches Some(a) && intern_post(
                    old(self).rt.atoms@,
                    name@,
                    final(self).rt.atoms@,
                    a,
                )
            },
    {
        let atom = self.intern(name);
        self.allocate_cell(QModule { name: Some(atom), exports: Vec::new() })
    }

    /// A new instance of `class`: an object without properties whose
    /// prototype is the class's prototype.
    pub fn new_instance(&mut self, class: Gc<QClass>) -> (r: Gc<QInstance>)
        requires
            old(self).wf(),
            room_for(&old(self).rt.gc, 1),
            class.valid(&old(self).rt.gc),
        ensures
            final(self).grew(&*old(self), 1),
            final(self).rt.atoms@ == old(self).rt.atoms@,
            r.index == old(self).cells().len(),
            r.valid(&final(self).rt.gc),
            old(self).cell(class.index) matches HeapObject::Class(c) && final(self).cell(
                r.index,
            ) matches HeapObject::Instance(i) && {
                &&& i.class@ == ValueView::Heap(class.index)
                &&& i.object.wf()
                &&& i.object.shape.slots() == Map::<Atom, usize>::empty()
                &&& i.object.values@ == Seq::<Value>::empty()
                &&& i.object.prototype == c.prototype
                &&& !i.object.is_html_dda
            },
    {
        let prototype = class.borrow(&self.rt.gc).prototype;
        let class_value = class.to_value(&self.rt.gc);
        let object = QObject {
            shape: self.empty_shape.duplicate(),
            values: Vec::new(),
            prototype,
            is_html_dda: false,
        };
        self.allocate_cell(QInstance { class: class_value, object })
    }

    /// Runs a collection over the heap with the given roots.
    pub fn collect(&mut self, roots: &[Value]) -> (r: CollectStats)
        requires
            old(self).wf(),
        ensures
            final(self).wf(),
            final(self).cells() == old(self).cells(),
            final(self).rt.atoms@ == old(self).rt.atoms@,
            final(self).same_frame(&*old(self)),
            r == (CollectStats {
                before: old(self).cells().len() as usize,
                after: old(self).cells().len() as usize,
                collected: 0,
            }),
    {
        self.rt.gc.collect(roots, &mut self.rt.atoms)
    }

    /// Number of heap cells.
    pub fn object_count(&self) -> (r: usize)
        requires
            self.wf(),
        ensures
            r == self.cells().len(),
    {
        self.rt.gc.object_count()
    }

    /// Number of live atoms.
    pub fn atom_count(&self) -> (r: usize)
        requires
            self.wf(),
        ensures
            r == crate::atoms::live_count(self.rt.atoms@),
    {
        self.rt.atoms.count()
    }

    /// Sets the strict-mode flag.
    pub fn set_current_strict(&mut self, strict: bool)
        ensures
            final(self).current_strict == strict,
            final(self).rt == old(self).rt,
            final(self).empty_shape == old(self).empty_shape,
            final(self).object_proto == old(self).object_proto,
            final(self).array_proto == old(self).array_proto,
            final(self).globals == old(self).globals,
    {
        self.current_strict = strict;
    }

    /// The strict-mode flag.
    pub fn current_strict(&self) -> (r: bool)
        ensures
            r == self.current_strict,
    {
        self.current_strict
    }

    /// Calls `f` with the text of a live atom.
    pub fn with_resolved<R, F: FnOnce(&str) -> R>(&self, atom: Atom, f: F) -> (r: R)
        requires
            self.wf(),
            is_live(self.rt.atoms@, atom),
            forall|s: &str| s@ == text_of(self.rt.atoms@, atom) ==> f.requires((s,)),
        ensures
            exists|s: &str| s@ == text_of(self.rt.atoms@, atom) && f.ensures((s,), r),
    {
        let text = self.rt.atoms.resolve(atom);
        f(text)
    }
}

/// A value that names a property: an atom, or a text that is interned.
pub trait IntoPropertyKey: Sized {
    fn into_property_key(self, ctx: &mut Context) -> (r: Atom)
        requires
            old(ctx).wf(),
            atom_room(&old(ctx).rt.atoms, 0),
        ensures
            final(ctx).wf(),
            final(ctx).cells() == old(ctx).cells(),
            final(ctx).same_frame(&*old(ctx)),
            atoms_grow(old(ctx).rt.atoms@, final(ctx).rt.atoms@),
    ;
}

impl IntoPropertyKey for Atom {
    fn into_property_key(self, ctx: &mut Context) -> (r: Atom)
        ensures
            r == self,
            *final(ctx) == *old(ctx),
    {
        self
    }
}

impl<'a> IntoPropertyKey for &'a Atom {
    fn into_property_key(self, ctx: &mut Context) -> (r: Atom)
        ensures
            r == *self,
            *final(ctx) == *old(ctx),
    {
        *self
    }
}

impl<'a> IntoPropertyKey for &'a str {
    fn into_property_key(self, ctx: &mut Context) -> (r: Atom)
        ensures
            intern_post(old(ctx).rt.atoms@, self@, final(ctx).rt.atoms@, r),
    {
        let ghost before = ctx.rt.atoms@;
        let r = ctx.intern(self);
        proof {
            lemma_intern_grows(before, self@, ctx.rt.atoms@, r);
        }
        r
    }
}

impl IntoPropertyKey for String {
    fn into_property_key(self, ctx: &mut Context) -> (r: Atom)
        ensures
            intern_post(old(ctx).rt.atoms@, self@, final(ctx).rt.atoms@, r),
    {
        let ghost before = ctx.rt.atoms@;
        let r = ctx.intern(self.as_str());
        proof {
            lemma_intern_grows(before, self@, ctx.rt.atoms@, r);
        }
        r
    }
}

impl<'a> IntoPropertyKey for &'a String {
    fn into_property_key(self, ctx: &mut Context) -> (r: Atom)
        ensures
            intern_post(old(ctx).rt.atoms@, self@, final(ctx).rt.atoms@, r),
    {
        let ghost before = ctx.rt.atoms@;
        let r = ctx.intern(self.as_str());
        proof {
            lemma_intern_grows(before, self@, ctx.rt.atoms@, r);
        }
        r
    }
}

} // verus!
