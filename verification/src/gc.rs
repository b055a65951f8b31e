//! The garbage-collected heap: an arena of cells, each with a header and an
//! object, and typed handles into it.

use vstd::prelude::*;
use crate::value::{HeapKind, Value, MAX_HEAP_HANDLE};
use crate::heap::{
    QObject, QArray, QBoolArray, QUint8Array, QInt32Array, QFloat64Array, QStringArray, QString,
    QSymbol, QFunction, QClosure, QNativeFunction, QNativeClosure, QClass, QModule, QInstance,
};

verus! {

/// Counts before and after a collection.
#[derive(Clone, Copy, PartialEq, Eq, Structural, Debug, Default)]
pub struct CollectStats {
    pub before: usize,
    pub after: usize,
    pub collected: usize,
}

/// The broad class of a heap cell.
#[derive(Clone, Copy, PartialEq, Eq, Structural, Debug)]
pub enum ObjType {
    Object,
    String,
    Shape,
}

/// The header of a heap cell.
#[derive(Clone, Copy, PartialEq, Eq, Structural, Debug)]
pub struct GCHeader {
    pub marked: bool,
    pub obj_type: ObjType,
    pub kind: HeapKind,
}

impl GCHeader {
    /// An unmarked header whose kind follows from the class.
    pub fn new(obj_type: ObjType) -> (r: Self)
        ensures
            r.marked == false,
            r.obj_type == obj_type,
            r.kind == match obj_type {
                ObjType::String => HeapKind::String,
                _ => HeapKind::Object,
            },
    {
        let kind = match obj_type {
            ObjType::Object => HeapKind::Object,
            ObjType::String => HeapKind::String,
            ObjType::Shape => HeapKind::Object,
        };
        GCHeader { marked: false, obj_type, kind }
    }

    /// An unmarked header with the given class and kind.
    pub fn with_kind(obj_type: ObjType, kind: HeapKind) -> (r: Self)
        ensures
            r == (GCHeader { marked: false, obj_type, kind }),
    {
        GCHeader { marked: false, obj_type, kind }
    }
}

/// The object stored in a heap cell.
#[derive(Debug)]
pub enum HeapObject {
    Object(QObject),
    Array(QArray),
    BoolArray(QBoolArray),
    Uint8Array(QUint8Array),
    Int32Array(QInt32Array),
    Float64Array(QFloat64Array),
    StringArray(QStringArray),
    String(QString),
    Symbol(QSymbol),
    Function(QFunction),
    Closure(QClosure),
    NativeFunction(QNativeFunction),
    NativeClosure(QNativeClosure),
    Class(QClass),
    Module(QModule),
    Instance(QInstance),
}

pub open spec fn object_kind(o: HeapObject) -> HeapKind {
    match o {
        HeapObject::Object(_) => HeapKind::Object,
        HeapObject::Array(_) => HeapKind::Array,
        HeapObject::BoolArray(_) => HeapKind::BoolArray,
        HeapObject::Uint8Array(_) => HeapKind::Uint8Array,
        HeapObject::Int32Array(_) => HeapKind::Int32Array,
        HeapObject::Float64Array(_) => HeapKind::Float64Array,
        HeapObject::StringArray(_) => HeapKind::StringArray,
        HeapObject::String(_) => HeapKind::String,
        HeapObject::Symbol(_) => HeapKind::Symbol,
        HeapObject::Function(_) => HeapKind::Function,
        HeapObject::Closure(_) => HeapKind::Closure,
        HeapObject::NativeFunction(_) => HeapKind::NativeFunction,
        HeapObject::NativeClosure(_) => HeapKind::NativeClosure,
        HeapObject::Class(_) => HeapKind::Class,
        HeapObject::Module(_) => HeapKind::Module,
        HeapObject::Instance(_) => HeapKind::Instance,
    }
}

/// A heap cell: its header and its object.
#[derive(Debug)]
pub struct GcBox {
    pub header: GCHeader,
    pub value: HeapObject,
}

fn vec_cell_mut(v: &mut Vec<GcBox>, i: usize) -> (r: &mut GcBox)
    requires
        i < old(v)@.len(),
    ensures
        *r == old(v)@[i as int],
        final(v)@ == old(v)@.update(i as int, *final(r)),
{
    &mut v[i]
}

/// The heap: an arena of cells and the number of allocations made.
#[derive(Debug)]
pub struct GC {
    allocated: usize,
    cells: Vec<GcBox>,
}

/// The cell class that an allocation of the given kind receives.
pub open spec fn obj_type_for(kind: HeapKind) -> ObjType {
    if kind == HeapKind::String { ObjType::String } else { ObjType::Object }
}

impl GC {
    /// Every cell's header kind matches its object, and handles fit in a
    /// value's payload.
    pub closed spec fn wf(&self) -> bool {
        &&& self.allocated == self.cells@.len()
        &&& self.cells@.len() <= MAX_HEAP_HANDLE
        &&& forall|i: int|
            0 <= i < self.cells@.len() ==> (#[trigger] self.cells@[i]).header.kind == object_kind(
                self.cells@[i].value,
            )
    }

    /// The number of allocations made.
    pub closed spec fn allocated_count(&self) -> usize {
        self.allocated
    }

    /// Another cell can be allocated.
    pub open spec fn has_room(&self) -> bool {
        self.cells().len() < MAX_HEAP_HANDLE && self.cells().len() < usize::MAX
    }

    /// The cells, in allocation order.
    pub closed spec fn cells(&self) -> Seq<GcBox> {
        self.cells@
    }

    pub fn new() -> (r: Self)
        ensures
            r.wf(),
            r.cells() == Seq::<GcBox>::empty(),
    {
        GC { allocated: 0, cells: Vec::new() }
    }

    /// Number of allocations made.
    pub fn object_count(&self) -> (r: usize)
        requires
            self.wf(),
        ensures
            r == self.cells().len(),
    {
        self.allocated
    }

    /// Every handle is taken to belong to the heap.
    pub fn contains_ptr(&self, _ptr: u64) -> (r: bool)
        ensures
            r == true,
    {
        true
    }

    /// A collection pass that frees nothing and reports the current count.
    pub fn collect(&mut self, _roots: &[Value], _atoms: &mut crate::atoms::AtomTable) -> (r:
        CollectStats)
        requires
            old(self).wf(),
        ensures
            final(self).wf(),
            final(self).cells() == old(self).cells(),
            *final(_atoms) == *old(_atoms),
            r == (CollectStats {
                before: old(self).cells().len() as usize,
                after: old(self).cells().len() as usize,
                collected: 0,
            }),
    {
        CollectStats { before: self.allocated, after: self.allocated, collected: 0 }
    }

    /// The kind of the cell with the given handle.
    pub fn kind_of(&self, handle: u64) -> (r: Option<HeapKind>)
        requires
            self.wf(),
        ensures
            r == if handle < self.cells().len() {
                Some(object_kind(self.cells()[handle as int].value))
            } else {
                None::<HeapKind>
            },
    {
        if handle < self.cells.len() as u64 {
            Some(self.cells[handle as usize].header.kind)
        } else {
            None
        }
    }

    /// The header of the cell with the given handle.
    pub fn header(&self, handle: u64) -> (r: GCHeader)
        requires
            self.wf(),
            handle < self.cells().len(),
        ensures
            r == self.cells()[handle as int].header,
    {
        self.cells[handle as usize].header
    }

    /// The object of the cell with the given handle.
    pub fn object(&self, handle: u64) -> (r: &HeapObject)
        requires
            self.wf(),
            handle < self.cells().len(),
        ensures
            *r == self.cells()[handle as int].value,
    {
        &self.cells[handle as usize].value
    }

    fn allocate(&mut self, header: GCHeader, value: HeapObject) -> (r: u64)
        requires
            old(self).wf(),
            old(self).has_room(),
            header.kind == object_kind(value),
        ensures
            final(self).wf(),
            r == old(self).cells().len(),
            final(self).cells() == old(self).cells().push(GcBox { header, value }),
    {
        let handle = self.cells.len() as u64;
        self.allocated = self.cells.len() + 1;
        self.cells.push(GcBox { header, value });
        proof {
            assert forall|i: int|
                0 <= i < self.cells@.len() implies (#[trigger] self.cells@[i]).header.kind
                == object_kind(self.cells@[i].value) by {
                if i < old(self).cells@.len() {
                    assert(self.cells@[i] == old(self).cells@[i]);
                }
            }
        }
        handle
    }

    fn cell_mut(&mut self, handle: u64) -> (r: &mut GcBox)
        requires
            handle < old(self).cells.len(),
        ensures
            *r == old(self).cells@[handle as int],
            final(self).cells@ == old(self).cells@.update(handle as int, *final(r)),
            final(self).allocated == old(self).allocated,
    {
        let i = handle as usize;
        vec_cell_mut(&mut self.cells, i)
    }

    /// Replaces the object of a cell with one of the same kind.
    pub fn replace_object(&mut self, handle: u64, value: HeapObject) -> (r: HeapObject)
        requires
            old(self).wf(),
            handle < old(self).cells().len(),
            object_kind(value) == object_kind(old(self).cells()[handle as int].value),
        ensures
            final(self).wf(),
            r == old(self).cells()[handle as int].value,
            final(self).cells() == old(self).cells().update(
                handle as int,
                GcBox { header: old(self).cells()[handle as int].header, value },
            ),
    {
        let header = self.cells[handle as usize].header;
        let mut cell = GcBox { header, value };
        self.cells.set_and_swap(handle as usize, &mut cell);
        proof {
            assert forall|i: int|
                0 <= i < self.cells@.len() implies (#[trigger] self.cells@[i]).header.kind
                == object_kind(self.cells@[i].value) by {
                if i != handle {
                    assert(self.cells@[i] == old(self).cells@[i]);
                }
            }
        }
        cell.value
    }
}

/// A value the collector can trace; every type is one, since the arena
/// finds reachable cells through handles.
pub trait Trace {}

impl<T> Trace for T {}

/// A value whose atoms the collector can trace; every type is one.
pub trait AtomTrace {}

impl<T> AtomTrace for T {}

/// A type of object that heap cells can hold.
pub trait HeapTyped: Sized {
    spec fn spec_kind() -> HeapKind;

    spec fn spec_wrap(self) -> HeapObject;

    fn kind() -> (r: HeapKind)
        ensures
            r == Self::spec_kind(),
    ;

    fn wrap(self) -> (r: HeapObject)
        ensures
            r == self.spec_wrap(),
            object_kind(r) == Self::spec_kind(),
    ;

    fn project(o: &HeapObject) -> (r: Option<&Self>)
        ensures
            r is Some <==> object_kind(*o) == Self::spec_kind(),
            r matches Some(x) ==> x.spec_wrap() == *o,
    ;

    fn unwrap_owned(o: HeapObject) -> (r: Option<Self>)
        ensures
            r is Some <==> object_kind(o) == Self::spec_kind(),
            r matches Some(x) ==> x.spec_wrap() == o,
    ;

    fn project_mut(o: &mut HeapObject) -> (r: Option<&mut Self>)
        ensures
            r is Some <==> object_kind(*old(o)) == Self::spec_kind(),
            r matches Some(x) ==> (*x).spec_wrap() == *old(o) && *final(o) == (*final(x)).spec_wrap(),
            r is None ==> *final(o) == *old(o),
    ;

    proof fn lemma_wrap_kind(x: Self)
        ensures
            object_kind(x.spec_wrap()) == Self::spec_kind(),
    ;
}

/// A typed handle to a heap cell.
#[derive(Debug)]
pub struct Gc<T> {
    pub index: u64,
    pub marker: core::marker::PhantomData<T>,
}

impl<T> Clone for Gc<T> {
    fn clone(&self) -> (r: Self)
        ensures
            r.index == self.index,
    {
        Gc { index: self.index, marker: core::marker::PhantomData }
    }
}

impl<T: HeapTyped> Gc<T> {
    /// The handle names a cell of this type.
    pub open spec fn valid(&self, gc: &GC) -> bool {
        &&& gc.wf()
        &&& self.index < gc.cells().len()
        &&& object_kind(gc.cells()[self.index as int].value) == T::spec_kind()
    }

    /// Allocates a cell holding `value`; strings get the string class.
    pub fn new(gc: &mut GC, value: T) -> (r: Self)
        requires
            old(gc).wf(),
            old(gc).has_room(),
        ensures
            final(gc).wf(),
            r.index == old(gc).cells().len(),
            final(gc).cells() == old(gc).cells().push(
                GcBox {
                    header: GCHeader {
                        marked: false,
                        obj_type: obj_type_for(T::spec_kind()),
                        kind: T::spec_kind(),
                    },
                    value: value.spec_wrap(),
                },
            ),
            r.valid(&*final(gc)),
    {
        let kind = T::kind();
        let obj_type = if kind == HeapKind::String {
            ObjType::String
        } else {
            ObjType::Object
        };
        let header = GCHeader::with_kind(obj_type, kind);
        let index = gc.allocate(header, value.wrap());
        Gc { index, marker: core::marker::PhantomData }
    }

    /// The object of the cell.
    pub fn borrow<'a>(&self, gc: &'a GC) -> (r: &'a T)
        requires
            self.valid(gc),
        ensures
            r.spec_wrap() == gc.cells()[self.index as int].value,
    {
        match T::project(gc.object(self.index)) {
            Some(x) => x,
            None => {
                proof {
                    assert(false);
                }
                vstd::pervasive::unreached()
            },
        }
    }

    /// Mutable access to the object of the cell; the cell keeps its header.
    pub fn borrow_mut<'a>(&self, gc: &'a mut GC) -> (r: &'a mut T)
        requires
            self.valid(&*old(gc)),
        ensures
            (*r).spec_wrap() == old(gc).cells()[self.index as int].value,
            final(gc).cells() == old(gc).cells().update(
                self.index as int,
                GcBox {
                    header: old(gc).cells()[self.index as int].header,
                    value: (*final(r)).spec_wrap(),
                },
            ),
            final(gc).allocated_count() == old(gc).allocated_count(),
            final(gc).wf(),
            self.valid(&*final(gc)),
    {
        proof {
            assert forall|x: T| #[trigger] object_kind(x.spec_wrap()) == T::spec_kind() by {
                T::lemma_wrap_kind(x);
            }
        }
        let cell = gc.cell_mut(self.index);
        match T::project_mut(&mut cell.value) {
            Some(x) => x,
            None => {
                proof {
                    assert(false);
                }
                vstd::pervasive::unreached()
            },
        }
    }

    /// Replaces the object of the cell, returning the previous one.
    pub fn replace(&self, gc: &mut GC, value: T) -> (r: T)
        requires
            self.valid(&*old(gc)),
        ensures
            final(gc).wf(),
            r.spec_wrap() == old(gc).cells()[self.index as int].value,
            final(gc).cells() == old(gc).cells().update(
                self.index as int,
                GcBox { header: old(gc).cells()[self.index as int].header, value: value.spec_wrap() },
            ),
            self.valid(&*final(gc)),
    {
        let old_obj = gc.replace_object(self.index, value.wrap());
        match T::unwrap_owned(old_obj) {
            Some(x) => x,
            None => {
                proof {
                    assert(false);
                }
                vstd::pervasive::unreached()
            },
        }
    }

    /// The handle of the cell.
    pub fn as_ptr(&self) -> (r: u64)
        ensures
            r == self.index,
    {
        self.index
    }

    /// The value that refers to the cell.
    pub fn to_value(&self, gc: &GC) -> (r: Value)
        requires
            self.valid(gc),
        ensures
            r@ == crate::value::ValueView::Heap(self.index),
    {
        Value::heap(self.index)
    }
}

} // verus!
