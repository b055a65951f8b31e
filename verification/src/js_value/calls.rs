//! What calling or constructing a value does, one step at a time: the host
//! callback to run, the value to forward the call to, or the error to throw.
//! The caller runs the callbacks, which are host functions known by number.
use vstd::prelude::*;

use crate::gc::{Gc, GcBox, HeapObject};
use crate::heap::{QNativeClosure, QNativeFunction, QObject};
use crate::js_value::type_error::{make_type_error_throw, thrown_type_error, thrown_type_error_at};
use crate::js_value::{atom_of, kind_in, lemma_atom_of_grows, marker, merge_bound_args, merged_args, prop_view, truthy};
use crate::runtime::{atom_room, atoms_grow, fresh_object, lemma_grow_trans, room_for, Context};
use crate::value::{HeapKind, Value, ValueView};

verus! {

/// The next step of a call.
#[derive(Debug)]
pub enum CallAction {
    /// Run the host callback with this number on `this` and the arguments.
    Invoke(usize, Value, Vec<Value>),
    /// Call the target instead, on `this` and the arguments.
    Forward(Value, Value, Vec<Value>),
    /// The call throws the value.
    Throw(Value),
}

/// The next step of a construction.
#[derive(Debug)]
pub enum ConstructAction {
    /// Run the host callback with this number on the new instance and the
    /// arguments; a result that refers to a cell replaces the instance.
    Invoke(usize, Value, Vec<Value>),
    /// Construct the target instead, with the arguments.
    Forward(Value, Vec<Value>),
    /// The construction throws the value.
    Throw(Value),
}

/// `after` is `before` with at most more atoms.
pub open spec fn only_atoms_grew(before: &Context, after: &Context) -> bool {
    &&& after.wf()
    &&& after.same_frame(before)
    &&& after.cells() == before.cells()
    &&& atoms_grow(before.rt.atoms@, after.rt.atoms@)
}

/// The callback of the native function cell that `v` refers to.
pub open spec fn native_callback(cells: Seq<GcBox>, v: ValueView) -> usize {
    cells[v->Heap_0 as int].value->NativeFunction_0.callback
}

/// The marker property `key` of `o`, keyed by the atom of `key` in `t`.
pub open spec fn marker_of(o: QObject, t: Seq<Option<crate::atoms::EntryView>>, key: Seq<char>) -> ValueView {
    prop_view(o, atom_of(t, key))
}

/// What one step of calling `callee` on `this` with `args` gives. Host
/// functions and closures run their callback. An object with a truthy
/// `__vm_bound_target` forwards to it, with `__vm_bound_this` and the bound
/// arguments first; an object whose `__vm_native_fn` is a host function
/// runs its callback. Everything else throws a `TypeError` "not a function".
pub open spec fn call_plan(
    before: &Context,
    after: &Context,
    callee: Value,
    this: Value,
    args: Seq<Value>,
    r: CallAction,
) -> bool {
    let cells = before.cells();
    let t = after.rt.atoms@;
    match kind_in(cells, callee@) {
        Some(HeapKind::NativeFunction) => {
            &&& only_atoms_grew(before, after)
            &&& r matches CallAction::Invoke(cb, th, a) && cb == native_callback(cells, callee@)
                && th == this && a@ == args
        },
        Some(HeapKind::NativeClosure) => {
            &&& only_atoms_grew(before, after)
            &&& r matches CallAction::Invoke(cb, th, a) && cb == cells[callee@->Heap_0 as int].value->NativeClosure_0.callback
                && th == this && a@ == args
        },
        Some(HeapKind::Object) => {
            let o = cells[callee@->Heap_0 as int].value->Object_0;
            let bound = marker_of(o, t, "__vm_bound_target"@);
            let native = marker_of(o, t, "__vm_native_fn"@);
            if truthy(cells, bound) {
                &&& only_atoms_grew(before, after)
                &&& r matches CallAction::Forward(tg, th, a) && tg@ == bound && th@ == marker_of(
                    o,
                    t,
                    "__vm_bound_this"@,
                ) && a@ == merged_args(cells, marker_of(o, t, "__vm_bound_args"@), args)
            } else if kind_in(cells, native) == Some(HeapKind::NativeFunction) {
                &&& only_atoms_grew(before, after)
                &&& r matches CallAction::Invoke(cb, th, a) && cb == native_callback(cells, native)
                    && th == this && a@ == args
            } else {
                r matches CallAction::Throw(v) && thrown_type_error(before, after, "not a function"@, v)
            }
        },
        _ => r matches CallAction::Throw(v) && thrown_type_error(before, after, "not a function"@, v),
    }
}

/// The prototype cell of a constructed object: the constructor's
/// `prototype` when that is an object cell once the new object is
/// allocated (it may name the new object itself), else the object
/// prototype.
pub open spec fn instance_proto_of(before: &Context, proto: ValueView) -> u64 {
    if kind_in(before.cells(), proto) == Some(HeapKind::Object) || proto == ValueView::Heap(
        before.cells().len() as u64,
    ) {
        proto->Heap_0
    } else {
        before.object_proto.index
    }
}

/// `after` is `before` with a new object (prototype `proto`) in the next
/// cell and then a thrown `TypeError` "not a constructor".
pub open spec fn instance_then_throw(before: &Context, after: &Context, proto: u64, v: Value) -> bool {
    &&& after.cell(before.cells().len() as u64) matches HeapObject::Object(i) && fresh_object(i, Some(proto))
    &&& thrown_type_error_at(before, after, 1, "not a constructor"@, v)
}

/// What one step of constructing with `callee` and `args` gives. Only
/// object cells construct: one with a truthy `__vm_no_construct` throws; one
/// with a truthy `__vm_bound_target` forwards to it with the bound arguments
/// first; otherwise a new object is allocated, whose prototype is the
/// callee's `prototype` when that is an object cell (else the object
/// prototype), and the callee's `__vm_native_fn` host function runs on it;
/// without one, the construction throws. Throws are `TypeError`s "not a
/// constructor".
pub open spec fn construct_plan(
    before: &Context,
    after: &Context,
    callee: Value,
    args: Seq<Value>,
    r: ConstructAction,
) -> bool {
    let cells = before.cells();
    let n = cells.len();
    let t = after.rt.atoms@;
    if kind_in(cells, callee@) == Some(HeapKind::Object) {
        let o = cells[callee@->Heap_0 as int].value->Object_0;
        let bound = marker_of(o, t, "__vm_bound_target"@);
        let native = marker_of(o, t, "__vm_native_fn"@);
        let proto = marker_of(o, t, "prototype"@);
        let instance_proto = instance_proto_of(before, proto);
        if truthy(cells, marker_of(o, t, "__vm_no_construct"@)) {
            r matches ConstructAction::Throw(v) && thrown_type_error(before, after, "not a constructor"@, v)
        } else if truthy(cells, bound) {
            &&& only_atoms_grew(before, after)
            &&& r matches ConstructAction::Forward(tg, a) && tg@ == bound && a@ == merged_args(
                cells,
                marker_of(o, t, "__vm_bound_args"@),
                args,
            )
        } else if kind_in(cells, native) == Some(HeapKind::NativeFunction) {
            &&& after.grew(before, 1)
            &&& atoms_grow(before.rt.atoms@, t)
            &&& after.cell(n as u64) matches HeapObject::Object(i) && fresh_object(i, Some(instance_proto))
            &&& r matches ConstructAction::Invoke(cb, inst, a) && cb == native_callback(cells, native)
                && inst@ == ValueView::Heap(n as u64) && a@ == args
        } else {
            r matches ConstructAction::Throw(v) && instance_then_throw(before, after, instance_proto, v)
        }
    } else {
        r matches ConstructAction::Throw(v) && thrown_type_error(before, after, "not a constructor"@, v)
    }
}

/// A copy of the arguments.
fn copy_args(args: &[Value]) -> (r: Vec<Value>)
    ensures
        r@ == args@,
{
    let mut out: Vec<Value> = Vec::new();
    let mut i: usize = 0;
    while i < args.len()
        invariant
            i <= args@.len(),
            out@ == args@.take(i as int),
        decreases args@.len() - i,
    {
        out.push(args[i]);
        proof {
            assert(args@.take(i + 1) =~= args@.take(i as int).push(args@[i as int]));
        }
        i = i + 1;
    }
    proof {
        assert(args@.take(args@.len() as int) =~= args@);
    }
    out
}

/// One step of calling `callee` on `this` with `args`; see `call_plan`.
pub fn call_step(ctx: &mut Context, callee: Value, this: Value, args: &[Value]) -> (r: CallAction)
    requires
        old(ctx).wf(),
        room_for(&old(ctx).rt.gc, 4),
        atom_room(&old(ctx).rt.atoms, 11),
    ensures
        call_plan(&*old(ctx), &*final(ctx), callee, this, args@, r),
        final(ctx).rt.atoms@.len() <= old(ctx).rt.atoms@.len() + 11,
{
    let kind = callee.heap_kind(&ctx.rt.gc);
    if kind == Some(HeapKind::NativeFunction) {
        if let Ok(f) = Gc::<QNativeFunction>::from_value(callee, &ctx.rt.gc) {
            let cb = f.borrow(&ctx.rt.gc).callback;
            return CallAction::Invoke(cb, this, copy_args(args));
        }
    } else if kind == Some(HeapKind::NativeClosure) {
        if let Ok(f) = Gc::<QNativeClosure>::from_value(callee, &ctx.rt.gc) {
            let cb = f.borrow(&ctx.rt.gc).callback;
            return CallAction::Invoke(cb, this, copy_args(args));
        }
    } else if kind == Some(HeapKind::Object) {
        if let Ok(obj) = Gc::<QObject>::from_value(callee, &ctx.rt.gc) {
            let ghost before = *ctx;
            let ghost cells = ctx.cells();
            let ghost t0 = ctx.rt.atoms@;
            let bound_target = marker(ctx, &obj, "__vm_bound_target");
            let ghost t1 = ctx.rt.atoms@;
            let bound_this = marker(ctx, &obj, "__vm_bound_this");
            let ghost t2 = ctx.rt.atoms@;
            let bound_args = marker(ctx, &obj, "__vm_bound_args");
            let ghost t3 = ctx.rt.atoms@;
            let native = marker(ctx, &obj, "__vm_native_fn");
            let ghost t4 = ctx.rt.atoms@;
            proof {
                lemma_grow_trans(t0, t1, t2);
                lemma_grow_trans(t0, t2, t3);
                lemma_grow_trans(t0, t3, t4);
                lemma_grow_trans(t1, t2, t3);
                lemma_grow_trans(t1, t3, t4);
                lemma_grow_trans(t2, t3, t4);
                ctx.rt.atoms.lemma_wf_unique();
                lemma_atom_of_grows(t1, t4, atom_of(t1, "__vm_bound_target"@), "__vm_bound_target"@);
                lemma_atom_of_grows(t2, t4, atom_of(t2, "__vm_bound_this"@), "__vm_bound_this"@);
                lemma_atom_of_grows(t3, t4, atom_of(t3, "__vm_bound_args"@), "__vm_bound_args"@);
            }
            if bound_target.is_truthy(&ctx.rt.gc) {
                let merged = merge_bound_args(bound_args, args, &ctx.rt.gc);
                return CallAction::Forward(bound_target, bound_this, merged);
            }
            if let Ok(f) = Gc::<QNativeFunction>::from_value(native, &ctx.rt.gc) {
                let cb = f.borrow(&ctx.rt.gc).callback;
                return CallAction::Invoke(cb, this, copy_args(args));
            }
            let ghost mid = *ctx;
            let thrown = make_type_error_throw(ctx, "not a function");
            proof {
                lemma_throw_after_atoms(&before, &mid, &*ctx, "not a function"@, thrown);
                ctx.rt.atoms.lemma_wf_unique();
                lemma_atom_of_grows(t4, ctx.rt.atoms@, atom_of(t4, "__vm_bound_target"@), "__vm_bound_target"@);
                lemma_atom_of_grows(t4, ctx.rt.atoms@, atom_of(t4, "__vm_native_fn"@), "__vm_native_fn"@);
            }
            return CallAction::Throw(thrown);
        }
    }
    CallAction::Throw(make_type_error_throw(ctx, "not a function"))
}

/// A throw built after only interning is described against the context
/// before the interning.
proof fn lemma_throw_after_atoms(before: &Context, mid: &Context, after: &Context, msg: Seq<char>, v: Value)
    requires
        only_atoms_grew(before, mid),
        thrown_type_error(mid, after, msg, v),
    ensures
        thrown_type_error(before, after, msg, v),
{
    lemma_grow_trans(before.rt.atoms@, mid.rt.atoms@, after.rt.atoms@);
}

/// A throw built right after allocating one cell is described against the
/// context before the allocation.
proof fn lemma_throw_after_instance(before: &Context, mid: &Context, after: &Context, v: Value)
    requires
        mid.grew(before, 1),
        atoms_grow(before.rt.atoms@, mid.rt.atoms@),
        thrown_type_error(mid, after, "not a constructor"@, v),
    ensures
        thrown_type_error_at(before, after, 1, "not a constructor"@, v),
        after.cell(before.cells().len() as u64) == mid.cell(before.cells().len() as u64),
{
    let n = before.cells().len();
    lemma_grow_trans(before.rt.atoms@, mid.rt.atoms@, after.rt.atoms@);
    assert(after.cells()[n as int] == mid.cells()[n as int]);
    assert(after.cells().take(n as int) =~= before.cells()) by {
        assert forall|i: int| 0 <= i < n implies after.cells()[i] == before.cells()[i] by {
            assert(after.cells()[i] == mid.cells()[i]);
            assert(mid.cells()[i] == before.cells()[i]);
        }
    }
}

/// One step of constructing with `callee` and `args`; see `construct_plan`.
pub fn construct_step(ctx: &mut Context, callee: Value, args: &[Value]) -> (r: ConstructAction)
    requires
        old(ctx).wf(),
        room_for(&old(ctx).rt.gc, 5),
        atom_room(&old(ctx).rt.atoms, 12),
    ensures
        construct_plan(&*old(ctx), &*final(ctx), callee, args@, r),
        final(ctx).rt.atoms@.len() <= old(ctx).rt.atoms@.len() + 12,
{
    if callee.heap_kind(&ctx.rt.gc) == Some(HeapKind::Object) {
        if let Ok(obj) = Gc::<QObject>::from_value(callee, &ctx.rt.gc) {
            let ghost before = *ctx;
            let ghost cells = ctx.cells();
            let ghost t0 = ctx.rt.atoms@;
            let no_construct = marker(ctx, &obj, "__vm_no_construct");
            let ghost t1 = ctx.rt.atoms@;
            let bound_target = marker(ctx, &obj, "__vm_bound_target");
            let ghost t2 = ctx.rt.atoms@;
            let bound_args = marker(ctx, &obj, "__vm_bound_args");
            let ghost t3 = ctx.rt.atoms@;
            let native = marker(ctx, &obj, "__vm_native_fn");
            let ghost t4 = ctx.rt.atoms@;
            let proto = marker(ctx, &obj, "prototype");
            let ghost t5 = ctx.rt.atoms@;
            proof {
                lemma_grow_trans(t0, t1, t2);
                lemma_grow_trans(t0, t2, t3);
                lemma_grow_trans(t0, t3, t4);
                lemma_grow_trans(t0, t4, t5);
                lemma_grow_trans(t1, t2, t3);
                lemma_grow_trans(t1, t3, t4);
                lemma_grow_trans(t1, t4, t5);
                lemma_grow_trans(t2, t3, t4);
                lemma_grow_trans(t2, t4, t5);
                lemma_grow_trans(t3, t4, t5);
                ctx.rt.atoms.lemma_wf_unique();
                lemma_atom_of_grows(t1, t5, atom_of(t1, "__vm_no_construct"@), "__vm_no_construct"@);
                lemma_atom_of_grows(t2, t5, atom_of(t2, "__vm_bound_target"@), "__vm_bound_target"@);
                lemma_atom_of_grows(t3, t5, atom_of(t3, "__vm_bound_args"@), "__vm_bound_args"@);
                lemma_atom_of_grows(t4, t5, atom_of(t4, "__vm_native_fn"@), "__vm_native_fn"@);
            }
            if no_construct.is_truthy(&ctx.rt.gc) {
                let ghost mid = *ctx;
                let thrown = make_type_error_throw(ctx, "not a constructor");
                proof {
                    lemma_throw_after_atoms(&before, &mid, &*ctx, "not a constructor"@, thrown);
                    ctx.rt.atoms.lemma_wf_unique();
                    lemma_atom_of_grows(t5, ctx.rt.atoms@, atom_of(t5, "__vm_no_construct"@), "__vm_no_construct"@);
                }
                return ConstructAction::Throw(thrown);
            }
            if bound_target.is_truthy(&ctx.rt.gc) {
                let merged = merge_bound_args(bound_args, args, &ctx.rt.gc);
                return ConstructAction::Forward(bound_target, merged);
            }
            let ghost pre = *ctx;
            let instance = ctx.new_object();
            let ghost allocated = *ctx;
            if proto.heap_kind(&ctx.rt.gc) == Some(HeapKind::Object) {
                let mut fresh = QObject::new(ctx.empty_shape.duplicate());
                fresh.prototype = Some(proto);
                let ghost f = fresh;
                instance.replace(&mut ctx.rt.gc, fresh);
                proof {
                    assert(ctx.cell(instance.index) == HeapObject::Object(f));
                    assert(fresh_object(f, Some(instance_proto_of(&before, proto@))));
                    assert(ctx.cells().take(cells.len() as int) =~= allocated.cells().take(cells.len() as int));
                }
            }
            let ghost mid = *ctx;
            proof {
                assert(mid.cells().take(cells.len() as int) =~= cells);
                assert(mid.cell(cells.len() as u64) matches HeapObject::Object(i) && fresh_object(
                    i,
                    Some(instance_proto_of(&before, proto@)),
                ));
                assert(mid.grew(&before, 1));
            }
            let instance_value = instance.to_value(&ctx.rt.gc);
            if let Ok(f) = Gc::<QNativeFunction>::from_value(native, &ctx.rt.gc) {
                let cb = f.borrow(&ctx.rt.gc).callback;
                return ConstructAction::Invoke(cb, instance_value, copy_args(args));
            }
            let thrown = make_type_error_throw(ctx, "not a constructor");
            proof {
                ctx.rt.atoms.lemma_wf_unique();
                lemma_grow_trans(t5, mid.rt.atoms@, ctx.rt.atoms@);
                lemma_atom_of_grows(t5, ctx.rt.atoms@, atom_of(t5, "__vm_no_construct"@), "__vm_no_construct"@);
                lemma_atom_of_grows(t5, ctx.rt.atoms@, atom_of(t5, "__vm_bound_target"@), "__vm_bound_target"@);
                lemma_atom_of_grows(t5, ctx.rt.atoms@, atom_of(t5, "__vm_native_fn"@), "__vm_native_fn"@);
                lemma_atom_of_grows(t5, ctx.rt.atoms@, atom_of(t5, "prototype"@), "prototype"@);
                let o = cells[callee@->Heap_0 as int].value->Object_0;
                let t = ctx.rt.atoms@;
                assert(native@ == marker_of(o, t, "__vm_native_fn"@));
                assert(proto@ == marker_of(o, t, "prototype"@));
                assert(bound_target@ == marker_of(o, t, "__vm_bound_target"@));
                assert(no_construct@ == marker_of(o, t, "__vm_no_construct"@));
                assert(kind_in(cells, native@) != Some(HeapKind::NativeFunction)) by {
                    if native@ is Heap && native@->Heap_0 < cells.len() {
                        assert(mid.cells()[native@->Heap_0 as int] == cells[native@->Heap_0 as int]);
                    }
                }
                lemma_throw_after_instance(&before, &mid, &*ctx, thrown);
                assert(instance_then_throw(
                    &before,
                    &*ctx,
                    instance_proto_of(&before, marker_of(o, t, "prototype"@)),
                    thrown,
                ));
            }
            return ConstructAction::Throw(thrown);
        }
    }
    ConstructAction::Throw(make_type_error_throw(ctx, "not a constructor"))
}

} // verus!
