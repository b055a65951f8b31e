//! Building the value that a failed call throws: an object whose
//! `__vm_throw` property holds a `TypeError` object.
use vstd::prelude::*;

use crate::atoms::{intern_post, is_live, text_of, texts_unique, Atom, EntryView, Shape};
use crate::gc::{Gc, HeapObject};
use crate::heap::{law_get_after_set, object_get, set_slot, slots_dense, QObject};
use crate::runtime::{atom_room, atoms_grow, lemma_grow_trans, lemma_intern_grows, refers_to, room_for, Context};
use crate::value::{Value, ValueView};

verus! {

/// `a` is a live atom of `t` with text `s`.
pub open spec fn names(t: Seq<Option<EntryView>>, a: Atom, s: Seq<char>) -> bool {
    is_live(t, a) && text_of(t, a) == s
}

/// The value bound to `name` by the first binding at or after `i`.
pub open spec fn binding_from(globals: Seq<(Atom, Value)>, name: Atom, i: int) -> Option<Value>
    decreases globals.len() - i,
{
    if i < 0 || i >= globals.len() {
        None
    } else if globals[i].0 == name {
        Some(globals[i].1)
    } else {
        binding_from(globals, name, i + 1)
    }
}

/// The value of the global `name`: its first binding.
pub open spec fn global_binding(globals: Seq<(Atom, Value)>, name: Atom) -> Option<Value> {
    binding_from(globals, name, 0)
}

impl Context {
    /// The value of the global `name`, if it is bound.
    pub fn global(&self, name: Atom) -> (r: Option<Value>)
        ensures
            r == global_binding(self.globals@, name),
    {
        let mut i: usize = 0;
        while i < self.globals.len()
            invariant
                i <= self.globals@.len(),
                binding_from(self.globals@, name, 0) == binding_from(self.globals@, name, i as int),
            decreases self.globals@.len() - i,
        {
            if self.globals[i].0 == name {
                return Some(self.globals[i].1);
            }
            i = i + 1;
        }
        None
    }
}

/// A live atom named `s` in `t` stays so in any table that `t` grows into.
proof fn lemma_names_grow(t: Seq<Option<EntryView>>, u: Seq<Option<EntryView>>, a: Atom, s: Seq<char>)
    requires
        names(t, a, s),
        atoms_grow(t, u),
    ensures
        names(u, a, s),
{
    assert(u[a.0 as int] == t[a.0 as int]);
}

/// With distinct texts, one atom at most is named `s`.
proof fn lemma_names_unique(t: Seq<Option<EntryView>>, a: Atom, b: Atom, s: Seq<char>)
    requires
        texts_unique(t),
        names(t, a, s),
        names(t, b, s),
    ensures
        a == b,
{
    if a.0 != b.0 {
        assert(t[a.0 as int]->Some_0.text == t[b.0 as int]->Some_0.text);
    }
}

/// What a thrown `TypeError` looks like: `error` is an object with the
/// object prototype whose `name` is a string cell `name_cell`, whose
/// `message` is `msg_cell` and whose `constructor` is the global
/// `TypeError`, when that is bound (otherwise it has no constructor).
pub open spec fn type_error_object(
    e: QObject,
    t: Seq<Option<EntryView>>,
    proto: u64,
    name_cell: u64,
    msg_cell: u64,
    globals: Seq<(Atom, Value)>,
) -> bool {
    &&& refers_to(e.prototype, proto)
    &&& !e.is_html_dda
    &&& forall|a: Atom| #[trigger] names(t, a, "name"@) ==> refers_to(object_get(e, a), name_cell)
    &&& forall|a: Atom| #[trigger] names(t, a, "message"@) ==> refers_to(object_get(e, a), msg_cell)
    &&& forall|a: Atom, b: Atom|
        #[trigger] names(t, a, "constructor"@) && #[trigger] names(t, b, "TypeError"@) ==> object_get(e, a)
            == global_binding(globals, b)
}

/// What `make_type_error_throw` leaves when `k` cells were allocated after
/// `before`: `after` is `before` with `k` + 4 more cells, the last four
/// being the error object, the string `"TypeError"`, the message string and
/// the thrown object, and with more atoms; `r` refers to the thrown object,
/// whose `__vm_throw` property refers to the error object.
pub open spec fn thrown_type_error_at(
    before: &Context,
    after: &Context,
    k: nat,
    message: Seq<char>,
    r: Value,
) -> bool {
    let n = before.cells().len() + k;
    let t = after.rt.atoms@;
    &&& after.grew(before, k + 4)
    &&& atoms_grow(before.rt.atoms@, t)
    &&& r@ == ValueView::Heap((n + 3) as u64)
    &&& after.cell(n as u64) matches HeapObject::Object(e) && type_error_object(
        e,
        t,
        before.object_proto.index,
        (n + 1) as u64,
        (n + 2) as u64,
        before.globals@,
    )
    &&& after.cell((n + 1) as u64) matches HeapObject::String(q) && names(t, q.atom, "TypeError"@)
    &&& after.cell((n + 2) as u64) matches HeapObject::String(q) && names(t, q.atom, message)
    &&& after.cell((n + 3) as u64) matches HeapObject::Object(o) && refers_to(
        o.prototype,
        before.object_proto.index,
    ) && !o.is_html_dda && forall|a: Atom|
        #[trigger] names(t, a, "__vm_throw"@) ==> refers_to(object_get(o, a), n as u64)
}

/// What `make_type_error_throw` leaves; see `thrown_type_error_at`.
pub open spec fn thrown_type_error(before: &Context, after: &Context, message: Seq<char>, r: Value) -> bool {
    thrown_type_error_at(before, after, 0, message, r)
}

/// Builds the value a call throws for a `TypeError` with `message`. It
/// allocates, in order, the error object, the string `"TypeError"`, the
/// message string, and the thrown object, whose `__vm_throw` property
/// refers to the error object; the result refers to the thrown object.
#[verifier::rlimit(50)]
pub fn make_type_error_throw(ctx: &mut Context, message: &str) -> (r: Value)
    requires
        old(ctx).wf(),
        room_for(&old(ctx).rt.gc, 4),
        atom_room(&old(ctx).rt.atoms, 7),
    ensures
        thrown_type_error(&*old(ctx), &*final(ctx), message@, r),
        final(ctx).rt.atoms@.len() <= old(ctx).rt.atoms@.len() + 7,
{
    let ghost n: int = ctx.cells().len() as int;
    let ghost c0 = ctx.cells();
    let ghost t0 = ctx.rt.atoms@;
    let error = ctx.new_object();
    let ghost c1 = ctx.cells();
    let atom_name = ctx.intern("name");
    let ghost t1 = ctx.rt.atoms@;
    let atom_message = ctx.intern("message");
    let ghost t2 = ctx.rt.atoms@;
    let atom_ctor = ctx.intern("constructor");
    let ghost t3 = ctx.rt.atoms@;
    let name_value = Value::from_str_with_context(ctx, "TypeError");
    let ghost t4 = ctx.rt.atoms@;
    let ghost c2 = ctx.cells();
    let message_value = Value::from_owned_string_with_context(ctx, message.to_string());
    let ghost t5 = ctx.rt.atoms@;
    let ghost c3 = ctx.cells();
    let type_error = ctx.intern("TypeError");
    let ghost t6 = ctx.rt.atoms@;
    proof {
        lemma_intern_grows(t0, "name"@, t1, atom_name);
        lemma_intern_grows(t1, "message"@, t2, atom_message);
        lemma_intern_grows(t2, "constructor"@, t3, atom_ctor);
        lemma_grow_trans(t1, t2, t3);
        lemma_grow_trans(t2, t3, t4);
        lemma_grow_trans(t3, t4, t5);
        assert(c3[n + 1] == c2[n + 1]);
        assert(c2[n] == c1[n]);
        assert(c3[n] == c2[n]);
        lemma_intern_grows(t5, "TypeError"@, t6, type_error);
        reveal_strlit("name");
        reveal_strlit("message");
        reveal_strlit("constructor");
        lemma_names_grow(t1, t3, atom_name, "name"@);
        lemma_names_grow(t2, t3, atom_message, "message"@);
        assert(atom_name != atom_message) by {
            assert("name"@.len() != "message"@.len());
            assert(text_of(t3, atom_name) != text_of(t3, atom_message));
        }
        assert(atom_ctor != atom_name) by {
            assert("name"@.len() != "constructor"@.len());
            assert(text_of(t3, atom_name) != text_of(t3, atom_ctor));
        }
        assert(atom_ctor != atom_message) by {
            assert("message"@.len() != "constructor"@.len());
            assert(text_of(t3, atom_message) != text_of(t3, atom_ctor));
        }
    }
    let mut obj = QObject::new(ctx.empty_shape.duplicate());
    obj.prototype = Some(ctx.object_proto.to_value(&ctx.rt.gc));
    let ghost o0 = obj;
    proof {
        ctx.empty_shape.lemma_slots_finite();
        assert(obj.shape.slots().dom() =~= Set::<Atom>::empty());
    }
    obj.set(atom_name, name_value);
    let ghost o1 = obj;
    proof {
        law_get_after_set(o0, atom_name, name_value, o1, atom_name);
    }
    obj.set(atom_message, message_value);
    let ghost o2 = obj;
    proof {
        law_get_after_set(o1, atom_message, message_value, o2, atom_name);
    }
    proof {
        assert(o2.shape.slots().dom() =~= set![atom_name, atom_message]);
        assert(object_get(o2, atom_ctor) is None);
    }
    let ctor = ctx.global(type_error);
    if let Some(c) = ctor {
        obj.set(atom_ctor, c);
        proof {
            law_get_after_set(o2, atom_ctor, c, obj, atom_name);
            law_get_after_set(o2, atom_ctor, c, obj, atom_message);
        }
    }
    let ghost o3 = obj;
    error.replace(&mut ctx.rt.gc, obj);
    let ghost c4 = ctx.cells();
    let thrown = ctx.new_object();
    let ghost c5 = ctx.cells();
    let ghost t7 = ctx.rt.atoms@;
    let atom_throw = ctx.intern("__vm_throw");
    let ghost t8 = ctx.rt.atoms@;
    let mut wrapper = QObject::new(ctx.empty_shape.duplicate());
    wrapper.prototype = Some(ctx.object_proto.to_value(&ctx.rt.gc));
    let ghost w0 = wrapper;
    proof {
        ctx.empty_shape.lemma_slots_finite();
        assert(wrapper.shape.slots().dom() =~= Set::<Atom>::empty());
    }
    let error_value = error.to_value(&ctx.rt.gc);
    wrapper.set(atom_throw, error_value);
    proof {
        law_get_after_set(w0, atom_throw, error_value, wrapper, atom_throw);
    }
    thrown.replace(&mut ctx.rt.gc, wrapper);
    let ghost c6 = ctx.cells();
    proof {
        lemma_intern_grows(t7, "__vm_throw"@, t8, atom_throw);
        assert(t6 == t7);
        lemma_grow_trans(t5, t6, t8);
        lemma_grow_trans(t3, t5, t8);
        lemma_grow_trans(t1, t3, t8);
        lemma_grow_trans(t0, t1, t8);
        assert(c6.len() == n + 4);
        assert forall|i: int| 0 <= i < n implies #[trigger] c6[i] == c0[i] by {
            assert(c1[i] == c0[i]);
            assert(c2[i] == c1[i]);
            assert(c3[i] == c2[i]);
            assert(c4[i] == c3[i]);
            assert(c5[i] == c4[i]);
        }
        assert(c6.take(n) =~= c0);
        assert(c6[n + 1] == c3[n + 1]) by {
            assert(c4[n + 1] == c3[n + 1]);
            assert(c5[n + 1] == c4[n + 1]);
        }
        assert(c6[n + 2] == c3[n + 2]) by {
            assert(c4[n + 2] == c3[n + 2]);
            assert(c5[n + 2] == c4[n + 2]);
        }
        assert(c6[n].value == HeapObject::Object(o3)) by {
            assert(c5[n] == c4[n]);
        }
        ctx.rt.atoms.lemma_wf_unique();
        lemma_names_grow(t1, t8, atom_name, "name"@);
        lemma_names_grow(t2, t8, atom_message, "message"@);
        lemma_names_grow(t3, t8, atom_ctor, "constructor"@);
        lemma_names_grow(t6, t8, type_error, "TypeError"@);
        assert forall|a: Atom| #[trigger] names(t8, a, "name"@) implies refers_to(object_get(o3, a), (n + 1) as u64) by {
            lemma_names_unique(t8, a, atom_name, "name"@);
        }
        assert forall|a: Atom| #[trigger] names(t8, a, "message"@) implies refers_to(object_get(o3, a), (n + 2) as u64) by {
            lemma_names_unique(t8, a, atom_message, "message"@);
        }
        assert forall|a: Atom, b: Atom|
            #[trigger] names(t8, a, "constructor"@) && #[trigger] names(t8, b, "TypeError"@) implies object_get(o3, a)
                == global_binding(old(ctx).globals@, b) by {
            lemma_names_unique(t8, a, atom_ctor, "constructor"@);
            lemma_names_unique(t8, b, type_error, "TypeError"@);
        }
        assert forall|a: Atom| #[trigger] names(t8, a, "__vm_throw"@) implies refers_to(object_get(wrapper, a), n as u64) by {
            lemma_names_unique(t8, a, atom_throw, "__vm_throw"@);
        }
    }
    thrown.to_value(&ctx.rt.gc)
}

} // verus!
