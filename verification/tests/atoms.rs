use lib::atoms::{Atom, AtomTable, PropFlags, Shape};
use lib::heap::QObject;
use lib::value::Value;

#[test]
fn intern_then_resolve_gives_the_text() {
    let mut t = AtomTable::new();
    let a = t.intern("length");
    assert_eq!(t.resolve(a), "length");
    assert_eq!(t.count(), 1);
}

#[test]
fn interning_twice_gives_the_same_atom() {
    let mut t = AtomTable::new();
    let a = t.intern("x");
    let b = t.intern("x");
    assert_eq!(a, b);
    assert_eq!(t.count(), 1);
}

#[test]
fn distinct_texts_get_distinct_atoms() {
    let mut t = AtomTable::new();
    let a = t.intern("a");
    let b = t.intern("b");
    assert_ne!(a, b);
    assert_eq!(a, Atom(0));
    assert_eq!(b, Atom(1));
    assert_eq!(t.resolve(a), "a");
    assert_eq!(t.resolve(b), "b");
    assert_eq!(t.count(), 2);
}

#[test]
fn sweep_frees_unmarked_and_keeps_marked() {
    let mut t = AtomTable::new();
    let a = t.intern("keep");
    let b = t.intern("drop");
    t.mark(a);
    t.sweep();
    assert_eq!(t.count(), 1);
    assert_eq!(t.resolve(a), "keep");
    // The freed slot is reused for the next new text.
    let c = t.intern("fresh");
    assert_eq!(c, b);
    assert_eq!(t.resolve(c), "fresh");
    // The mark was cleared by the sweep, so a second sweep frees `keep`.
    t.sweep();
    assert_eq!(t.count(), 0);
}

#[test]
fn marking_a_dead_atom_does_nothing() {
    let mut t = AtomTable::new();
    t.mark(Atom(5));
    t.sweep();
    assert_eq!(t.count(), 0);
}

#[test]
fn shape_transitions_assign_slots_in_order() {
    let s0 = Shape::new();
    assert_eq!(s0.len(), 0);
    let s1 = s0.transition(Atom(3));
    let s2 = s1.transition(Atom(9));
    assert_eq!(s2.len(), 2);
    assert_eq!(s2.get(Atom(3)), Some(0));
    assert_eq!(s2.get(Atom(9)), Some(1));
    assert_eq!(s2.get(Atom(4)), None);
    // The source shapes are untouched.
    assert_eq!(s1.len(), 1);
    assert_eq!(s0.get(Atom(3)), None);
    let copy = s2.duplicate();
    assert_eq!(copy.get(Atom(9)), Some(1));
}

#[test]
fn prop_flags_bits() {
    assert_eq!(PropFlags::writable(), PropFlags(1));
    assert_eq!(PropFlags::enumerable(), PropFlags(2));
    assert_eq!(PropFlags::configurable(), PropFlags(4));
}

#[test]
fn object_get_after_set() {
    let mut o = QObject::new(Shape::new());
    assert_eq!(o.get(Atom(1)), None);
    o.set(Atom(1), Value::i32(10));
    o.set(Atom(2), Value::i32(20));
    assert_eq!(o.get(Atom(1)), Some(Value::i32(10)));
    assert_eq!(o.get(Atom(2)), Some(Value::i32(20)));
    o.set(Atom(1), Value::null());
    assert_eq!(o.get(Atom(1)), Some(Value::null()));
    assert_eq!(o.get(Atom(2)), Some(Value::i32(20)));
    assert_eq!(o.shape.len(), 2);
    assert_eq!(o.values.len(), 2);
    assert_eq!(o.get(Atom(3)), None);
}

#[test]
fn object_slots_past_the_values_fill_with_undefined() {
    let shape = Shape::new().transition(Atom(1)).transition(Atom(2));
    let mut o = QObject::new(shape);
    assert_eq!(o.get(Atom(1)), None);
    o.set(Atom(2), Value::i32(5));
    assert_eq!(o.get(Atom(1)), Some(Value::undefined()));
    assert_eq!(o.get(Atom(2)), Some(Value::i32(5)));
}

#[test]
fn sorted_props_orders_by_atom_number() {
    let shape = Shape::new().transition(Atom(5)).transition(Atom(2)).transition(Atom(9));
    assert_eq!(shape.sorted_props(), vec![(Atom(2), 1), (Atom(5), 0), (Atom(9), 2)]);
    assert_eq!(Shape::new().sorted_props(), vec![]);
}

#[test]
fn freed_slots_stay_in_the_table() {
    let mut t = AtomTable::new();
    let a = t.intern("a");
    let b = t.intern("b");
    t.mark(a);
    t.sweep();
    assert!(t.has_atom(a));
    assert!(!t.has_atom(b));
    assert!(!t.has_atom(Atom(7)));
    assert_eq!(t.count(), 1);
    assert_eq!(t.table_len(), 2);
}

#[test]
fn interning_counts_new_texts_only() {
    let mut t = AtomTable::new();
    t.intern("a");
    assert_eq!(t.count(), 1);
    t.intern("a");
    assert_eq!(t.count(), 1);
    t.intern("b");
    assert_eq!(t.count(), 2);
}

#[test]
fn a_marked_atom_keeps_its_text_through_sweeps() {
    let mut t = AtomTable::new();
    let a = t.intern("kept");
    let b = t.intern("other");
    for _ in 0..3 {
        t.mark(a);
        t.sweep();
        assert_eq!(t.resolve(a), "kept");
    }
    let c = t.intern("new");
    assert_eq!(c, b);
    assert_eq!(t.resolve(a), "kept");
}

#[test]
fn freed_slots_are_reused_last_freed_first() {
    let mut t = AtomTable::new();
    let a = t.intern("a");
    let b = t.intern("b");
    let c = t.intern("c");
    t.mark(b);
    t.sweep();
    // `a` and `c` were freed in that order; the last one freed is reused first.
    assert_eq!(t.intern("x"), c);
    assert_eq!(t.intern("y"), a);
    assert_eq!(t.intern("z"), Atom(3));
}

#[test]
fn a_sweep_keeps_the_marked_count_and_a_second_sweep_empties() {
    let mut t = AtomTable::new();
    let a = t.intern("a");
    let _b = t.intern("b");
    let c = t.intern("c");
    t.mark(a);
    t.mark(c);
    t.sweep();
    assert_eq!(t.count(), 2);
    assert_eq!(t.resolve(a), "a");
    assert_eq!(t.resolve(c), "c");
    assert!(!t.has_atom(Atom(1)));
    t.sweep();
    assert_eq!(t.count(), 0);
}

#[test]
fn interning_a_run_counts_the_distinct_texts() {
    let mut t = AtomTable::new();
    for s in ["x", "y", "x", "z", "y", "x"] {
        t.intern(s);
    }
    assert_eq!(t.count(), 3);
}

#[test]
fn marking_keeps_the_count_and_the_texts() {
    let mut t = AtomTable::new();
    let a = t.intern("a");
    let b = t.intern("b");
    t.mark(a);
    t.mark(Atom(77));
    assert_eq!(t.count(), 2);
    assert_eq!(t.resolve(a), "a");
    assert_eq!(t.resolve(b), "b");
}

#[test]
fn tracing_an_object_then_sweeping_keeps_its_keys() {
    let mut t = AtomTable::new();
    let k1 = t.intern("k1");
    let other = t.intern("other");
    let k2 = t.intern("k2");
    let mut o = QObject::new(Shape::new());
    o.set(k1, Value::i32(1));
    o.set(k2, Value::i32(2));
    o.trace_atoms(&mut t);
    t.sweep();
    assert!(t.has_atom(k1));
    assert!(t.has_atom(k2));
    assert!(!t.has_atom(other));
    assert_eq!(t.resolve(k2), "k2");
    assert_eq!(t.count(), 2);
}

#[test]
fn setting_a_new_key_grows_the_shape_by_one() {
    let mut o = QObject::new(Shape::new());
    o.set(Atom(4), Value::i32(1));
    assert_eq!(o.shape.len(), 1);
    o.set(Atom(4), Value::i32(2));
    assert_eq!(o.shape.len(), 1);
    o.set(Atom(5), Value::i32(3));
    assert_eq!(o.shape.len(), 2);
    assert_eq!(o.values.len(), o.shape.len());
}

#[test]
fn a_string_cell_reads_back_its_interned_text() {
    let mut t = AtomTable::new();
    let a = t.intern("hello");
    let q = lib::heap::QString::new(a);
    assert_eq!(q.text(&t), "hello");
    assert!(!q.header.marked);
    assert!(matches!(q.header.kind, lib::value::HeapKind::String));
}

#[test]
fn a_swept_text_is_interned_anew() {
    let mut t = AtomTable::new();
    let a = t.intern("gone");
    t.sweep();
    assert!(!t.has_atom(a));
    assert_eq!(t.count(), 0);
    let b = t.intern("gone");
    assert_eq!(t.resolve(b), "gone");
    assert_eq!(t.count(), 1);
}
