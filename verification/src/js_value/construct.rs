//! Values built from Rust data in a context: arrays of values, typed
//! arrays, arrays of strings, UTF-16 text and objects from key/value
//! entries.
use vstd::prelude::*;

use crate::atoms::{contains_text, intern_post, is_live, text_of, texts_unique, Atom, EntryView};
use crate::fmt::{utf16_lossy, utf16_text};
use crate::gc::{Gc, GcBox, HeapObject, HeapTyped};
use crate::heap::{
    law_get_after_set, object_get, slots_dense, QArray, QBoolArray, QFloat64Array, QInt32Array, QObject, QString, QStringArray, QUint8Array,
};
use crate::runtime::{
    atom_room, atoms_grow, fresh_object, refers_to, lemma_grow_trans, lemma_intern_grows, room_for, Context,
};
use crate::value::{Value, ValueView};

verus! {

/// `mid` grew from `before` by one cell `i`, whose object two replacements
/// turned into `x`: so `after` grew from `before` by that cell.
proof fn lemma_refilled(
    before: Context,
    mid: Context,
    placed: Context,
    after: Context,
    y: HeapObject,
    x: HeapObject,
)
    requires
        mid.grew(&before, 1),
        placed.same_frame(&mid),
        after.wf(),
        after.same_frame(&placed),
        placed.cells() == mid.cells().update(
            before.cells().len() as int,
            GcBox { header: mid.cells()[before.cells().len() as int].header, value: y },
        ),
        after.cells() == placed.cells().update(
            before.cells().len() as int,
            GcBox { header: placed.cells()[before.cells().len() as int].header, value: x },
        ),
    ensures
        after.grew(&before, 1),
        after.cells()[before.cells().len() as int].value == x,
{
    assert(after.cells().take(before.cells().len() as int) =~= mid.cells().take(
        before.cells().len() as int,
    ));
}

/// An array holding `values` in order, whose prototype is the array
/// prototype.
pub fn array_value(ctx: &mut Context, values: &[Value]) -> (r: Value)
    requires
        old(ctx).wf(),
        room_for(&old(ctx).rt.gc, 1),
    ensures
        final(ctx).grew(&*old(ctx), 1),
        final(ctx).rt.atoms@ == old(ctx).rt.atoms@,
        r@ == ValueView::Heap(old(ctx).cells().len() as u64),
        final(ctx).cell(old(ctx).cells().len() as u64) matches HeapObject::Array(a)
            && a.elements@ == values@ && a.length == values@.len() && a.sparse is None
            && a.shared_buffer is None && fresh_object(a.object, Some(old(ctx).array_proto.index)),
{
    let array = ctx.new_array();
    let ghost mid = *ctx;
    let shape = ctx.empty_shape.duplicate();
    let placeholder = QArray::new(shape);
    let ghost y = placeholder.spec_wrap();
    let mut a = ctx.replace_cell(&array, placeholder);
    let ghost placed = *ctx;
    let ghost first = a;
    let mut i: usize = 0;
    while i < values.len()
        invariant
            i <= values.len(),
            a.elements@ == values@.take(i as int),
            a.length == i,
            a.sparse is None,
            a.shared_buffer is None,
            a.object == first.object,
        decreases values.len() - i,
    {
        a.push(values[i]);
        assert(values@.take(i + 1) =~= values@.take(i as int).push(values[i as int]));
        i += 1;
    }
    assert(values@.take(i as int) =~= values@);
    let ghost filled = a;
    ctx.replace_cell(&array, a);
    proof {
        lemma_refilled(*old(ctx), mid, placed, *ctx, y, filled.spec_wrap());
    }
    array.to_value(&ctx.rt.gc)
}

/// A boolean array holding `values` in order, whose prototype is the object
/// prototype.
pub fn bool_array_value(ctx: &mut Context, values: &[bool]) -> (r: Value)
    requires
        old(ctx).wf(),
        room_for(&old(ctx).rt.gc, 1),
    ensures
        final(ctx).grew(&*old(ctx), 1),
        final(ctx).rt.atoms@ == old(ctx).rt.atoms@,
        r@ == ValueView::Heap(old(ctx).cells().len() as u64),
        final(ctx).cell(old(ctx).cells().len() as u64) matches HeapObject::BoolArray(a)
            && a.elements@ == values@ && fresh_object(a.object, Some(old(ctx).object_proto.index)),
{
    let array = ctx.new_bool_array();
    let ghost mid = *ctx;
    let shape = ctx.empty_shape.duplicate();
    let placeholder = QBoolArray::new(shape);
    let ghost y = placeholder.spec_wrap();
    let mut a = ctx.replace_cell(&array, placeholder);
    let ghost placed = *ctx;
    let ghost first = a;
    let mut i: usize = 0;
    while i < values.len()
        invariant
            i <= values.len(),
            a.elements@ == values@.take(i as int),
            a.object == first.object,
        decreases values.len() - i,
    {
        a.push(values[i]);
        assert(values@.take(i + 1) =~= values@.take(i as int).push(values[i as int]));
        i += 1;
    }
    assert(values@.take(i as int) =~= values@);
    let ghost filled = a;
    ctx.replace_cell(&array, a);
    proof {
        lemma_refilled(*old(ctx), mid, placed, *ctx, y, filled.spec_wrap());
    }
    array.to_value(&ctx.rt.gc)
}

/// A byte array holding `values` in order, whose prototype is the object
/// prototype.
pub fn uint8_array_value(ctx: &mut Context, values: &[u8]) -> (r: Value)
    requires
        old(ctx).wf(),
        room_for(&old(ctx).rt.gc, 1),
    ensures
        final(ctx).grew(&*old(ctx), 1),
        final(ctx).rt.atoms@ == old(ctx).rt.atoms@,
        r@ == ValueView::Heap(old(ctx).cells().len() as u64),
        final(ctx).cell(old(ctx).cells().len() as u64) matches HeapObject::Uint8Array(a)
            && a.elements@ == values@ && fresh_object(a.object, Some(old(ctx).object_proto.index)),
{
    let array = ctx.new_uint8_array();
    let ghost mid = *ctx;
    let shape = ctx.empty_shape.duplicate();
    let placeholder = QUint8Array::new(shape);
    let ghost y = placeholder.spec_wrap();
    let mut a = ctx.replace_cell(&array, placeholder);
    let ghost placed = *ctx;
    let ghost first = a;
    let mut i: usize = 0;
    while i < values.len()
        invariant
            i <= values.len(),
            a.elements@ == values@.take(i as int),
            a.object == first.object,
        decreases values.len() - i,
    {
        a.push(values[i]);
        assert(values@.take(i + 1) =~= values@.take(i as int).push(values[i as int]));
        i += 1;
    }
    assert(values@.take(i as int) =~= values@);
    let ghost filled = a;
    ctx.replace_cell(&array, a);
    proof {
        lemma_refilled(*old(ctx), mid, placed, *ctx, y, filled.spec_wrap());
    }
    array.to_value(&ctx.rt.gc)
}

/// A 32-bit integer array holding `values` in order, whose prototype is the
/// object prototype.
pub fn int32_array_value(ctx: &mut Context, values: &[i32]) -> (r: Value)
    requires
        old(ctx).wf(),
        room_for(&old(ctx).rt.gc, 1),
    ensures
        final(ctx).grew(&*old(ctx), 1),
        final(ctx).rt.atoms@ == old(ctx).rt.atoms@,
        r@ == ValueView::Heap(old(ctx).cells().len() as u64),
        final(ctx).cell(old(ctx).cells().len() as u64) matches HeapObject::Int32Array(a)
            && a.elements@ == values@ && fresh_object(a.object, Some(old(ctx).object_proto.index)),
{
    let array = ctx.new_int32_array();
    let ghost mid = *ctx;
    let shape = ctx.empty_shape.duplicate();
    let placeholder = QInt32Array::new(shape);
    let ghost y = placeholder.spec_wrap();
    let mut a = ctx.replace_cell(&array, placeholder);
    let ghost placed = *ctx;
    let ghost first = a;
    let mut i: usize = 0;
    while i < values.len()
        invariant
            i <= values.len(),
            a.elements@ == values@.take(i as int),
            a.object == first.object,
        decreases values.len() - i,
    {
        a.push(values[i]);
        assert(values@.take(i + 1) =~= values@.take(i as int).push(values[i as int]));
        i += 1;
    }
    assert(values@.take(i as int) =~= values@);
    let ghost filled = a;
    ctx.replace_cell(&array, a);
    proof {
        lemma_refilled(*old(ctx), mid, placed, *ctx, y, filled.spec_wrap());
    }
    array.to_value(&ctx.rt.gc)
}

/// An array of doubles, given by their bit patterns, holding `values` in
/// order, whose prototype is the object prototype.
pub fn float64_array_value(ctx: &mut Context, values: &[u64]) -> (r: Value)
    requires
        old(ctx).wf(),
        room_for(&old(ctx).rt.gc, 1),
    ensures
        final(ctx).grew(&*old(ctx), 1),
        final(ctx).rt.atoms@ == old(ctx).rt.atoms@,
        r@ == ValueView::Heap(old(ctx).cells().len() as u64),
        final(ctx).cell(old(ctx).cells().len() as u64) matches HeapObject::Float64Array(a)
            && a.elements@ == values@ && fresh_object(a.object, Some(old(ctx).object_proto.index)),
{
    let array = ctx.new_float64_array();
    let ghost mid = *ctx;
    let shape = ctx.empty_shape.duplicate();
    let placeholder = QFloat64Array::new(shape);
    let ghost y = placeholder.spec_wrap();
    let mut a = ctx.replace_cell(&array, placeholder);
    let ghost placed = *ctx;
    let ghost first = a;
    let mut i: usize = 0;
    while i < values.len()
        invariant
            i <= values.len(),
            a.elements@ == values@.take(i as int),
            a.object == first.object,
        decreases values.len() - i,
    {
        a.push(values[i]);
        assert(values@.take(i + 1) =~= values@.take(i as int).push(values[i as int]));
        i += 1;
    }
    assert(values@.take(i as int) =~= values@);
    let ghost filled = a;
    ctx.replace_cell(&array, a);
    proof {
        lemma_refilled(*old(ctx), mid, placed, *ctx, y, filled.spec_wrap());
    }
    array.to_value(&ctx.rt.gc)
}

/// Cell `i` holds a string whose atom is live in `t` with the text `s`.
pub open spec fn string_cell_is(
    cells: Seq<GcBox>,
    t: Seq<Option<EntryView>>,
    i: int,
    s: Seq<char>,
) -> bool {
    cells[i].value matches HeapObject::String(q) && is_live(t, q.atom) && text_of(t, q.atom) == s
}

/// `elems` refer, in order, to the string cells from `start` on, whose texts
/// are `texts`.
pub open spec fn strings_from(
    cells: Seq<GcBox>,
    t: Seq<Option<EntryView>>,
    start: int,
    elems: Seq<Value>,
    texts: Seq<Seq<char>>,
) -> bool {
    &&& elems.len() == texts.len()
    &&& forall|j: int|
        0 <= j < texts.len() ==> (#[trigger] elems[j])@ == ValueView::Heap((start + j) as u64)
            && string_cell_is(cells, t, start + j, texts[j])
}

/// The texts of the strings.
pub open spec fn texts_of(strings: Seq<String>) -> Seq<Seq<char>> {
    strings.map_values(|s: String| s@)
}

/// Cells below `n` and live atoms stay as they were, so the strings read
/// before are read again.
proof fn lemma_strings_kept(
    c1: Seq<GcBox>,
    t1: Seq<Option<EntryView>>,
    c2: Seq<GcBox>,
    t2: Seq<Option<EntryView>>,
    start: int,
    elems: Seq<Value>,
    texts: Seq<Seq<char>>,
)
    requires
        strings_from(c1, t1, start, elems, texts),
        0 <= start,
        start + texts.len() <= c1.len(),
        forall|k: int| start <= k < start + texts.len() ==> #[trigger] c2[k] == c1[k],
        atoms_grow(t1, t2),
    ensures
        strings_from(c2, t2, start, elems, texts),
{
    assert forall|j: int| 0 <= j < texts.len() implies string_cell_is(c2, t2, start + j, texts[j]) by {
        assert(elems[j]@ == ValueView::Heap((start + j) as u64));
        assert(c2[start + j] == c1[start + j]);
        let q = c1[start + j].value->String_0;
        assert(t2[q.atom.0 as int] == t1[q.atom.0 as int]);
    }
}

/// An array of new string objects holding `strings` in order, whose
/// prototype is the object prototype; the strings are allocated after the
/// array, one cell each, and their texts interned.
pub fn string_array_value(ctx: &mut Context, strings: &[String]) -> (r: Value)
    requires
        old(ctx).wf(),
        room_for(&old(ctx).rt.gc, strings@.len() + 1),
        atom_room(&old(ctx).rt.atoms, strings@.len()),
    ensures
        final(ctx).grew(&*old(ctx), strings@.len() + 1),
        atoms_grow(old(ctx).rt.atoms@, final(ctx).rt.atoms@),
        r@ == ValueView::Heap(old(ctx).cells().len() as u64),
        final(ctx).cell(old(ctx).cells().len() as u64) matches HeapObject::StringArray(a)
            && fresh_object(a.object, Some(old(ctx).object_proto.index)) && strings_from(
            final(ctx).cells(),
            final(ctx).rt.atoms@,
            old(ctx).cells().len() + 1int,
            a.elements@,
            texts_of(strings@),
        ),
{
    let ghost start = *ctx;
    let ghost base = ctx.cells().len() as int;
    let array = ctx.new_string_array();
    let ghost mid = *ctx;
    let shape = ctx.empty_shape.duplicate();
    let placeholder = QStringArray::new(shape);
    let ghost y = placeholder.spec_wrap();
    let mut a = ctx.replace_cell(&array, placeholder);
    let ghost first = a;
    let ghost slot = GcBox { header: mid.cells()[base].header, value: y };
    proof {
        assert(ctx.cells().take(base) =~= start.cells());
    }
    let mut i: usize = 0;
    while i < strings.len()
        invariant
            i <= strings.len(),
            base == start.cells().len(),
            array.index == base,
            ctx.wf(),
            ctx.same_frame(&start),
            ctx.cells().len() == base + 1 + i,
            ctx.cells().take(base) == start.cells(),
            ctx.cells()[base] == slot,
            slot.value == y,
            y is StringArray,
            atoms_grow(start.rt.atoms@, ctx.rt.atoms@),
            atom_room(&ctx.rt.atoms, (strings@.len() - i) as nat),
            room_for(&ctx.rt.gc, (strings@.len() - i) as nat),
            a.object == first.object,
            strings_from(ctx.cells(), ctx.rt.atoms@, base + 1, a.elements@, texts_of(strings@).take(i as int)),
        decreases strings.len() - i,
    {
        let ghost before = *ctx;
        let string = ctx.new_string(strings[i].as_str());
        let v = string.to_value(&ctx.rt.gc);
        proof {
            let q = ctx.cell(string.index)->String_0;
            lemma_intern_grows(before.rt.atoms@, strings@[i as int]@, ctx.rt.atoms@, q.atom);
            lemma_grow_trans(start.rt.atoms@, before.rt.atoms@, ctx.rt.atoms@);
            assert forall|k: int| base + 1 <= k < base + 1 + i implies #[trigger] ctx.cells()[k]
                == before.cells()[k] by {
                assert(ctx.cells()[k] == ctx.cells().take(before.cells().len() as int)[k]);
            }
            lemma_strings_kept(
                before.cells(),
                before.rt.atoms@,
                ctx.cells(),
                ctx.rt.atoms@,
                base + 1,
                a.elements@,
                texts_of(strings@).take(i as int),
            );
            assert(ctx.cells().take(base) =~= before.cells().take(base));
            assert(ctx.cells()[base] == before.cells()[base]);
        }
        let ghost prev = a.elements@;
        a.push(v);
        proof {
            let texts = texts_of(strings@).take(i + 1);
            assert(texts =~= texts_of(strings@).take(i as int).push(strings@[i as int]@));
            assert forall|j: int| 0 <= j < texts.len() implies (#[trigger] a.elements@[j])@
                == ValueView::Heap((base + 1 + j) as u64) && string_cell_is(
                ctx.cells(),
                ctx.rt.atoms@,
                base + 1 + j,
                texts[j],
            ) by {
                if j < i {
                    assert(a.elements@[j] == prev[j]);
                }
            }
        }
        i += 1;
    }
    assert(texts_of(strings@).take(i as int) =~= texts_of(strings@));
    let ghost filled = a;
    let ghost looped = *ctx;
    ctx.replace_cell(&array, a);
    proof {
        assert(ctx.cells().take(base) =~= looped.cells().take(base));
        lemma_strings_kept(
            looped.cells(),
            looped.rt.atoms@,
            looped.cells().update(base, GcBox { header: slot.header, value: filled.spec_wrap() }),
            ctx.rt.atoms@,
            base + 1,
            filled.elements@,
            texts_of(strings@),
        );
    }
    array.to_value(&ctx.rt.gc)
}

/// The texts of live atoms.
pub open spec fn atom_texts(t: Seq<Option<EntryView>>, atoms: Seq<Atom>) -> Seq<Seq<char>> {
    atoms.map_values(|a: Atom| text_of(t, a))
}

/// An array of new string objects holding the texts of `atoms` in order,
/// as `string_array_value` makes it.
pub fn atom_string_array_value(ctx: &mut Context, atoms: &[Atom]) -> (r: Value)
    requires
        old(ctx).wf(),
        forall|i: int| 0 <= i < atoms@.len() ==> is_live(old(ctx).rt.atoms@, #[trigger] atoms@[i]),
        room_for(&old(ctx).rt.gc, atoms@.len() + 1),
        atom_room(&old(ctx).rt.atoms, atoms@.len()),
    ensures
        final(ctx).grew(&*old(ctx), atoms@.len() + 1),
        atoms_grow(old(ctx).rt.atoms@, final(ctx).rt.atoms@),
        r@ == ValueView::Heap(old(ctx).cells().len() as u64),
        final(ctx).cell(old(ctx).cells().len() as u64) matches HeapObject::StringArray(a)
            && fresh_object(a.object, Some(old(ctx).object_proto.index)) && strings_from(
            final(ctx).cells(),
            final(ctx).rt.atoms@,
            old(ctx).cells().len() + 1int,
            a.elements@,
            atom_texts(old(ctx).rt.atoms@, atoms@),
        ),
{
    let mut strings: Vec<String> = Vec::new();
    let mut i: usize = 0;
    while i < atoms.len()
        invariant
            i <= atoms.len(),
            ctx.wf(),
            forall|k: int| 0 <= k < atoms@.len() ==> is_live(ctx.rt.atoms@, #[trigger] atoms@[k]),
            texts_of(strings@) == atom_texts(ctx.rt.atoms@, atoms@).take(i as int),
        decreases atoms.len() - i,
    {
        let text = ctx.resolve(atoms[i]);
        let ghost prev = strings@;
        strings.push(text);
        proof {
            assert(texts_of(strings@) =~= texts_of(prev).push(text@));
            assert(atom_texts(ctx.rt.atoms@, atoms@).take(i + 1) =~= atom_texts(
                ctx.rt.atoms@,
                atoms@,
            ).take(i as int).push(text_of(ctx.rt.atoms@, atoms@[i as int])));
        }
        i += 1;
    }
    assert(atom_texts(ctx.rt.atoms@, atoms@).take(i as int) =~= atom_texts(ctx.rt.atoms@, atoms@));
    string_array_value(ctx, strings.as_slice())
}

/// The value of the last entry whose key is `a`.
pub open spec fn last_value(entries: Seq<(Atom, Value)>, a: Atom) -> Option<Value>
    decreases entries.len(),
{
    if entries.len() == 0 {
        None
    } else if entries.last().0 == a {
        Some(entries.last().1)
    } else {
        last_value(entries.drop_last(), a)
    }
}

/// The value of the last entry whose key has the text `s`.
pub open spec fn last_text_value(entries: Seq<(String, Value)>, s: Seq<char>) -> Option<Value>
    decreases entries.len(),
{
    if entries.len() == 0 {
        None
    } else if entries.last().0@ == s {
        Some(entries.last().1)
    } else {
        last_text_value(entries.drop_last(), s)
    }
}

/// An object of the object prototype, without `document.all` marking,
/// densely slotted, whose property `a` is the last value given for `a`.
pub open spec fn holds_entries(o: QObject, proto: u64, entries: Seq<(Atom, Value)>) -> bool {
    &&& o.wf()
    &&& slots_dense(o)
    &&& refers_to(o.prototype, proto)
    &&& !o.is_html_dda
    &&& forall|a: Atom| #[trigger] object_get(o, a) == last_value(entries, a)
}

/// An object whose properties are set from `entries` in order, so that a
/// key given twice keeps its last value; its prototype is the object
/// prototype.
pub fn atom_object_value(ctx: &mut Context, entries: &[(Atom, Value)]) -> (r: Value)
    requires
        old(ctx).wf(),
        room_for(&old(ctx).rt.gc, 1),
        entries@.len() < usize::MAX,
    ensures
        final(ctx).grew(&*old(ctx), 1),
        final(ctx).rt.atoms@ == old(ctx).rt.atoms@,
        r@ == ValueView::Heap(old(ctx).cells().len() as u64),
        final(ctx).cell(old(ctx).cells().len() as u64) matches HeapObject::Object(o) && holds_entries(
            o,
            old(ctx).object_proto.index,
            entries@,
        ),
{
    let object = ctx.new_object();
    let ghost mid = *ctx;
    let shape = ctx.empty_shape.duplicate();
    let placeholder = QObject::new(shape);
    let ghost y = placeholder.spec_wrap();
    let mut o = ctx.replace_cell(&object, placeholder);
    let ghost placed = *ctx;
    let ghost proto = old(ctx).object_proto.index;
    proof {
        assert(o.shape.slots().dom() =~= Set::<Atom>::empty());
        assert forall|a: Atom| #[trigger] object_get(o, a) == last_value(entries@.take(0), a) by {}
    }
    let mut i: usize = 0;
    while i < entries.len()
        invariant
            i <= entries.len(),
            entries@.len() < usize::MAX,
            o.shape.slots().dom().len() <= i,
            holds_entries(o, proto, entries@.take(i as int)),
        decreases entries.len() - i,
    {
        let (key, value) = entries[i];
        let ghost before = o;
        o.set(key, value);
        proof {
            let taken = entries@.take(i + 1);
            assert(taken.drop_last() =~= entries@.take(i as int));
            assert(taken.last() == (key, value));
            assert forall|a: Atom| #[trigger] object_get(o, a) == last_value(taken, a) by {
                law_get_after_set(before, key, value, o, a);
            }
            law_get_after_set(before, key, value, o, key);
            assert(o.shape.slots().dom().len() <= i + 1) by {
                if !before.shape.slots().contains_key(key) {
                    assert(o.shape.slots().dom() =~= before.shape.slots().dom().insert(key));
                }
            }
        }
        i += 1;
    }
    assert(entries@.take(i as int) =~= entries@);
    let ghost filled = o;
    ctx.replace_cell(&object, o);
    proof {
        lemma_refilled(*old(ctx), mid, placed, *ctx, y, filled.spec_wrap());
    }
    object.to_value(&ctx.rt.gc)
}

/// The atoms name the keys: each is live with its key's text, and carries
/// its entry's value.
pub open spec fn keys_named(
    t: Seq<Option<EntryView>>,
    pairs: Seq<(Atom, Value)>,
    entries: Seq<(String, Value)>,
) -> bool {
    &&& pairs.len() == entries.len()
    &&& forall|i: int|
        0 <= i < pairs.len() ==> is_live(t, (#[trigger] pairs[i]).0) && text_of(t, pairs[i].0)
            == entries[i].0@ && pairs[i].1 == entries[i].1
}

/// With distinct texts, reading by atom is reading by the atom's text.
proof fn lemma_keys_named(
    t: Seq<Option<EntryView>>,
    pairs: Seq<(Atom, Value)>,
    entries: Seq<(String, Value)>,
    a: Atom,
)
    requires
        texts_unique(t),
        keys_named(t, pairs, entries),
    ensures
        is_live(t, a) ==> last_value(pairs, a) == last_text_value(entries, text_of(t, a)),
        !is_live(t, a) ==> last_value(pairs, a) is None,
    decreases pairs.len(),
{
    if pairs.len() > 0 {
        let n = pairs.len() - 1;
        assert(is_live(t, pairs[n].0));
        assert(keys_named(t, pairs.drop_last(), entries.drop_last())) by {
            assert forall|i: int| 0 <= i < pairs.drop_last().len() implies is_live(
                t,
                (#[trigger] pairs.drop_last()[i]).0,
            ) && text_of(t, pairs.drop_last()[i].0) == entries.drop_last()[i].0@
                && pairs.drop_last()[i].1 == entries.drop_last()[i].1 by {
                assert(pairs.drop_last()[i] == pairs[i]);
            }
        }
        lemma_keys_named(t, pairs.drop_last(), entries.drop_last(), a);
        if is_live(t, a) && pairs[n].0 != a {
            assert(t[pairs[n].0.0 as int]->Some_0.text != t[a.0 as int]->Some_0.text);
        }
    }
}

/// An object whose properties are set from `entries` in order, each key
/// interned first, so that a key given twice keeps its last value; its
/// prototype is the object prototype.
pub fn object_value(ctx: &mut Context, entries: &[(String, Value)]) -> (r: Value)
    requires
        old(ctx).wf(),
        room_for(&old(ctx).rt.gc, 1),
        atom_room(&old(ctx).rt.atoms, entries@.len()),
        entries@.len() < usize::MAX,
    ensures
        final(ctx).grew(&*old(ctx), 1),
        atoms_grow(old(ctx).rt.atoms@, final(ctx).rt.atoms@),
        forall|i: int|
            0 <= i < entries@.len() ==> contains_text(final(ctx).rt.atoms@, (#[trigger] entries@[i]).0@),
        r@ == ValueView::Heap(old(ctx).cells().len() as u64),
        final(ctx).cell(old(ctx).cells().len() as u64) matches HeapObject::Object(o) && {
            &&& o.wf()
            &&& slots_dense(o)
            &&& refers_to(o.prototype, old(ctx).object_proto.index)
            &&& !o.is_html_dda
            &&& forall|a: Atom|
                #[trigger] object_get(o, a) == if is_live(final(ctx).rt.atoms@, a) {
                    last_text_value(entries@, text_of(final(ctx).rt.atoms@, a))
                } else {
                    None
                }
        },
{
    let ghost start = *ctx;
    let mut pairs: Vec<(Atom, Value)> = Vec::new();
    let mut i: usize = 0;
    while i < entries.len()
        invariant
            i <= entries.len(),
            ctx.wf(),
            ctx.cells() == start.cells(),
            ctx.same_frame(&start),
            atoms_grow(start.rt.atoms@, ctx.rt.atoms@),
            atom_room(&ctx.rt.atoms, (entries@.len() - i) as nat),
            keys_named(ctx.rt.atoms@, pairs@, entries@.take(i as int)),
        decreases entries.len() - i,
    {
        let ghost before = ctx.rt.atoms@;
        let key = ctx.intern(entries[i].0.as_str());
        proof {
            lemma_intern_grows(before, entries@[i as int].0@, ctx.rt.atoms@, key);
            lemma_grow_trans(start.rt.atoms@, before, ctx.rt.atoms@);
        }
        let ghost prev = pairs@;
        pairs.push((key, entries[i].1));
        proof {
            let taken = entries@.take(i + 1);
            assert forall|k: int| 0 <= k < pairs@.len() implies is_live(
                ctx.rt.atoms@,
                (#[trigger] pairs@[k]).0,
            ) && text_of(ctx.rt.atoms@, pairs@[k].0) == taken[k].0@ && pairs@[k].1 == taken[k].1 by {
                if k < i {
                    assert(pairs@[k] == prev[k]);
                    assert(ctx.rt.atoms@[pairs@[k].0.0 as int] == before[pairs@[k].0.0 as int]);
                }
            }
        }
        i += 1;
    }
    assert(entries@.take(i as int) =~= entries@);
    let ghost interned = *ctx;
    let r = atom_object_value(ctx, pairs.as_slice());
    proof {
        ctx.rt.atoms.lemma_wf_unique();
        assert forall|a: Atom| #[trigger] last_value(pairs@, a) == if is_live(ctx.rt.atoms@, a) {
            last_text_value(entries@, text_of(ctx.rt.atoms@, a))
        } else {
            None
        } by {
            lemma_keys_named(ctx.rt.atoms@, pairs@, entries@, a);
        }
        assert forall|k: int| 0 <= k < entries@.len() implies contains_text(
            ctx.rt.atoms@,
            (#[trigger] entries@[k]).0@,
        ) by {
            let a = pairs@[k].0;
            assert(ctx.rt.atoms@[a.0 as int] is Some);
        }
        assert(ctx.cells().take(start.cells().len() as int) == interned.cells().take(
            interned.cells().len() as int,
        ));
        assert(interned.cells().take(interned.cells().len() as int) =~= start.cells());
    }
    r
}

/// A string value holding the text of UTF-16 code units, unpaired
/// surrogates replaced by U+FFFD, as `Value::from_str_with_context` makes
/// it.
pub fn utf16_string_value(ctx: &mut Context, units: &[u16]) -> (r: Value)
    requires
        old(ctx).wf(),
        room_for(&old(ctx).rt.gc, 1),
        atom_room(&old(ctx).rt.atoms, 0),
    ensures
        final(ctx).grew(&*old(ctx), 1),
        r@ == ValueView::Heap(old(ctx).cells().len() as u64),
        final(ctx).cell(old(ctx).cells().len() as u64) matches HeapObject::String(q) && intern_post(
            old(ctx).rt.atoms@,
            utf16_lossy(units@),
            final(ctx).rt.atoms@,
            q.atom,
        ),
{
    let text = utf16_text(units);
    Value::from_str_with_context(ctx, text.as_str())
}

/// An array of new string objects holding the texts of the UTF-16 strings,
/// as `string_array_value` makes it.
pub fn utf16_string_array_value(ctx: &mut Context, strings: &[Vec<u16>]) -> (r: Value)
    requires
        old(ctx).wf(),
        room_for(&old(ctx).rt.gc, strings@.len() + 1),
        atom_room(&old(ctx).rt.atoms, strings@.len()),
    ensures
        final(ctx).grew(&*old(ctx), strings@.len() + 1),
        atoms_grow(old(ctx).rt.atoms@, final(ctx).rt.atoms@),
        r@ == ValueView::Heap(old(ctx).cells().len() as u64),
        final(ctx).cell(old(ctx).cells().len() as u64) matches HeapObject::StringArray(a)
            && fresh_object(a.object, Some(old(ctx).object_proto.index)) && strings_from(
            final(ctx).cells(),
            final(ctx).rt.atoms@,
            old(ctx).cells().len() + 1int,
            a.elements@,
            strings@.map_values(|u: Vec<u16>| utf16_lossy(u@)),
        ),
{
    let mut texts: Vec<String> = Vec::new();
    let mut i: usize = 0;
    while i < strings.len()
        invariant
            i <= strings.len(),
            texts_of(texts@) == strings@.map_values(|u: Vec<u16>| utf16_lossy(u@)).take(i as int),
        decreases strings.len() - i,
    {
        let text = utf16_text(strings[i].as_slice());
        let ghost prev = texts@;
        texts.push(text);
        proof {
            assert(texts_of(texts@) =~= texts_of(prev).push(text@));
            assert(strings@.map_values(|u: Vec<u16>| utf16_lossy(u@)).take(i + 1) =~= strings@.map_values(
                |u: Vec<u16>| utf16_lossy(u@),
            ).take(i as int).push(utf16_lossy(strings@[i as int]@)));
        }
        i += 1;
    }
    assert(strings@.map_values(|u: Vec<u16>| utf16_lossy(u@)).take(i as int) =~= strings@.map_values(
        |u: Vec<u16>| utf16_lossy(u@),
    ));
    string_array_value(ctx, texts.as_slice())
}

} // verus!
