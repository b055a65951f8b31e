use lib::atoms::Atom;
use lib::gc::Gc;
use lib::heap::{
    QArray, QBoolArray, QFloat64Array, QInt32Array, QObject, QString, QStringArray, QUint8Array,
};
use lib::js_value::construct::{
    array_value, atom_object_value, atom_string_array_value, bool_array_value, float64_array_value,
    int32_array_value, object_value, string_array_value, uint8_array_value,
    utf16_string_array_value, utf16_string_value,
};
use lib::runtime::{Context, Runtime};
use lib::value::Value;

fn context() -> Context {
    Context::new(Runtime::new(3))
}

fn string_text(ctx: &Context, v: Value) -> String {
    let s = Gc::<QString>::from_value(v, &ctx.rt.gc).expect("a string");
    ctx.resolve(s.borrow(&ctx.rt.gc).atom)
}

#[test]
fn arrays_hold_their_values_in_order() {
    let mut ctx = context();
    let v = array_value(&mut ctx, &[Value::i32(1), Value::null(), Value::bool(true)]);
    let a = Gc::<QArray>::from_value(v, &ctx.rt.gc).unwrap();
    let a = a.borrow(&ctx.rt.gc);
    assert_eq!(a.elements, vec![Value::i32(1), Value::null(), Value::bool(true)]);
    assert_eq!(a.length, 3);
    assert_eq!(ctx.object_count(), 3);
}

#[test]
fn typed_arrays_hold_their_elements() {
    let mut ctx = context();
    let b = bool_array_value(&mut ctx, &[true, false]);
    let u = uint8_array_value(&mut ctx, &[7, 255]);
    let i = int32_array_value(&mut ctx, &[-1, 2, -3]);
    let f = float64_array_value(&mut ctx, &[1.5f64.to_bits()]);
    let gc = &ctx.rt.gc;
    assert_eq!(Gc::<QBoolArray>::from_value(b, gc).unwrap().borrow(gc).elements, vec![true, false]);
    assert_eq!(Gc::<QUint8Array>::from_value(u, gc).unwrap().borrow(gc).elements, vec![7, 255]);
    assert_eq!(Gc::<QInt32Array>::from_value(i, gc).unwrap().borrow(gc).elements, vec![-1, 2, -3]);
    assert_eq!(
        Gc::<QFloat64Array>::from_value(f, gc).unwrap().borrow(gc).elements,
        vec![1.5f64.to_bits()]
    );
    assert_eq!(ctx.object_count(), 6);
}

#[test]
fn string_arrays_allocate_one_string_each() {
    let mut ctx = context();
    let v = string_array_value(&mut ctx, &[String::from("a"), String::from("bc"), String::from("a")]);
    assert_eq!(ctx.object_count(), 6);
    assert_eq!(ctx.atom_count(), 2);
    let elems = Gc::<QStringArray>::from_value(v, &ctx.rt.gc).unwrap().borrow(&ctx.rt.gc).elements.clone();
    let texts: Vec<String> = elems.iter().map(|e| string_text(&ctx, *e)).collect();
    assert_eq!(texts, vec!["a", "bc", "a"]);
}

#[test]
fn atom_string_arrays_use_the_atom_texts() {
    let mut ctx = context();
    let x = ctx.intern("x");
    let y = ctx.intern("why");
    let v = atom_string_array_value(&mut ctx, &[y, x]);
    assert_eq!(ctx.atom_count(), 2);
    let elems = Gc::<QStringArray>::from_value(v, &ctx.rt.gc).unwrap().borrow(&ctx.rt.gc).elements.clone();
    let texts: Vec<String> = elems.iter().map(|e| string_text(&ctx, *e)).collect();
    assert_eq!(texts, vec!["why", "x"]);
}

#[test]
fn utf16_text_pairs_surrogates_and_replaces_lone_ones() {
    let mut ctx = context();
    let v = utf16_string_value(&mut ctx, &[0x48, 0xD83D, 0xDE00, 0xDC00, 0x69]);
    assert_eq!(string_text(&ctx, v), "H\u{1F600}\u{FFFD}i");
    let w = utf16_string_array_value(&mut ctx, &[vec![0x61, 0x62], vec![0xD800]]);
    let elems = Gc::<QStringArray>::from_value(w, &ctx.rt.gc).unwrap().borrow(&ctx.rt.gc).elements.clone();
    let texts: Vec<String> = elems.iter().map(|e| string_text(&ctx, *e)).collect();
    assert_eq!(texts, vec!["ab", "\u{FFFD}"]);
}

#[test]
fn objects_keep_the_last_value_of_a_key() {
    let mut ctx = context();
    let v = object_value(
        &mut ctx,
        &[
            (String::from("k"), Value::i32(1)),
            (String::from("m"), Value::i32(2)),
            (String::from("k"), Value::i32(3)),
        ],
    );
    let k = ctx.intern("k");
    let m = ctx.intern("m");
    let z = ctx.intern("z");
    let o = Gc::<QObject>::from_value(v, &ctx.rt.gc).unwrap();
    let o = o.borrow(&ctx.rt.gc);
    assert_eq!(o.get(k), Some(Value::i32(3)));
    assert_eq!(o.get(m), Some(Value::i32(2)));
    assert_eq!(o.get(z), None);
    assert_eq!(o.values.len(), 2);
}

#[test]
fn atom_keyed_objects_keep_the_last_value_of_a_key() {
    let mut ctx = context();
    let v = atom_object_value(
        &mut ctx,
        &[(Atom(4), Value::bool(true)), (Atom(4), Value::bool(false)), (Atom(9), Value::null())],
    );
    let o = Gc::<QObject>::from_value(v, &ctx.rt.gc).unwrap();
    let o = o.borrow(&ctx.rt.gc);
    assert_eq!(o.get(Atom(4)), Some(Value::bool(false)));
    assert_eq!(o.get(Atom(9)), Some(Value::null()));
    assert_eq!(o.get(Atom(5)), None);
    assert_eq!(ctx.atom_count(), 0);
}
