use lib::js_value::{
    is_object, is_string, is_truthy, merge_bound_args, object_from_value, string_from_value, Numeric,
    StringForm,
};
use lib::ops::{
    add_numbers, AddPlan, BitwiseOps, EqPlan, LogicalOps, NullishOps, NumericPlan, Ternary, TypeOps,
};
use lib::runtime::{Context, Runtime};
use lib::value::{HeapKind, Value};

fn context() -> Context {
    Context::new(Runtime::new(1))
}

fn text_of(ctx: &Context, v: Value) -> String {
    ctx.resolve(v.as_atom().expect("an atom"))
}

#[test]
fn a_new_context_holds_the_two_prototypes() {
    let ctx = context();
    assert_eq!(ctx.object_count(), 2);
    assert_eq!(ctx.atom_count(), 0);
    assert!(!ctx.current_strict());
    assert_eq!(ctx.rt.id, 1);
}

#[test]
fn allocation_counts_cells() {
    let mut ctx = context();
    let o = ctx.new_object();
    let a = ctx.new_array();
    assert_eq!(o.index, 2);
    assert_eq!(a.index, 3);
    assert_eq!(ctx.object_count(), 4);
    let stats = ctx.collect(&[]);
    assert_eq!(stats.before, 4);
    assert_eq!(stats.after, 4);
    assert_eq!(stats.collected, 0);
    assert_eq!(ctx.object_count(), 4);
}

#[test]
fn strict_mode_flag() {
    let mut ctx = context();
    ctx.set_current_strict(true);
    assert!(ctx.current_strict());
    ctx.set_current_strict(false);
    assert!(!ctx.current_strict());
}

#[test]
fn strings_are_interned_cells() {
    let mut ctx = context();
    let v = Value::from_str_with_context(&mut ctx, "hello");
    let w = Value::from_string_with_context(&mut ctx, String::from("hello"));
    assert_ne!(v, w);
    assert_eq!(v.heap_kind(&ctx.rt.gc), Some(HeapKind::String));
    assert_eq!(ctx.atom_count(), 1);
    assert!(is_string(v, &ctx.rt.gc));
    assert!(!is_object(v, &ctx.rt.gc));
    assert_eq!(string_from_value(v, &ctx.rt.gc), Some(2));
    assert_eq!(object_from_value(v, &ctx.rt.gc), None);
    assert_eq!(v.type_label(&ctx.rt.gc), "string object");
    match v.to_string_with_context(&mut ctx) {
        StringForm::Atom(a) => assert_eq!(text_of(&ctx, a), "hello"),
        other => panic!("unexpected {:?}", other),
    }
}

#[test]
fn objects_are_objects() {
    let mut ctx = context();
    let o = ctx.new_object();
    let v = o.to_value(&ctx.rt.gc);
    assert!(is_object(v, &ctx.rt.gc));
    assert_eq!(object_from_value(v, &ctx.rt.gc), Some(2));
    assert_eq!(v.heap_kind(&ctx.rt.gc), Some(HeapKind::Object));
    assert_eq!(v.type_label(&ctx.rt.gc), "object");
    assert!(v.as_obj(&ctx.rt.gc).is_some());
    assert!(is_truthy(v, &ctx.rt.gc));
    assert!(!v.is_html_dda(&ctx.rt.gc));
}

#[test]
fn typeof_texts() {
    let mut ctx = context();
    let cases: Vec<(Value, &str)> = vec![
        (Value::i32(1), "number"),
        (Value::from_f64_bits(0.5f64.to_bits()), "number"),
        (Value::bool(true), "boolean"),
        (Value::undefined(), "undefined"),
        (Value::null(), "object"),
    ];
    for (v, expected) in cases {
        let t = v.typeof_with_context(&mut ctx);
        assert_eq!(text_of(&ctx, t), expected);
        let u = v.typeof_(&mut ctx);
        assert_eq!(text_of(&ctx, u), expected);
    }
    let f = ctx.new_function(Some("f"), &["a", "b"], vec![]);
    let fv = f.to_value(&ctx.rt.gc);
    let t = fv.typeof_with_context(&mut ctx);
    assert_eq!(text_of(&ctx, t), "function");
    let a = Value::atom(ctx.intern("s"));
    let t = a.typeof_with_context(&mut ctx);
    assert_eq!(text_of(&ctx, t), "string");
    // A string cell is an object to `typeof`; only atoms are strings.
    let s = Value::from_str_with_context(&mut ctx, "s");
    let t = s.typeof_with_context(&mut ctx);
    assert_eq!(text_of(&ctx, t), "object");
    let o = ctx.new_object().to_value(&ctx.rt.gc);
    let t = o.typeof_with_context(&mut ctx);
    assert_eq!(text_of(&ctx, t), "object");
}

#[test]
fn to_string_forms() {
    let mut ctx = context();
    let cases: Vec<(Value, &str)> = vec![
        (Value::null(), "null"),
        (Value::undefined(), "undefined"),
        (Value::bool(true), "true"),
        (Value::bool(false), "false"),
        (Value::i32(-42), "-42"),
        (Value::from_f64_bits(f64::NAN.to_bits()), "NaN"),
        (Value::from_f64_bits(f64::INFINITY.to_bits()), "Infinity"),
        (Value::from_f64_bits(f64::NEG_INFINITY.to_bits()), "-Infinity"),
        (Value::from_f64_bits((-0.0f64).to_bits()), "0"),
    ];
    for (v, expected) in cases {
        match v.to_string_with_context(&mut ctx) {
            StringForm::Atom(a) => assert_eq!(text_of(&ctx, a), expected),
            other => panic!("unexpected {:?}", other),
        }
    }
    let x = Value::from_f64_bits(2.5f64.to_bits());
    assert_eq!(x.to_string_with_context(&mut ctx), StringForm::Double(2.5f64.to_bits()));
}

#[test]
fn arithmetic_plans() {
    let ctx = context();
    let a = Value::i32(7);
    let b = Value::i32(-3);
    assert_eq!(add_numbers(&a, &b), NumericPlan::Exact(Value::i32(4)));
    assert_eq!(
        add_numbers(&Value::i32(i32::MAX), &Value::i32(1)),
        NumericPlan::Double(Numeric::Int(i32::MAX), Numeric::Int(1))
    );
    assert_eq!(Value::sub_with_context(&ctx, &a, &b), NumericPlan::Exact(Value::i32(10)));
    assert_eq!(Value::mul_with_context(&ctx, &a, &b), NumericPlan::Exact(Value::i32(-21)));
    assert_eq!(
        Value::div_with_context(&ctx, &a, &b),
        NumericPlan::Double(Numeric::Int(7), Numeric::Int(-3))
    );
    assert_eq!(Value::rem_with_context(&ctx, &a, &b), NumericPlan::Exact(Value::i32(1)));
    assert_eq!(
        Value::rem_with_context(&ctx, &Value::i32(-7), &Value::i32(3)),
        NumericPlan::Exact(Value::i32(-1))
    );
    match Value::rem_with_context(&ctx, &a, &Value::i32(0)) {
        NumericPlan::Exact(v) => assert!(f64::from_bits(v.bits()).is_nan()),
        other => panic!("unexpected {:?}", other),
    }
    assert_eq!(
        Value::rem_with_context(&ctx, &Value::i32(i32::MIN), &Value::i32(-1)),
        NumericPlan::Double(Numeric::Int(i32::MIN), Numeric::Int(-1))
    );
    assert_eq!(
        Value::lt_with_context(&ctx, &Value::bool(true), &Value::null()),
        (Numeric::Int(1), Numeric::Int(0))
    );
}

#[test]
fn add_concatenates_strings() {
    let mut ctx = context();
    let s = Value::from_str_with_context(&mut ctx, "n=");
    match Value::add_with_context(&mut ctx, &s, &Value::i32(5)) {
        AddPlan::Joined(v) => assert_eq!(text_of(&ctx, v), "n=5"),
        other => panic!("unexpected {:?}", other),
    }
    assert_eq!(
        Value::add_with_context(&mut ctx, &Value::i32(2), &Value::i32(3)),
        AddPlan::Numbers(NumericPlan::Exact(Value::i32(5)))
    );
}

#[test]
fn strict_equality_plans() {
    let mut ctx = context();
    let one = Value::i32(1);
    assert_eq!(Value::strict_eq_with_context(&ctx, &one, &one), EqPlan::Known(true));
    let d = Value::from_f64_bits(1.0f64.to_bits());
    assert_eq!(
        Value::strict_eq_with_context(&ctx, &one, &d),
        EqPlan::Doubles(Numeric::Int(1), Numeric::Double(1.0f64.to_bits()))
    );
    assert_eq!(Value::strict_eq_with_context(&ctx, &one, &Value::bool(true)), EqPlan::Known(false));
    assert_eq!(
        Value::strict_eq_with_context(&ctx, &Value::null(), &Value::undefined()),
        EqPlan::Known(false)
    );
    let s1 = Value::from_str_with_context(&mut ctx, "ab");
    let s2 = Value::from_str_with_context(&mut ctx, "ab");
    let s3 = Value::from_str_with_context(&mut ctx, "cd");
    assert_eq!(Value::strict_eq_with_context(&ctx, &s1, &s2), EqPlan::Known(true));
    assert_eq!(Value::strict_eq_with_context(&ctx, &s1, &s3), EqPlan::Known(false));
}

#[test]
fn loose_equality_plans() {
    let mut ctx = context();
    assert_eq!(
        Value::eq_with_context(&ctx, &Value::null(), &Value::undefined()),
        EqPlan::Known(true)
    );
    assert_eq!(Value::eq_with_context(&ctx, &Value::null(), &Value::i32(0)), EqPlan::Known(false));
    assert_eq!(
        Value::eq_with_context(&ctx, &Value::bool(true), &Value::i32(1)),
        EqPlan::Doubles(Numeric::Int(1), Numeric::Int(1))
    );
    let a = ctx.intern("7");
    let av = Value::atom(a);
    assert_eq!(
        Value::eq_with_context(&ctx, &Value::i32(7), &av),
        EqPlan::TextAndNumber(a, Numeric::Int(7))
    );
    let b = Value::atom(ctx.intern("7"));
    assert_eq!(Value::eq_with_context(&ctx, &av, &b), EqPlan::Known(true));
}

#[test]
fn bitwise_operators() {
    let a = Value::i32(6);
    let b = Value::i32(3);
    assert_eq!(a.bit_and(&b), Value::i32(2));
    assert_eq!(a.bit_or(&b), Value::i32(7));
    assert_eq!(a.bit_xor(&b), Value::i32(5));
    assert_eq!(a.bit_not(), Value::i32(-7));
    assert_eq!(Value::i32(1).shl(&Value::i32(33)), Value::i32(2));
    assert_eq!(Value::i32(-8).shr(&Value::i32(1)), Value::i32(-4));
    assert_eq!(
        Value::i32(-1).ushr(&Value::i32(28)),
        Value::i32(15)
    );
    assert_eq!(Value::bool(true).bit_or(&Value::null()), Value::i32(1));
}

#[test]
fn logical_operators() {
    let ctx = context();
    let heap = &ctx.rt.gc;
    let zero = Value::i32(0);
    let two = Value::i32(2);
    assert_eq!(zero.logical_and(&two, heap), zero);
    assert_eq!(two.logical_and(&zero, heap), zero);
    assert_eq!(zero.logical_or(&two, heap), two);
    assert_eq!(two.logical_or(&zero, heap), two);
    assert_eq!(zero.logical_not(heap), Value::bool(true));
    assert_eq!(Value::ternary(&Value::null(), &two, &zero, heap), zero);
    assert_eq!(Value::null().nullish_coalesce(&two), two);
    assert_eq!(zero.nullish_coalesce(&two), zero);
    let mut x = Value::undefined();
    x.nullish_assign(two);
    assert_eq!(x, two);
}

#[test]
fn bound_arguments_come_first() {
    let ctx = context();
    let args = [Value::i32(3)];
    assert_eq!(merge_bound_args(Value::null(), &args, &ctx.rt.gc), vec![Value::i32(3)]);
}

#[test]
fn add_puts_the_left_text_first() {
    let mut ctx = context();
    let a = Value::atom(ctx.intern("a"));
    assert_eq!(
        Value::add_with_context(&mut ctx, &a, &Value::i32(1)),
        AddPlan::Joined(Value::atom(ctx.intern("a1")))
    );
    assert_eq!(
        Value::add_with_context(&mut ctx, &Value::i32(1), &a),
        AddPlan::Joined(Value::atom(ctx.intern("1a")))
    );
    assert_eq!(
        Value::add_with_context(&mut ctx, &a, &Value::null()),
        AddPlan::Joined(Value::atom(ctx.intern("anull")))
    );
}

#[test]
fn add_hands_back_a_double_for_rendering() {
    let mut ctx = context();
    let a = Value::atom(ctx.intern("x"));
    let half = Value::from_f64_bits(0.5f64.to_bits());
    assert_eq!(
        Value::add_with_context(&mut ctx, &a, &half),
        AddPlan::Concat(StringForm::Atom(a), StringForm::Double(0.5f64.to_bits()))
    );
    let before = ctx.atom_count();
    let joined = ctx.intern_joined("x", "0.5");
    assert_eq!(ctx.resolve(joined), "x0.5");
    assert_eq!(ctx.atom_count(), before + 1);
    let b = ctx.intern("y");
    let xy = ctx.concat_atoms(a.as_atom().unwrap(), b);
    assert_eq!(ctx.resolve(xy), "xy");
}

#[test]
fn equality_without_the_context() {
    let one = Value::i32(1);
    assert_eq!(Value::eq_without_context(&one, &one), Some(EqPlan::Known(true)));
    assert_eq!(Value::eq_without_context(&Value::null(), &Value::undefined()), Some(EqPlan::Known(true)));
    assert_eq!(Value::eq_without_context(&Value::null(), &one), Some(EqPlan::Known(false)));
    assert_eq!(
        Value::eq_without_context(&one, &Value::bool(true)),
        Some(EqPlan::Doubles(Numeric::Int(1), Numeric::Int(1)))
    );
    let mut ctx = context();
    let a = Value::atom(ctx.intern("1"));
    assert_eq!(Value::eq_without_context(&a, &one), None);
}

#[test]
fn symbols_are_numbered_in_turn_from_zero() {
    let mut ctx = context();
    let s1 = ctx.new_symbol(Some("first"));
    let s2 = ctx.new_symbol(None);
    let q1 = s1.borrow(&ctx.rt.gc);
    let q2 = s2.borrow(&ctx.rt.gc);
    assert_eq!(q1.id, 0);
    assert_eq!(q2.id, q1.id + 1);
    assert_eq!(ctx.resolve(q1.description.unwrap()), "first");
    assert!(q2.description.is_none());
}
