use lib::gc::Gc;
use lib::heap::{QObject, QString};
use lib::js_value::calls::{call_step, construct_step, CallAction, ConstructAction};
use lib::js_value::type_error::make_type_error_throw;
use lib::runtime::{Context, Runtime};
use lib::value::Value;

fn context() -> Context {
    Context::new(Runtime::new(3))
}

fn get(ctx: &mut Context, object: Value, key: &str) -> Option<Value> {
    let atom = ctx.intern(key);
    let handle = Gc::<QObject>::from_value(object, &ctx.rt.gc).expect("an object");
    handle.borrow(&ctx.rt.gc).get(atom)
}

fn set(ctx: &mut Context, object: Value, key: &str, value: Value) {
    let atom = ctx.intern(key);
    let handle = Gc::<QObject>::from_value(object, &ctx.rt.gc).expect("an object");
    handle.borrow_mut(&mut ctx.rt.gc).set(atom, value);
}

fn string_text(ctx: &Context, v: Value) -> String {
    let s = Gc::<QString>::from_value(v, &ctx.rt.gc).expect("a string");
    let atom = s.borrow(&ctx.rt.gc).atom;
    ctx.resolve(atom)
}

#[test]
fn type_errors_are_wrapped_in_a_thrown_object() {
    let mut ctx = context();
    let before = ctx.object_count();
    let thrown = make_type_error_throw(&mut ctx, "boom");
    assert_eq!(ctx.object_count(), before + 4);
    let error = get(&mut ctx, thrown, "__vm_throw").expect("the error");
    let error_handle = Gc::<QObject>::from_value(error, &ctx.rt.gc).expect("an object");
    assert_eq!(error_handle.index as usize, before);
    let name = get(&mut ctx, error, "name").expect("a name");
    assert_eq!(string_text(&ctx, name), "TypeError");
    let message = get(&mut ctx, error, "message").expect("a message");
    assert_eq!(string_text(&ctx, message), "boom");
    assert_eq!(get(&mut ctx, error, "constructor"), None);
}

#[test]
fn type_errors_take_the_global_constructor() {
    let mut ctx = context();
    let ctor_atom = ctx.intern("TypeError");
    ctx.globals.push((ctor_atom, Value::i32(99)));
    let thrown = make_type_error_throw(&mut ctx, "x");
    let error = get(&mut ctx, thrown, "__vm_throw").expect("the error");
    assert_eq!(get(&mut ctx, error, "constructor"), Some(Value::i32(99)));
}

#[test]
fn host_functions_run_their_callback() {
    let mut ctx = context();
    let f = ctx.new_native_function(Some("f"), 3).to_value(&ctx.rt.gc);
    match call_step(&mut ctx, f, Value::undefined(), &[Value::i32(1)]) {
        CallAction::Invoke(cb, this, args) => {
            assert_eq!(cb, 3);
            assert_eq!(this, Value::undefined());
            assert_eq!(args, vec![Value::i32(1)]);
        }
        other => panic!("unexpected {:?}", other),
    }
    let c = ctx.new_native_closure(None, 4, vec![]).to_value(&ctx.rt.gc);
    match call_step(&mut ctx, c, Value::null(), &[]) {
        CallAction::Invoke(cb, this, args) => {
            assert_eq!(cb, 4);
            assert_eq!(this, Value::null());
            assert!(args.is_empty());
        }
        other => panic!("unexpected {:?}", other),
    }
}

#[test]
fn bound_objects_forward_with_their_arguments_first() {
    let mut ctx = context();
    let target = ctx.new_native_function(None, 1).to_value(&ctx.rt.gc);
    let bound_args = ctx.new_array();
    bound_args.borrow_mut(&mut ctx.rt.gc).push(Value::i32(10));
    let bound_args = bound_args.to_value(&ctx.rt.gc);
    let bound = ctx.new_object().to_value(&ctx.rt.gc);
    set(&mut ctx, bound, "__vm_bound_target", target);
    set(&mut ctx, bound, "__vm_bound_this", Value::i32(7));
    set(&mut ctx, bound, "__vm_bound_args", bound_args);
    match call_step(&mut ctx, bound, Value::null(), &[Value::i32(20)]) {
        CallAction::Forward(t, this, args) => {
            assert_eq!(t, target);
            assert_eq!(this, Value::i32(7));
            assert_eq!(args, vec![Value::i32(10), Value::i32(20)]);
        }
        other => panic!("unexpected {:?}", other),
    }
    match construct_step(&mut ctx, bound, &[Value::i32(20)]) {
        ConstructAction::Forward(t, args) => {
            assert_eq!(t, target);
            assert_eq!(args, vec![Value::i32(10), Value::i32(20)]);
        }
        other => panic!("unexpected {:?}", other),
    }
}

#[test]
fn objects_with_a_host_function_marker_call_it() {
    let mut ctx = context();
    let native = ctx.new_native_function(None, 8).to_value(&ctx.rt.gc);
    let f = ctx.new_object().to_value(&ctx.rt.gc);
    set(&mut ctx, f, "__vm_native_fn", native);
    match call_step(&mut ctx, f, Value::i32(2), &[]) {
        CallAction::Invoke(cb, this, _) => {
            assert_eq!(cb, 8);
            assert_eq!(this, Value::i32(2));
        }
        other => panic!("unexpected {:?}", other),
    }
}

#[test]
fn plain_values_are_not_functions() {
    let mut ctx = context();
    let before = ctx.object_count();
    match call_step(&mut ctx, Value::i32(1), Value::null(), &[]) {
        CallAction::Throw(v) => {
            assert_eq!(ctx.object_count(), before + 4);
            let error = get(&mut ctx, v, "__vm_throw").expect("the error");
            let message = get(&mut ctx, error, "message").expect("a message");
            assert_eq!(string_text(&ctx, message), "not a function");
        }
        other => panic!("unexpected {:?}", other),
    }
    let o = ctx.new_object().to_value(&ctx.rt.gc);
    assert!(matches!(call_step(&mut ctx, o, Value::null(), &[]), CallAction::Throw(_)));
}

#[test]
fn construction_allocates_an_instance_with_the_prototype() {
    let mut ctx = context();
    let native = ctx.new_native_function(None, 5).to_value(&ctx.rt.gc);
    let proto = ctx.new_object().to_value(&ctx.rt.gc);
    let ctor = ctx.new_object().to_value(&ctx.rt.gc);
    set(&mut ctx, ctor, "__vm_native_fn", native);
    set(&mut ctx, ctor, "prototype", proto);
    let before = ctx.object_count();
    match construct_step(&mut ctx, ctor, &[Value::i32(1)]) {
        ConstructAction::Invoke(cb, instance, args) => {
            assert_eq!(cb, 5);
            assert_eq!(args, vec![Value::i32(1)]);
            assert_eq!(ctx.object_count(), before + 1);
            let handle = Gc::<QObject>::from_value(instance, &ctx.rt.gc).expect("an object");
            assert_eq!(handle.index as usize, before);
            assert_eq!(handle.borrow(&ctx.rt.gc).prototype, Some(proto));
        }
        other => panic!("unexpected {:?}", other),
    }
}

#[test]
fn construction_refusals_throw() {
    let mut ctx = context();
    assert!(matches!(construct_step(&mut ctx, Value::i32(1), &[]), ConstructAction::Throw(_)));
    let ctor = ctx.new_object().to_value(&ctx.rt.gc);
    set(&mut ctx, ctor, "__vm_no_construct", Value::bool(true));
    let before = ctx.object_count();
    assert!(matches!(construct_step(&mut ctx, ctor, &[]), ConstructAction::Throw(_)));
    assert_eq!(ctx.object_count(), before + 4);
    let plain = ctx.new_object().to_value(&ctx.rt.gc);
    let before = ctx.object_count();
    match construct_step(&mut ctx, plain, &[]) {
        ConstructAction::Throw(v) => {
            // The instance is allocated before the error.
            assert_eq!(ctx.object_count(), before + 5);
            let error = get(&mut ctx, v, "__vm_throw").expect("the error");
            let message = get(&mut ctx, error, "message").expect("a message");
            assert_eq!(string_text(&ctx, message), "not a constructor");
        }
        other => panic!("unexpected {:?}", other),
    }
}

#[test]
fn a_write_through_one_handle_reads_back_through_a_clone() {
    let mut ctx = context();
    let a = ctx.new_array();
    let b = a.clone();
    a.borrow_mut(&mut ctx.rt.gc).push(Value::i32(3));
    a.borrow_mut(&mut ctx.rt.gc).push(Value::i32(4));
    assert_eq!(b.borrow(&ctx.rt.gc).elements, vec![Value::i32(3), Value::i32(4)]);
}
