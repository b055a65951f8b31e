use lib::gc::Gc;
use lib::heap::{QArray, QObject};
use lib::runtime::{Context, Runtime};
use lib::value::Value;

fn context() -> Context {
    Context::new(Runtime::new(7))
}

#[test]
fn json_is_unavailable() {
    let ctx = context();
    let e = Value::from_json(&ctx, "{}").unwrap_err();
    assert_eq!(e.message(), "JSON support is not available in this register-vm build");
    let e = Value::null().to_json(&ctx).unwrap_err();
    assert_eq!(e.message(), "JSON support is not available in this register-vm build");
    let e = Value::null().to_pretty_json(&ctx).unwrap_err();
    assert_eq!(e.message(), "JSON support is not available in this register-vm build");
}

#[test]
fn yaml_is_unavailable() {
    let ctx = context();
    let e = Value::from_yaml(&ctx, "a: 1").unwrap_err();
    assert_eq!(e.message(), "YAML support is not available in this register-vm build");
    let e = Value::i32(1).to_yaml(&ctx).unwrap_err();
    assert_eq!(e.message(), "YAML support is not available in this register-vm build");
}

#[test]
fn msgpack_is_unavailable() {
    let ctx = context();
    let e = Value::from_msgpack(&ctx, &[0x90]).unwrap_err();
    assert_eq!(e.message(), "MsgPack support is not available in this register-vm build");
    let e = Value::i32(1).to_msgpack(&ctx).unwrap_err();
    assert_eq!(e.message(), "MsgPack support is not available in this register-vm build");
}

#[test]
fn serde_is_unavailable() {
    let ctx = context();
    let e = Value::from_serde(&ctx, &3u8).unwrap_err();
    assert_eq!(e.message(), "serde cannot be converted through serde");
    let e = Value::i32(1).to_serde::<u8>(&ctx).unwrap_err();
    assert_eq!(e.message(), "serde cannot be converted through serde");
    let e = Value::i32(1).to_serde_json(&ctx).unwrap_err();
    assert_eq!(e.message(), "serde_json cannot be converted through serde");
}

#[test]
fn arena_buffers_are_unavailable() {
    let ctx = context();
    let e = Value::from_arena_buffer(&ctx, &[]).unwrap_err();
    assert_eq!(e.message(), "arena buffer support is not available in this register-vm build");
    let e = Value::i32(1).to_arena_buffer(&ctx).unwrap_err();
    assert_eq!(e.message(), "arena buffer support is not available in this register-vm build");
}

#[test]
fn typed_handles_check_the_cell_kind() {
    let mut ctx = context();
    let o = ctx.new_object();
    let v = o.to_value(&ctx.rt.gc);
    let ok = Gc::<QObject>::from_value(v, &ctx.rt.gc).expect("an object");
    assert_eq!(ok.index, o.index);
    let e = Gc::<QArray>::from_value(v, &ctx.rt.gc).unwrap_err();
    assert_eq!(e.expected(), "array");
    assert_eq!(e.actual(), "object");
    assert_eq!(e.describe(), "expected array, got object");
    let e = Gc::<QArray>::from_value(Value::i32(3), &ctx.rt.gc).unwrap_err();
    assert_eq!(e.actual(), "number");
    assert_eq!(e.describe(), "expected array, got number");
}
