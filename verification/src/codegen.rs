//! The compiled form of a program and the small helpers of the code
//! generator that do not depend on the parser.
use vstd::prelude::*;

use crate::opcode::{byte_of_opcode, Opcode};
use crate::value::Value;

verus! {

/// A compiled program: its bytecode, constant pool, string constants by
/// pool slot, the pool slots that hold function entry positions, and the
/// names and property names it uses.
#[derive(Debug)]
pub struct CompiledBytecode {
    pub bytecode: Vec<u32>,
    pub constants: Vec<Value>,
    pub string_constants: Vec<(u16, String)>,
    pub function_constants: Vec<u16>,
    pub names: Vec<String>,
    pub properties: Vec<String>,
}

/// The pending jumps of an enclosing loop or switch: `break`s, and for a
/// loop its `continue`s.
#[derive(Debug)]
pub struct ControlContext {
    pub break_patches: Vec<usize>,
    pub continue_patches: Option<Vec<usize>>,
}

impl ControlContext {
    /// A loop accepts `break` and `continue`.
    pub fn loop_context() -> (r: Self)
        ensures
            r.break_patches@ == Seq::<usize>::empty(),
            r.continue_patches matches Some(c) && c@ == Seq::<usize>::empty(),
    {
        ControlContext { break_patches: Vec::new(), continue_patches: Some(Vec::new()) }
    }

    /// A switch accepts only `break`.
    pub fn switch_context() -> (r: Self)
        ensures
            r.break_patches@ == Seq::<usize>::empty(),
            r.continue_patches is None,
    {
        ControlContext { break_patches: Vec::new(), continue_patches: None }
    }
}

/// The jump offset from the instruction about to be emitted at
/// `current_len` to `target`, relative to the instruction after it; `None`
/// when it does not fit in 16 bits.
pub fn offset_to(target: usize, current_len: usize) -> (r: Option<i16>)
    ensures
        match r {
            Some(o) => o == target - current_len - 1,
            None => !(i16::MIN <= target - current_len - 1 <= i16::MAX),
        },
{
    if target > current_len {
        let d = target - current_len;
        if d - 1 <= 32767 {
            Some((d - 1) as i16)
        } else {
            None
        }
    } else {
        let back = current_len - target;
        if back <= 32767 {
            Some((0i32 - (back as i32) - 1) as i16)
        } else {
            None
        }
    }
}

/// The word of an operation with register A and a signed 16-bit offset.
pub fn encode_asbx(opcode: Opcode, a: u8, sbx: i16) -> (r: u32)
    ensures
        r == (((sbx as u16) as u32) << 16u32) | ((a as u32) << 8u32) | (byte_of_opcode(opcode) as u32),
{
    (((sbx as u16) as u32) << 16) | ((a as u32) << 8) | opcode.as_u8() as u32
}

} // verus!
