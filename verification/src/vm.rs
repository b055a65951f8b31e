//! The loaded program of the register machine.

pub mod optimization;

use vstd::prelude::*;
use crate::disasm::{asm_text, decoded, disassemble};
use crate::value::Value;

verus! {

/// A program as the machine holds it: instruction words and constants.
pub struct VM {
    pub bytecode: Vec<u32>,
    pub const_pool: Vec<Value>,
}

/// Disassembles the machine's program into offset listings.
pub fn disassemble_vm(vm: &VM) -> (r: Vec<String>)
    requires
        vm.bytecode@.len() <= usize::MAX / 4 + 1,
    ensures
        r@.len() == vm.bytecode@.len(),
        forall|pc: int|
            0 <= pc < vm.bytecode@.len() ==> #[trigger] r@[pc]@ == asm_text(
                decoded(pc as usize, vm.bytecode@[pc]),
                vm.const_pool@.len(),
            ),
{
    disassemble(vm.bytecode.as_slice(), vm.const_pool.as_slice())
}

} // verus!
