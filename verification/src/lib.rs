//! A register-based JavaScript value and bytecode toolkit: NaN-boxed values,
//! an atom table, object shapes, an arena heap, a disassembler and a bytecode
//! optimizer.

pub mod disasm;
pub mod atoms;
pub mod codegen;
pub mod float_bits;
pub mod fmt;
pub mod gc;
pub mod heap;
pub mod js_value;
pub mod opcode;
pub mod opt;
pub mod ops;
pub mod runtime;
pub mod value;
pub mod vm;

