//! Disassembly of instruction words into assembly text.

use vstd::prelude::*;
use crate::fmt::{dec, hex4, push_dec, push_dec_u64, push_hex4, push_str};
use crate::opcode::{Opcode, opcode_of_byte};
use crate::value::Value;

verus! {

/// How the operand bits of an instruction word are read.
#[derive(Clone, Copy, PartialEq, Eq, Structural, Debug)]
pub enum Format {
    /// Three 8-bit register operands.
    ABC,
    /// A and a 16-bit unsigned immediate (B and C combined).
    ABx,
    /// A and a 16-bit signed offset (B and C combined).
    AsBx,
    /// A single register operand.
    A,
    /// Two registers, result in the accumulator.
    BC,
}

/// An instruction word with its operands decoded.
#[derive(Clone, Copy, PartialEq, Eq, Structural, Debug)]
pub struct AsmInstruction {
    /// Index of the word in the bytecode.
    pub pc: usize,
    /// The raw word.
    pub raw: u32,
    pub opcode: Opcode,
    pub format: Format,
    pub a: u8,
    pub b: u8,
    pub c: u8,
    /// B and C as an unsigned 16-bit immediate.
    pub bx: u16,
    /// B and C as a signed 16-bit offset.
    pub sbx: i16,
}

/// The operand layout of an operation.
pub open spec fn format_of(op: Opcode) -> Format {
    match op {
        Opcode::Mov => Format::ABC,
        Opcode::LoadK => Format::ABx,
        Opcode::Add => Format::BC,
        Opcode::GetPropIc => Format::ABC,
        Opcode::Call => Format::ABC,
        Opcode::Jmp => Format::AsBx,
        Opcode::LoadI => Format::AsBx,
        Opcode::JmpTrue => Format::AsBx,
        Opcode::JmpFalse => Format::AsBx,
        Opcode::SetPropIc => Format::ABC,
        Opcode::AddAccImm8 => Format::A,
        Opcode::IncAcc => Format::A,
        Opcode::LoadThis => Format::A,
        Opcode::Load0 => Format::A,
        Opcode::Load1 => Format::A,
        Opcode::Eq => Format::BC,
        Opcode::Lt => Format::BC,
        Opcode::Lte => Format::BC,
        Opcode::AddAcc => Format::A,
        Opcode::SubAcc => Format::A,
        Opcode::MulAcc => Format::A,
        Opcode::DivAcc => Format::A,
        Opcode::LoadNull => Format::A,
        Opcode::LoadTrue => Format::A,
        Opcode::LoadFalse => Format::A,
        Opcode::LoadGlobalIc => Format::ABx,
        Opcode::SetGlobalIc => Format::ABx,
        Opcode::Typeof => Format::ABC,
        Opcode::ToNum => Format::ABC,
        Opcode::ToStr => Format::ABC,
        Opcode::IsUndef => Format::ABC,
        Opcode::IsNull => Format::ABC,
        Opcode::SubAccImm8 => Format::A,
        Opcode::MulAccImm8 => Format::A,
        Opcode::DivAccImm8 => Format::A,
        Opcode::AddStrAcc => Format::A,
        Opcode::AddI => Format::ABC,
        Opcode::SubI => Format::ABC,
        Opcode::MulI => Format::ABC,
        Opcode::DivI => Format::ABC,
        Opcode::ModI => Format::ABC,
        Opcode::Mod => Format::BC,
        Opcode::Neg => Format::A,
        Opcode::Inc => Format::A,
        Opcode::Dec => Format::A,
        Opcode::AddStr => Format::BC,
        Opcode::ToPrimitive => Format::A,
        Opcode::GetPropAcc => Format::BC,
        Opcode::SetPropAcc => Format::BC,
        Opcode::GetIdxFast => Format::ABC,
        Opcode::SetIdxFast => Format::ABC,
        Opcode::LoadArg => Format::ABC,
        Opcode::LoadAcc => Format::ABC,
        Opcode::StrictEq => Format::BC,
        Opcode::StrictNeq => Format::BC,
        Opcode::BitAnd => Format::BC,
        Opcode::BitOr => Format::BC,
        Opcode::BitXor => Format::BC,
        Opcode::BitNot => Format::A,
        Opcode::Shl => Format::BC,
        Opcode::Shr => Format::BC,
        Opcode::Ushr => Format::BC,
        Opcode::Pow => Format::BC,
        Opcode::LogicalAnd => Format::BC,
        Opcode::LogicalOr => Format::BC,
        Opcode::NullishCoalesce => Format::BC,
        Opcode::In => Format::BC,
        Opcode::Instanceof => Format::BC,
        Opcode::GetLengthIc => Format::ABC,
        Opcode::ArrayPushAcc => Format::A,
        Opcode::NewObj => Format::A,
        Opcode::NewArr => Format::A,
        Opcode::NewFunc => Format::ABx,
        Opcode::NewClass => Format::A,
        Opcode::GetProp => Format::ABC,
        Opcode::SetProp => Format::ABC,
        Opcode::GetIdxIc => Format::ABC,
        Opcode::SetIdxIc => Format::ABC,
        Opcode::GetGlobal => Format::ABx,
        Opcode::SetGlobal => Format::ABx,
        Opcode::GetUpval => Format::A,
        Opcode::SetUpval => Format::A,
        Opcode::GetScope => Format::A,
        Opcode::SetScope => Format::A,
        Opcode::ResolveScope => Format::ABx,
        Opcode::GetSuper => Format::ABC,
        Opcode::SetSuper => Format::ABC,
        Opcode::DeleteProp => Format::ABC,
        Opcode::HasProp => Format::ABC,
        Opcode::Keys => Format::ABC,
        Opcode::ForIn => Format::A,
        Opcode::IteratorNext => Format::A,
        Opcode::Spread => Format::A,
        Opcode::Destructure => Format::A,
        Opcode::CreateEnv => Format::A,
        Opcode::LoadName => Format::ABx,
        Opcode::StoreName => Format::ABx,
        Opcode::InitName => Format::ABx,
        Opcode::LoadClosure => Format::A,
        Opcode::NewThis => Format::A,
        Opcode::TypeofName => Format::ABx,
        Opcode::JmpEq => Format::ABC,
        Opcode::JmpNeq => Format::ABC,
        Opcode::JmpLt => Format::ABC,
        Opcode::JmpLte => Format::ABC,
        Opcode::LoopIncJmp => Format::AsBx,
        Opcode::Switch => Format::ABC,
        Opcode::LoopHint => Format::A,
        Opcode::Ret => Format::A,
        Opcode::RetU => Format::A,
        Opcode::RetReg => Format::A,
        Opcode::TailCall => Format::ABC,
        Opcode::Construct => Format::ABC,
        Opcode::CallVar => Format::ABC,
        Opcode::Enter => Format::ABC,
        Opcode::Leave => Format::A,
        Opcode::Yield => Format::A,
        Opcode::Await => Format::A,
        Opcode::Throw => Format::ABC,
        Opcode::Try => Format::AsBx,
        Opcode::EndTry => Format::A,
        Opcode::Catch => Format::ABC,
        Opcode::Finally => Format::A,
        Opcode::CallIc => Format::ABC,
        Opcode::CallIcVar => Format::ABC,
        Opcode::ProfileType => Format::ABC,
        Opcode::ProfileCall => Format::ABC,
        Opcode::ProfileRet => Format::A,
        Opcode::CheckType => Format::ABC,
        Opcode::CheckStruct => Format::ABC,
        Opcode::CheckIc => Format::ABC,
        Opcode::IcInit => Format::ABC,
        Opcode::IcUpdate => Format::ABC,
        Opcode::IcMiss => Format::A,
        Opcode::OsrEntry => Format::A,
        Opcode::ProfileHotLoop => Format::A,
        Opcode::OsrExit => Format::A,
        Opcode::JitHint => Format::A,
        Opcode::SafetyCheck => Format::A,
        Opcode::GetPropIcCall => Format::ABC,
        Opcode::IncJmpFalseLoop => Format::AsBx,
        Opcode::LoadKAddAcc => Format::ABx,
        Opcode::AddMov => Format::ABC,
        Opcode::EqJmpTrue => Format::AsBx,
        Opcode::GetPropAccCall => Format::BC,
        Opcode::LoadKMulAcc => Format::ABx,
        Opcode::LtJmp => Format::AsBx,
        Opcode::GetPropIcMov => Format::ABC,
        Opcode::GetPropAddImmSetPropIc => Format::ABC,
        Opcode::AddAccImm8Mov => Format::ABC,
        Opcode::CallIcSuper => Format::ABC,
        Opcode::LoadThisCall => Format::ABC,
        Opcode::EqJmpFalse => Format::AsBx,
        Opcode::LoadKSubAcc => Format::ABx,
        Opcode::GetLengthIcCall => Format::BC,
        Opcode::AddStrAccMov => Format::ABC,
        Opcode::IncAccJmp => Format::AsBx,
        Opcode::GetPropChainAcc => Format::ABC,
        Opcode::TestJmpTrue => Format::AsBx,
        Opcode::LoadArgCall => Format::ABC,
        Opcode::MulAccMov => Format::ABC,
        Opcode::LteJmpLoop => Format::AsBx,
        Opcode::NewObjInitProp => Format::ABC,
        Opcode::ProfileHotCall => Format::ABC,
        Opcode::Call1SubI => Format::ABC,
        Opcode::JmpLteFalse => Format::ABC,
        Opcode::AssertValue => Format::A,
        Opcode::AssertOk => Format::A,
        Opcode::AssertEqual => Format::BC,
        Opcode::AssertNotEqual => Format::BC,
        Opcode::AssertDeepEqual => Format::BC,
        Opcode::AssertNotDeepEqual => Format::BC,
        Opcode::AssertStrictEqual => Format::BC,
        Opcode::AssertNotStrictEqual => Format::BC,
        Opcode::AssertDeepStrictEqual => Format::BC,
        Opcode::AssertNotDeepStrictEqual => Format::BC,
        Opcode::AssertThrows => Format::A,
        Opcode::AssertDoesNotThrow => Format::A,
        Opcode::AssertRejects => Format::A,
        Opcode::AssertDoesNotReject => Format::A,
        Opcode::AssertFail => Format::A,
        Opcode::AddI32 => Format::ABC,
        Opcode::AddF64 => Format::ABC,
        Opcode::SubI32 => Format::ABC,
        Opcode::SubF64 => Format::ABC,
        Opcode::MulI32 => Format::ABC,
        Opcode::MulF64 => Format::ABC,
        Opcode::RetIfLteI => Format::ABC,
        Opcode::AddAccReg => Format::ABC,
        Opcode::Call1Add => Format::ABC,
        Opcode::Call2Add => Format::ABC,
        Opcode::LoadKAdd => Format::ABC,
        Opcode::LoadKCmp => Format::ABC,
        Opcode::CmpJmp => Format::ABC,
        Opcode::GetPropCall => Format::ABC,
        Opcode::CallRet => Format::ABC,
        Opcode::AddI32Fast => Format::ABC,
        Opcode::AddF64Fast => Format::ABC,
        Opcode::SubI32Fast => Format::ABC,
        Opcode::MulI32Fast => Format::ABC,
        Opcode::EqI32Fast => Format::ABC,
        Opcode::LtI32Fast => Format::ABC,
        Opcode::JmpI32Fast => Format::ABC,
        Opcode::GetPropMono => Format::ABC,
        Opcode::CallMono => Format::ABC,
        Opcode::Call0 => Format::ABC,
        Opcode::Call1 => Format::ABC,
        Opcode::Call2 => Format::ABC,
        Opcode::Call3 => Format::ABC,
        Opcode::CallMethod1 => Format::ABx,
        Opcode::CallMethod2 => Format::ABx,
        Opcode::LoadAdd => Format::ABC,
        Opcode::LoadSub => Format::ABC,
        Opcode::LoadMul => Format::ABC,
        Opcode::LoadInc => Format::ABC,
        Opcode::LoadDec => Format::ABC,
        Opcode::LoadCmpEq => Format::ABC,
        Opcode::LoadCmpLt => Format::ABC,
        Opcode::LoadJfalse => Format::ABC,
        Opcode::LoadCmpEqJfalse => Format::ABC,
        Opcode::LoadCmpLtJfalse => Format::ABC,
        Opcode::LoadGetProp => Format::ABC,
        Opcode::LoadGetPropCmpEq => Format::ABC,
        Opcode::GetProp2Ic => Format::ABC,
        Opcode::GetProp3Ic => Format::ABC,
        Opcode::GetElem => Format::ABC,
        Opcode::SetElem => Format::ABC,
        Opcode::GetPropElem => Format::ABC,
        Opcode::CallMethodIc => Format::ABC,
        Opcode::CallMethod2Ic => Format::ABC,
        Opcode::Reserved(_) => Format::ABC,
    }
}

/// The instruction that a word at index `pc` decodes to.
pub open spec fn decoded(pc: usize, raw: u32) -> AsmInstruction {
    AsmInstruction {
        pc,
        raw,
        opcode: opcode_of_byte((raw & 0xffu32) as u8),
        format: format_of(opcode_of_byte((raw & 0xffu32) as u8)),
        a: ((raw >> 8u32) & 0xffu32) as u8,
        b: ((raw >> 16u32) & 0xffu32) as u8,
        c: ((raw >> 24u32) & 0xffu32) as u8,
        bx: ((raw >> 16u32) & 0xffffu32) as u16,
        sbx: (((raw >> 16u32) & 0xffffu32) as u16) as i16,
    }
}

pub open spec fn reserved_name(n: u8) -> &'static str {
    if 61 <= n <= 63 {
        "reserved_61_63"
    } else if 123 <= n <= 127 {
        "reserved_123_127"
    } else if 130 <= n <= 159 {
        "reserved_130_159"
    } else if 174 <= n <= 199 {
        "reserved_174_199"
    } else if 225 <= n <= 239 {
        "reserved_225_239"
    } else if 243 <= n {
        "reserved_243_255"
    } else {
        "reserved"
    }
}

fn reserved_name_of(n: u8) -> (r: &'static str)
    ensures
        r == reserved_name(n),
{
    if 61 <= n && n <= 63 {
        "reserved_61_63"
    } else if 123 <= n && n <= 127 {
        "reserved_123_127"
    } else if 130 <= n && n <= 159 {
        "reserved_130_159"
    } else if 174 <= n && n <= 199 {
        "reserved_174_199"
    } else if 225 <= n && n <= 239 {
        "reserved_225_239"
    } else if 243 <= n {
        "reserved_243_255"
    } else {
        "reserved"
    }
}

/// The mnemonic of the offset listing.
pub open spec fn mnemonic(op: Opcode) -> &'static str {
    match op {
        Opcode::Mov => "mov",
        Opcode::LoadK => "load_k",
        Opcode::Add => "add",
        Opcode::GetPropIc => "get_prop_ic",
        Opcode::Call => "call",
        Opcode::Jmp => "jmp",
        Opcode::LoadI => "load_i",
        Opcode::JmpTrue => "jmp_true",
        Opcode::JmpFalse => "jmp_false",
        Opcode::SetPropIc => "set_prop_ic",
        Opcode::AddAccImm8 => "add_acc_imm8",
        Opcode::IncAcc => "inc_acc",
        Opcode::LoadThis => "load_this",
        Opcode::Load0 => "load_0",
        Opcode::Load1 => "load_1",
        Opcode::Eq => "eq",
        Opcode::Lt => "lt",
        Opcode::Lte => "lte",
        Opcode::AddAcc => "add_acc",
        Opcode::SubAcc => "sub_acc",
        Opcode::MulAcc => "mul_acc",
        Opcode::DivAcc => "div_acc",
        Opcode::LoadNull => "load_null",
        Opcode::LoadTrue => "load_true",
        Opcode::LoadFalse => "load_false",
        Opcode::LoadGlobalIc => "load_global_ic",
        Opcode::SetGlobalIc => "set_global_ic",
        Opcode::Typeof => "typeof",
        Opcode::ToNum => "to_num",
        Opcode::ToStr => "to_str",
        Opcode::IsUndef => "is_undef",
        Opcode::IsNull => "is_null",
        Opcode::SubAccImm8 => "sub_acc_imm8",
        Opcode::MulAccImm8 => "mul_acc_imm8",
        Opcode::DivAccImm8 => "div_acc_imm8",
        Opcode::AddStrAcc => "add_str_acc",
        Opcode::AddI => "add_i",
        Opcode::SubI => "sub_i",
        Opcode::MulI => "mul_i",
        Opcode::DivI => "div_i",
        Opcode::ModI => "mod_i",
        Opcode::Mod => "mod",
        Opcode::Neg => "neg",
        Opcode::Inc => "inc",
        Opcode::Dec => "dec",
        Opcode::AddStr => "add_str",
        Opcode::ToPrimitive => "to_primitive",
        Opcode::GetPropAcc => "get_prop_acc",
        Opcode::SetPropAcc => "set_prop_acc",
        Opcode::GetIdxFast => "get_idx_fast",
        Opcode::SetIdxFast => "set_idx_fast",
        Opcode::LoadArg => "load_arg",
        Opcode::LoadAcc => "load_acc",
        Opcode::StrictEq => "strict_eq",
        Opcode::StrictNeq => "strict_neq",
        Opcode::BitAnd => "bit_and",
        Opcode::BitOr => "bit_or",
        Opcode::BitXor => "bit_xor",
        Opcode::BitNot => "bit_not",
        Opcode::Shl => "shl",
        Opcode::Shr => "shr",
        Opcode::Ushr => "ushr",
        Opcode::Pow => "pow",
        Opcode::LogicalAnd => "logical_and",
        Opcode::LogicalOr => "logical_or",
        Opcode::NullishCoalesce => "nullish_coalesce",
        Opcode::In => "in",
        Opcode::Instanceof => "instanceof",
        Opcode::GetLengthIc => "get_length_ic",
        Opcode::ArrayPushAcc => "array_push_acc",
        Opcode::NewObj => "new_obj",
        Opcode::NewArr => "new_arr",
        Opcode::NewFunc => "new_func",
        Opcode::NewClass => "new_class",
        Opcode::GetProp => "get_prop",
        Opcode::SetProp => "set_prop",
        Opcode::GetIdxIc => "get_idx_ic",
        Opcode::SetIdxIc => "set_idx_ic",
        Opcode::GetGlobal => "get_global",
        Opcode::SetGlobal => "set_global",
        Opcode::GetUpval => "get_upval",
        Opcode::SetUpval => "set_upval",
        Opcode::GetScope => "get_scope",
        Opcode::SetScope => "set_scope",
        Opcode::ResolveScope => "resolve_scope",
        Opcode::GetSuper => "get_super",
        Opcode::SetSuper => "set_super",
        Opcode::DeleteProp => "delete_prop",
        Opcode::HasProp => "has_prop",
        Opcode::Keys => "keys",
        Opcode::ForIn => "for_in",
        Opcode::IteratorNext => "iterator_next",
        Opcode::Spread => "spread",
        Opcode::Destructure => "destructure",
        Opcode::CreateEnv => "create_env",
        Opcode::LoadName => "load_name",
        Opcode::StoreName => "store_name",
        Opcode::InitName => "init_name",
        Opcode::LoadClosure => "load_closure",
        Opcode::NewThis => "new_this",
        Opcode::TypeofName => "typeof_name",
        Opcode::JmpEq => "jmp_eq",
        Opcode::JmpNeq => "jmp_neq",
        Opcode::JmpLt => "jmp_lt",
        Opcode::JmpLte => "jmp_lte",
        Opcode::LoopIncJmp => "loop_inc_jmp",
        Opcode::Switch => "switch",
        Opcode::LoopHint => "loop_hint",
        Opcode::Ret => "ret",
        Opcode::RetU => "ret_u",
        Opcode::RetReg => "ret_reg",
        Opcode::TailCall => "tail_call",
        Opcode::Construct => "construct",
        Opcode::CallVar => "call_var",
        Opcode::Enter => "enter",
        Opcode::Leave => "leave",
        Opcode::Yield => "yield",
        Opcode::Await => "await",
        Opcode::Throw => "throw",
        Opcode::Try => "try",
        Opcode::EndTry => "end_try",
        Opcode::Catch => "catch",
        Opcode::Finally => "finally",
        Opcode::CallIc => "call_ic",
        Opcode::CallIcVar => "call_ic_var",
        Opcode::ProfileType => "profile_type",
        Opcode::ProfileCall => "profile_call",
        Opcode::ProfileRet => "profile_ret",
        Opcode::CheckType => "check_type",
        Opcode::CheckStruct => "check_struct",
        Opcode::CheckIc => "check_ic",
        Opcode::IcInit => "ic_init",
        Opcode::IcUpdate => "ic_update",
        Opcode::IcMiss => "ic_miss",
        Opcode::OsrEntry => "osr_entry",
        Opcode::ProfileHotLoop => "profile_hot_loop",
        Opcode::OsrExit => "osr_exit",
        Opcode::JitHint => "jit_hint",
        Opcode::SafetyCheck => "safety_check",
        Opcode::GetPropIcCall => "get_prop_ic_call",
        Opcode::IncJmpFalseLoop => "inc_jmp_false_loop",
        Opcode::LoadKAddAcc => "load_k_add_acc",
        Opcode::AddMov => "add_mov",
        Opcode::EqJmpTrue => "eq_jmp_true",
        Opcode::GetPropAccCall => "get_prop_acc_call",
        Opcode::LoadKMulAcc => "load_k_mul_acc",
        Opcode::LtJmp => "lt_jmp",
        Opcode::GetPropIcMov => "get_prop_ic_mov",
        Opcode::GetPropAddImmSetPropIc => "get_prop_add_imm_set_prop_ic",
        Opcode::AddAccImm8Mov => "add_acc_imm8_mov",
        Opcode::CallIcSuper => "call_ic_super",
        Opcode::LoadThisCall => "load_this_call",
        Opcode::EqJmpFalse => "eq_jmp_false",
        Opcode::LoadKSubAcc => "load_k_sub_acc",
        Opcode::GetLengthIcCall => "get_length_ic_call",
        Opcode::AddStrAccMov => "add_str_acc_mov",
        Opcode::IncAccJmp => "inc_acc_jmp",
        Opcode::GetPropChainAcc => "get_prop_chain_acc",
        Opcode::TestJmpTrue => "test_jmp_true",
        Opcode::LoadArgCall => "load_arg_call",
        Opcode::MulAccMov => "mul_acc_mov",
        Opcode::LteJmpLoop => "lte_jmp_loop",
        Opcode::NewObjInitProp => "new_obj_init_prop",
        Opcode::ProfileHotCall => "profile_hot_call",
        Opcode::Call1SubI => "call1_sub_i",
        Opcode::JmpLteFalse => "jmp_lte_false",
        Opcode::AssertValue => "assert_value",
        Opcode::AssertOk => "assert_ok",
        Opcode::AssertEqual => "assert_equal",
        Opcode::AssertNotEqual => "assert_not_equal",
        Opcode::AssertDeepEqual => "assert_deep_equal",
        Opcode::AssertNotDeepEqual => "assert_not_deep_equal",
        Opcode::AssertStrictEqual => "assert_strict_equal",
        Opcode::AssertNotStrictEqual => "assert_not_strict_equal",
        Opcode::AssertDeepStrictEqual => "assert_deep_strict_equal",
        Opcode::AssertNotDeepStrictEqual => "assert_not_deep_strict_equal",
        Opcode::AssertThrows => "assert_throws",
        Opcode::AssertDoesNotThrow => "assert_does_not_throw",
        Opcode::AssertRejects => "assert_rejects",
        Opcode::AssertDoesNotReject => "assert_does_not_reject",
        Opcode::AssertFail => "assert_fail",
        Opcode::AddI32 => "add_i32",
        Opcode::AddF64 => "add_f64",
        Opcode::SubI32 => "sub_i32",
        Opcode::SubF64 => "sub_f64",
        Opcode::MulI32 => "mul_i32",
        Opcode::MulF64 => "mul_f64",
        Opcode::RetIfLteI => "ret_if_lte_i",
        Opcode::AddAccReg => "add_acc_reg",
        Opcode::Call1Add => "call1_add",
        Opcode::Call2Add => "call2_add",
        Opcode::LoadKAdd => "load_k_add",
        Opcode::LoadKCmp => "load_k_cmp",
        Opcode::CmpJmp => "cmp_jmp",
        Opcode::GetPropCall => "get_prop_call",
        Opcode::CallRet => "call_ret",
        Opcode::AddI32Fast => "add_i32_fast",
        Opcode::AddF64Fast => "add_f64_fast",
        Opcode::SubI32Fast => "sub_i32_fast",
        Opcode::MulI32Fast => "mul_i32_fast",
        Opcode::EqI32Fast => "eq_i32_fast",
        Opcode::LtI32Fast => "lt_i32_fast",
        Opcode::JmpI32Fast => "jmp_i32_fast",
        Opcode::GetPropMono => "get_prop_mono",
        Opcode::CallMono => "call_mono",
        Opcode::Call0 => "call0",
        Opcode::Call1 => "call1",
        Opcode::Call2 => "call2",
        Opcode::Call3 => "call3",
        Opcode::CallMethod1 => "call_method1",
        Opcode::CallMethod2 => "call_method2",
        Opcode::LoadAdd => "load_add",
        Opcode::LoadSub => "load_sub",
        Opcode::LoadMul => "load_mul",
        Opcode::LoadInc => "load_inc",
        Opcode::LoadDec => "load_dec",
        Opcode::LoadCmpEq => "load_cmp_eq",
        Opcode::LoadCmpLt => "load_cmp_lt",
        Opcode::LoadJfalse => "load_jfalse",
        Opcode::LoadCmpEqJfalse => "load_cmp_eq_jfalse",
        Opcode::LoadCmpLtJfalse => "load_cmp_lt_jfalse",
        Opcode::LoadGetProp => "load_get_prop",
        Opcode::LoadGetPropCmpEq => "load_get_prop_cmp_eq",
        Opcode::GetProp2Ic => "get_prop2_ic",
        Opcode::GetProp3Ic => "get_prop3_ic",
        Opcode::GetElem => "get_elem",
        Opcode::SetElem => "set_elem",
        Opcode::GetPropElem => "get_prop_elem",
        Opcode::CallMethodIc => "call_method_ic",
        Opcode::CallMethod2Ic => "call_method2_ic",
        Opcode::Reserved(n) => reserved_name(n),
    }
}

/// The name of a reserved byte in the clean listing.
pub open spec fn clean_reserved_name(n: u8) -> &'static str {
    if 61 <= n <= 63 {
        "reserved6163"
    } else if 123 <= n <= 127 {
        "reserved123127"
    } else if 130 <= n <= 159 {
        "reserved130159"
    } else if 174 <= n <= 199 {
        "reserved174199"
    } else if 225 <= n <= 239 {
        "reserved225239"
    } else if 243 <= n {
        "reserved243255"
    } else {
        "reserved"
    }
}

fn clean_reserved_name_of(n: u8) -> (r: &'static str)
    ensures
        r == clean_reserved_name(n),
{
    if 61 <= n && n <= 63 {
        "reserved6163"
    } else if 123 <= n && n <= 127 {
        "reserved123127"
    } else if 130 <= n && n <= 159 {
        "reserved130159"
    } else if 174 <= n && n <= 199 {
        "reserved174199"
    } else if 225 <= n && n <= 239 {
        "reserved225239"
    } else if 243 <= n {
        "reserved243255"
    } else {
        "reserved"
    }
}

/// The mnemonic of the clean listing.
pub open spec fn clean_mnemonic(op: Opcode) -> &'static str {
    match op {
        Opcode::Mov => "mov",
        Opcode::LoadK => "loadk",
        Opcode::Add => "add",
        Opcode::GetPropIc => "getpropic",
        Opcode::Call => "call",
        Opcode::Jmp => "jmp",
        Opcode::LoadI => "loadi",
        Opcode::JmpTrue => "jmptrue",
        Opcode::JmpFalse => "jmpfalse",
        Opcode::SetPropIc => "setpropic",
        Opcode::AddAccImm8 => "addaccimm8",
        Opcode::IncAcc => "incacc",
        Opcode::LoadThis => "loadthis",
        Opcode::Load0 => "load0",
        Opcode::Load1 => "load1",
        Opcode::Eq => "eq",
        Opcode::Lt => "lt",
        Opcode::Lte => "lte",
        Opcode::AddAcc => "addacc",
        Opcode::SubAcc => "subacc",
        Opcode::MulAcc => "mulacc",
        Opcode::DivAcc => "divacc",
        Opcode::LoadNull => "loadnull",
        Opcode::LoadTrue => "loadtrue",
        Opcode::LoadFalse => "loadfalse",
        Opcode::LoadGlobalIc => "loadglobalic",
        Opcode::SetGlobalIc => "setglobalic",
        Opcode::Typeof => "typeof",
        Opcode::ToNum => "tonum",
        Opcode::ToStr => "tostr",
        Opcode::IsUndef => "isundef",
        Opcode::IsNull => "isnull",
        Opcode::SubAccImm8 => "subaccimm8",
        Opcode::MulAccImm8 => "mulaccimm8",
        Opcode::DivAccImm8 => "divaccimm8",
        Opcode::AddStrAcc => "addstracc",
        Opcode::AddI => "addi",
        Opcode::SubI => "subi",
        Opcode::MulI => "muli",
        Opcode::DivI => "divi",
        Opcode::ModI => "modi",
        Opcode::Mod => "mod",
        Opcode::Neg => "neg",
        Opcode::Inc => "inc",
        Opcode::Dec => "dec",
        Opcode::AddStr => "addstr",
        Opcode::ToPrimitive => "toprimitive",
        Opcode::GetPropAcc => "getpropacc",
        Opcode::SetPropAcc => "setpropacc",
        Opcode::GetIdxFast => "getidxfast",
        Opcode::SetIdxFast => "setidxfast",
        Opcode::LoadArg => "loadarg",
        Opcode::LoadAcc => "loadacc",
        Opcode::StrictEq => "stricteq",
        Opcode::StrictNeq => "strictneq",
        Opcode::BitAnd => "bitand",
        Opcode::BitOr => "bitor",
        Opcode::BitXor => "bitxor",
        Opcode::BitNot => "bitnot",
        Opcode::Shl => "shl",
        Opcode::Shr => "shr",
        Opcode::Ushr => "ushr",
        Opcode::Pow => "pow",
        Opcode::LogicalAnd => "logicaland",
        Opcode::LogicalOr => "logicalor",
        Opcode::NullishCoalesce => "nullishcoalesce",
        Opcode::In => "in",
        Opcode::Instanceof => "instanceof",
        Opcode::GetLengthIc => "getlengthic",
        Opcode::ArrayPushAcc => "arraypushacc",
        Opcode::NewObj => "newobj",
        Opcode::NewArr => "newarr",
        Opcode::NewFunc => "newfunc",
        Opcode::NewClass => "newclass",
        Opcode::GetProp => "getprop",
        Opcode::SetProp => "setprop",
        Opcode::GetIdxIc => "getidxic",
        Opcode::SetIdxIc => "setidxic",
        Opcode::GetGlobal => "getglobal",
        Opcode::SetGlobal => "setglobal",
        Opcode::GetUpval => "getupval",
        Opcode::SetUpval => "setupval",
        Opcode::GetScope => "getscope",
        Opcode::SetScope => "setscope",
        Opcode::ResolveScope => "resolvescope",
        Opcode::GetSuper => "getsuper",
        Opcode::SetSuper => "setsuper",
        Opcode::DeleteProp => "deleteprop",
        Opcode::HasProp => "hasprop",
        Opcode::Keys => "keys",
        Opcode::ForIn => "forin",
        Opcode::IteratorNext => "iteratornext",
        Opcode::Spread => "spread",
        Opcode::Destructure => "destructure",
        Opcode::CreateEnv => "createenv",
        Opcode::LoadName => "loadname",
        Opcode::StoreName => "storename",
        Opcode::InitName => "initname",
        Opcode::LoadClosure => "loadclosure",
        Opcode::NewThis => "newthis",
        Opcode::TypeofName => "typeofname",
        Opcode::JmpEq => "jmpeq",
        Opcode::JmpNeq => "jmpneq",
        Opcode::JmpLt => "jmplt",
        Opcode::JmpLte => "jmplte",
        Opcode::LoopIncJmp => "loopincjmp",
        Opcode::Switch => "switch",
        Opcode::LoopHint => "loophint",
        Opcode::Ret => "ret",
        Opcode::RetU => "retu",
        Opcode::RetReg => "retreg",
        Opcode::TailCall => "tailcall",
        Opcode::Construct => "construct",
        Opcode::CallVar => "callvar",
        Opcode::Enter => "enter",
        Opcode::Leave => "leave",
        Opcode::Yield => "yield",
        Opcode::Await => "await",
        Opcode::Throw => "throw",
        Opcode::Try => "try",
        Opcode::EndTry => "endtry",
        Opcode::Catch => "catch",
        Opcode::Finally => "finally",
        Opcode::CallIc => "callic",
        Opcode::CallIcVar => "callicvar",
        Opcode::ProfileType => "profiletype",
        Opcode::ProfileCall => "profilecall",
        Opcode::ProfileRet => "profileret",
        Opcode::CheckType => "checktype",
        Opcode::CheckStruct => "checkstruct",
        Opcode::CheckIc => "checkic",
        Opcode::IcInit => "icinit",
        Opcode::IcUpdate => "icupdate",
        Opcode::IcMiss => "icmiss",
        Opcode::OsrEntry => "osrentry",
        Opcode::ProfileHotLoop => "profilehotloop",
        Opcode::OsrExit => "osrexit",
        Opcode::JitHint => "jithint",
        Opcode::SafetyCheck => "safetycheck",
        Opcode::GetPropIcCall => "getpropiccall",
        Opcode::IncJmpFalseLoop => "incjmpfalseloop",
        Opcode::LoadKAddAcc => "loadkaddacc",
        Opcode::AddMov => "addmov",
        Opcode::EqJmpTrue => "eqjmptrue",
        Opcode::GetPropAccCall => "getpropacccall",
        Opcode::LoadKMulAcc => "loadkmulacc",
        Opcode::LtJmp => "ltjmp",
        Opcode::GetPropIcMov => "getpropicmov",
        Opcode::GetPropAddImmSetPropIc => "getpropaddimmsetpropic",
        Opcode::AddAccImm8Mov => "addaccimm8mov",
        Opcode::CallIcSuper => "callicsuper",
        Opcode::LoadThisCall => "loadthiscall",
        Opcode::EqJmpFalse => "eqjmpfalse",
        Opcode::LoadKSubAcc => "loadksubacc",
        Opcode::GetLengthIcCall => "getlengthiccall",
        Opcode::AddStrAccMov => "addstraccmov",
        Opcode::IncAccJmp => "incaccjmp",
        Opcode::GetPropChainAcc => "getpropchainacc",
        Opcode::TestJmpTrue => "testjmptrue",
        Opcode::LoadArgCall => "loadargcall",
        Opcode::MulAccMov => "mulaccmov",
        Opcode::LteJmpLoop => "ltejmploop",
        Opcode::NewObjInitProp => "newobjinitprop",
        Opcode::ProfileHotCall => "profilehotcall",
        Opcode::Call1SubI => "call1subi",
        Opcode::JmpLteFalse => "jmpltefalse",
        Opcode::AssertValue => "assertvalue",
        Opcode::AssertOk => "assertok",
        Opcode::AssertEqual => "assertequal",
        Opcode::AssertNotEqual => "assertnotequal",
        Opcode::AssertDeepEqual => "assertdeepequal",
        Opcode::AssertNotDeepEqual => "assertnotdeepequal",
        Opcode::AssertStrictEqual => "assertstrictequal",
        Opcode::AssertNotStrictEqual => "assertnotstrictequal",
        Opcode::AssertDeepStrictEqual => "assertdeepstrictequal",
        Opcode::AssertNotDeepStrictEqual => "assertnotdeepstrictequal",
        Opcode::AssertThrows => "assertthrows",
        Opcode::AssertDoesNotThrow => "assertdoesnotthrow",
        Opcode::AssertRejects => "assertrejects",
        Opcode::AssertDoesNotReject => "assertdoesnotreject",
        Opcode::AssertFail => "assertfail",
        Opcode::AddI32 => "addi32",
        Opcode::AddF64 => "addf64",
        Opcode::SubI32 => "subi32",
        Opcode::SubF64 => "subf64",
        Opcode::MulI32 => "muli32",
        Opcode::MulF64 => "mulf64",
        Opcode::RetIfLteI => "retifltei",
        Opcode::AddAccReg => "addaccreg",
        Opcode::Call1Add => "call1add",
        Opcode::Call2Add => "call2add",
        Opcode::LoadKAdd => "loadkadd",
        Opcode::LoadKCmp => "loadkcmp",
        Opcode::CmpJmp => "cmpjmp",
        Opcode::GetPropCall => "getpropcall",
        Opcode::CallRet => "callret",
        Opcode::AddI32Fast => "addi32fast",
        Opcode::AddF64Fast => "addf64fast",
        Opcode::SubI32Fast => "subi32fast",
        Opcode::MulI32Fast => "muli32fast",
        Opcode::EqI32Fast => "eqi32fast",
        Opcode::LtI32Fast => "lti32fast",
        Opcode::JmpI32Fast => "jmpi32fast",
        Opcode::GetPropMono => "getpropmono",
        Opcode::CallMono => "callmono",
        Opcode::Call0 => "call0",
        Opcode::Call1 => "call1",
        Opcode::Call2 => "call2",
        Opcode::Call3 => "call3",
        Opcode::CallMethod1 => "callmethod1",
        Opcode::CallMethod2 => "callmethod2",
        Opcode::LoadAdd => "loadadd",
        Opcode::LoadSub => "loadsub",
        Opcode::LoadMul => "loadmul",
        Opcode::LoadInc => "loadinc",
        Opcode::LoadDec => "loaddec",
        Opcode::LoadCmpEq => "loadcmpeq",
        Opcode::LoadCmpLt => "loadcmplt",
        Opcode::LoadJfalse => "loadjfalse",
        Opcode::LoadCmpEqJfalse => "loadcmpeqjfalse",
        Opcode::LoadCmpLtJfalse => "loadcmpltjfalse",
        Opcode::LoadGetProp => "loadgetprop",
        Opcode::LoadGetPropCmpEq => "loadgetpropcmpeq",
        Opcode::GetProp2Ic => "getprop2ic",
        Opcode::GetProp3Ic => "getprop3ic",
        Opcode::GetElem => "getelem",
        Opcode::SetElem => "setelem",
        Opcode::GetPropElem => "getpropelem",
        Opcode::CallMethodIc => "callmethodic",
        Opcode::CallMethod2Ic => "callmethod2ic",
        Opcode::Reserved(n) => clean_reserved_name(n),
    }
}

/// Calls written with a register and an argument count.
pub open spec fn is_call_ab(op: Opcode) -> bool {
    op == Opcode::Call || op == Opcode::TailCall || op == Opcode::Construct || op == Opcode::CallIc || op == Opcode::CallIcSuper || op == Opcode::LoadThisCall || op == Opcode::LoadArgCall
}

fn exec_is_call_ab(op: Opcode) -> (r: bool)
    ensures
        r == is_call_ab(op),
{
    match op {
        Opcode::Call | Opcode::TailCall | Opcode::Construct | Opcode::CallIc | Opcode::CallIcSuper | Opcode::LoadThisCall | Opcode::LoadArgCall => true,
        _ => false,
    }
}

/// Compare-and-jump instructions whose C operand is the offset.
pub open spec fn is_compare_jump(op: Opcode) -> bool {
    op == Opcode::JmpEq || op == Opcode::JmpNeq || op == Opcode::JmpLt || op == Opcode::JmpLte || op == Opcode::JmpLteFalse
}

fn exec_is_compare_jump(op: Opcode) -> (r: bool)
    ensures
        r == is_compare_jump(op),
{
    match op {
        Opcode::JmpEq | Opcode::JmpNeq | Opcode::JmpLt | Opcode::JmpLte | Opcode::JmpLteFalse => true,
        _ => false,
    }
}

/// Loads of a constant or function from the pool.
pub open spec fn is_const_load(op: Opcode) -> bool {
    op == Opcode::LoadK || op == Opcode::NewFunc
}

fn exec_is_const_load(op: Opcode) -> (r: bool)
    ensures
        r == is_const_load(op),
{
    match op {
        Opcode::LoadK | Opcode::NewFunc => true,
        _ => false,
    }
}

/// Accesses to a global slot.
pub open spec fn is_global_access(op: Opcode) -> bool {
    op == Opcode::LoadGlobalIc || op == Opcode::SetGlobalIc || op == Opcode::GetGlobal || op == Opcode::SetGlobal
}

fn exec_is_global_access(op: Opcode) -> (r: bool)
    ensures
        r == is_global_access(op),
{
    match op {
        Opcode::LoadGlobalIc | Opcode::SetGlobalIc | Opcode::GetGlobal | Opcode::SetGlobal => true,
        _ => false,
    }
}

/// Accesses to a named binding.
pub open spec fn is_name_access(op: Opcode) -> bool {
    op == Opcode::ResolveScope || op == Opcode::LoadName || op == Opcode::StoreName || op == Opcode::InitName || op == Opcode::TypeofName
}

fn exec_is_name_access(op: Opcode) -> (r: bool)
    ensures
        r == is_name_access(op),
{
    match op {
        Opcode::ResolveScope | Opcode::LoadName | Opcode::StoreName | Opcode::InitName | Opcode::TypeofName => true,
        _ => false,
    }
}

/// Accumulator arithmetic with a constant.
pub open spec fn is_const_acc(op: Opcode) -> bool {
    op == Opcode::LoadKAddAcc || op == Opcode::LoadKMulAcc || op == Opcode::LoadKSubAcc
}

fn exec_is_const_acc(op: Opcode) -> (r: bool)
    ensures
        r == is_const_acc(op),
{
    match op {
        Opcode::LoadKAddAcc | Opcode::LoadKMulAcc | Opcode::LoadKSubAcc => true,
        _ => false,
    }
}

/// Jumps that test a register.
pub open spec fn is_reg_jump(op: Opcode) -> bool {
    op == Opcode::JmpTrue || op == Opcode::JmpFalse || op == Opcode::LoopIncJmp || op == Opcode::Try || op == Opcode::IncJmpFalseLoop || op == Opcode::EqJmpTrue || op == Opcode::LtJmp || op == Opcode::EqJmpFalse || op == Opcode::IncAccJmp || op == Opcode::TestJmpTrue || op == Opcode::LteJmpLoop
}

fn exec_is_reg_jump(op: Opcode) -> (r: bool)
    ensures
        r == is_reg_jump(op),
{
    match op {
        Opcode::JmpTrue | Opcode::JmpFalse | Opcode::LoopIncJmp | Opcode::Try | Opcode::IncJmpFalseLoop | Opcode::EqJmpTrue | Opcode::LtJmp | Opcode::EqJmpFalse | Opcode::IncAccJmp | Opcode::TestJmpTrue | Opcode::LteJmpLoop => true,
        _ => false,
    }
}

/// Accumulator arithmetic with an 8-bit immediate in B.
pub open spec fn is_acc_imm(op: Opcode) -> bool {
    op == Opcode::AddAccImm8 || op == Opcode::SubAccImm8 || op == Opcode::MulAccImm8 || op == Opcode::DivAccImm8
}

fn exec_is_acc_imm(op: Opcode) -> (r: bool)
    ensures
        r == is_acc_imm(op),
{
    match op {
        Opcode::AddAccImm8 | Opcode::SubAccImm8 | Opcode::MulAccImm8 | Opcode::DivAccImm8 => true,
        _ => false,
    }
}

/// Accumulator operations on register B.
pub open spec fn is_acc_reg_b(op: Opcode) -> bool {
    op == Opcode::AddAcc || op == Opcode::SubAcc || op == Opcode::MulAcc || op == Opcode::DivAcc || op == Opcode::Neg || op == Opcode::Inc || op == Opcode::Dec || op == Opcode::ToPrimitive || op == Opcode::AddStrAcc
}

fn exec_is_acc_reg_b(op: Opcode) -> (r: bool)
    ensures
        r == is_acc_reg_b(op),
{
    match op {
        Opcode::AddAcc | Opcode::SubAcc | Opcode::MulAcc | Opcode::DivAcc | Opcode::Neg | Opcode::Inc | Opcode::Dec | Opcode::ToPrimitive | Opcode::AddStrAcc => true,
        _ => false,
    }
}

/// Operations on register A alone.
pub open spec fn is_single_reg_a(op: Opcode) -> bool {
    op == Opcode::ArrayPushAcc || op == Opcode::GetUpval || op == Opcode::SetUpval || op == Opcode::GetScope || op == Opcode::SetScope || op == Opcode::ForIn || op == Opcode::IteratorNext || op == Opcode::Spread || op == Opcode::Destructure || op == Opcode::CreateEnv || op == Opcode::LoadClosure || op == Opcode::NewThis
}

fn exec_is_single_reg_a(op: Opcode) -> (r: bool)
    ensures
        r == is_single_reg_a(op),
{
    match op {
        Opcode::ArrayPushAcc | Opcode::GetUpval | Opcode::SetUpval | Opcode::GetScope | Opcode::SetScope | Opcode::ForIn | Opcode::IteratorNext | Opcode::Spread | Opcode::Destructure | Opcode::CreateEnv | Opcode::LoadClosure | Opcode::NewThis => true,
        _ => false,
    }
}

/// Operations written without operands in the offset listing.
pub open spec fn is_bare(op: Opcode) -> bool {
    op == Opcode::IncAcc || op == Opcode::LoadThis || op == Opcode::Load0 || op == Opcode::Load1 || op == Opcode::LoadNull || op == Opcode::LoadTrue || op == Opcode::LoadFalse || op == Opcode::NewObj || op == Opcode::NewArr || op == Opcode::NewClass || op == Opcode::LoopHint || op == Opcode::Ret || op == Opcode::RetU || op == Opcode::Leave || op == Opcode::Yield || op == Opcode::Await || op == Opcode::EndTry || op == Opcode::Finally || op == Opcode::ProfileRet || op == Opcode::IcMiss || op == Opcode::OsrEntry || op == Opcode::ProfileHotLoop || op == Opcode::OsrExit || op == Opcode::JitHint || op == Opcode::SafetyCheck || op == Opcode::AssertValue || op == Opcode::AssertOk || op == Opcode::AssertFail || op == Opcode::AssertThrows || op == Opcode::AssertDoesNotThrow || op == Opcode::AssertRejects || op == Opcode::AssertDoesNotReject
}

fn exec_is_bare(op: Opcode) -> (r: bool)
    ensures
        r == is_bare(op),
{
    match op {
        Opcode::IncAcc | Opcode::LoadThis | Opcode::Load0 | Opcode::Load1 | Opcode::LoadNull | Opcode::LoadTrue | Opcode::LoadFalse | Opcode::NewObj | Opcode::NewArr | Opcode::NewClass | Opcode::LoopHint | Opcode::Ret | Opcode::RetU | Opcode::Leave | Opcode::Yield | Opcode::Await | Opcode::EndTry | Opcode::Finally | Opcode::ProfileRet | Opcode::IcMiss | Opcode::OsrEntry | Opcode::ProfileHotLoop | Opcode::OsrExit | Opcode::JitHint | Opcode::SafetyCheck | Opcode::AssertValue | Opcode::AssertOk | Opcode::AssertFail | Opcode::AssertThrows | Opcode::AssertDoesNotThrow | Opcode::AssertRejects | Opcode::AssertDoesNotReject => true,
        _ => false,
    }
}

/// Operations written without operands in the clean listing.
pub open spec fn is_bare_clean(op: Opcode) -> bool {
    op == Opcode::IncAcc || op == Opcode::LoadThis || op == Opcode::Load0 || op == Opcode::Load1 || op == Opcode::LoadNull || op == Opcode::LoadTrue || op == Opcode::LoadFalse || op == Opcode::NewObj || op == Opcode::NewArr || op == Opcode::NewClass || op == Opcode::LoopHint || op == Opcode::Ret || op == Opcode::RetU || op == Opcode::Leave || op == Opcode::Yield || op == Opcode::Await || op == Opcode::EndTry || op == Opcode::Finally || op == Opcode::ProfileRet || op == Opcode::IcMiss || op == Opcode::OsrEntry || op == Opcode::ProfileHotLoop || op == Opcode::OsrExit || op == Opcode::JitHint || op == Opcode::SafetyCheck
}

fn exec_is_bare_clean(op: Opcode) -> (r: bool)
    ensures
        r == is_bare_clean(op),
{
    match op {
        Opcode::IncAcc | Opcode::LoadThis | Opcode::Load0 | Opcode::Load1 | Opcode::LoadNull | Opcode::LoadTrue | Opcode::LoadFalse | Opcode::NewObj | Opcode::NewArr | Opcode::NewClass | Opcode::LoopHint | Opcode::Ret | Opcode::RetU | Opcode::Leave | Opcode::Yield | Opcode::Await | Opcode::EndTry | Opcode::Finally | Opcode::ProfileRet | Opcode::IcMiss | Opcode::OsrEntry | Opcode::ProfileHotLoop | Opcode::OsrExit | Opcode::JitHint | Opcode::SafetyCheck => true,
        _ => false,
    }
}

/// Byte offset of the jump target `pc + offset + 1`, read as Rust does: a
/// negative index wraps around and the product saturates.
pub open spec fn target_bytes(pc: usize, offset: int) -> nat {
    let v = pc + offset + 1;
    let w = if v < 0 { v + usize::MAX + 1 } else { v };
    if w > usize::MAX / 4 { usize::MAX as nat } else { (w * 4) as nat }
}

fn jump_target_bytes(pc: usize, offset: i64) -> (r: usize)
    requires
        pc <= usize::MAX / 4,
        -0x8000 <= offset < 0x8000,
    ensures
        r == target_bytes(pc, offset as int),
{
    let v: i128 = pc as i128 + offset as i128 + 1;
    let w: u128 = if v < 0 {
        (v + usize::MAX as i128 + 1) as u128
    } else {
        v as u128
    };
    if w > (usize::MAX / 4) as u128 {
        usize::MAX
    } else {
        (w * 4) as usize
    }
}

/// Text of a constant-pool operand.
pub open spec fn const_text(bx: u16, nconst: nat) -> Seq<char> {
    if bx < nconst {
        "const["@ + dec(bx as int) + "]"@
    } else {
        "const[out of bounds]"@
    }
}

pub open spec fn sat_inc(a: u8, k: u8) -> int {
    if a + k > 255 { 255 } else { a + k }
}

/// Operands of the offset listing, after the mnemonic.
pub open spec fn asm_operands(i: AsmInstruction, nconst: nat) -> Seq<char> {
    let op = i.opcode;
    match i.format {
        Format::ABC => if is_call_ab(op) {
            " r"@ + dec(i.a as int) + ", "@ + dec(i.b as int)
        } else if op == Opcode::Call1SubI {
            " r"@ + dec(i.a as int) + ", r"@ + dec(i.b as int) + ", "@ + dec((i.c as i8) as int)
        } else if is_compare_jump(op) {
            " r"@ + dec(i.a as int) + ", r"@ + dec(i.b as int) + ", -> "@ + hex4(
                target_bytes(i.pc, (i.c as i8) as int),
            )
        } else {
            " r"@ + dec(i.a as int) + ", r"@ + dec(i.b as int) + ", r"@ + dec(i.c as int)
        },
        Format::ABx => if is_const_load(op) {
            " r"@ + dec(i.a as int) + ", "@ + const_text(i.bx, nconst)
        } else if is_global_access(op) {
            " r"@ + dec(i.a as int) + ", global["@ + dec(i.bx as int) + "]"@
        } else if is_name_access(op) {
            " r"@ + dec(i.a as int) + ", identifier["@ + dec(i.bx as int) + "]"@
        } else if op == Opcode::CallMethod1 {
            " r"@ + dec(i.a as int) + ", property["@ + dec(i.bx as int) + "], r"@ + dec(
                sat_inc(i.a, 1),
            )
        } else if op == Opcode::CallMethod2 {
            " r"@ + dec(i.a as int) + ", property["@ + dec(i.bx as int) + "], r"@ + dec(
                sat_inc(i.a, 1),
            ) + ", r"@ + dec(sat_inc(i.a, 2))
        } else if is_const_acc(op) {
            " "@ + const_text(i.bx, nconst)
        } else {
            " r"@ + dec(i.a as int) + ", "@ + dec(i.bx as int)
        },
        Format::AsBx => if op == Opcode::Jmp {
            " -> "@ + hex4(target_bytes(i.pc, i.sbx as int))
        } else if op == Opcode::LoadI {
            " r"@ + dec(i.a as int) + ", "@ + dec(i.sbx as int)
        } else if is_reg_jump(op) {
            " r"@ + dec(i.a as int) + ", -> "@ + hex4(target_bytes(i.pc, i.sbx as int))
        } else {
            " r"@ + dec(i.a as int) + ", "@ + dec(i.sbx as int)
        },
        Format::A => if is_acc_imm(op) {
            " "@ + dec((i.b as i8) as int)
        } else if is_acc_reg_b(op) {
            " r"@ + dec(i.b as int)
        } else if is_single_reg_a(op) {
            " r"@ + dec(i.a as int)
        } else if is_bare(op) {
            Seq::<char>::empty()
        } else {
            " r"@ + dec(i.a as int)
        },
        Format::BC => " r"@ + dec(i.b as int) + ", r"@ + dec(i.c as int),
    }
}

/// The offset listing of an instruction.
pub open spec fn asm_text(i: AsmInstruction, nconst: nat) -> Seq<char> {
    hex4((i.pc * 4) as nat) + ": "@ + mnemonic(i.opcode)@ + asm_operands(i, nconst)
}

/// Operands of the clean listing, after the mnemonic.
pub open spec fn clean_operands(i: AsmInstruction, nconst: nat) -> Seq<char> {
    let op = i.opcode;
    match i.format {
        Format::ABC => if is_compare_jump(op) && !is_call_ab(op) && op != Opcode::Call1SubI {
            " r"@ + dec(i.a as int) + ", r"@ + dec(i.b as int) + ", -> L"@ + dec((i.c as i8) as int)
        } else {
            asm_operands(i, nconst)
        },
        Format::ABx => asm_operands(i, nconst),
        Format::AsBx => if op == Opcode::Jmp {
            " -> L"@ + dec(i.sbx as int)
        } else if op == Opcode::LoadI {
            " r"@ + dec(i.a as int) + ", "@ + dec(i.sbx as int)
        } else if is_reg_jump(op) {
            " r"@ + dec(i.a as int) + ", -> L"@ + dec(i.sbx as int)
        } else {
            " r"@ + dec(i.a as int) + ", "@ + dec(i.sbx as int)
        },
        Format::A => if is_acc_imm(op) {
            " "@ + dec((i.b as i8) as int)
        } else if is_acc_reg_b(op) {
            " r"@ + dec(i.b as int)
        } else if is_single_reg_a(op) {
            " r"@ + dec(i.a as int)
        } else if is_bare_clean(op) {
            Seq::<char>::empty()
        } else {
            " r"@ + dec(i.a as int)
        },
        Format::BC => asm_operands(i, nconst),
    }
}

/// The clean listing of an instruction.
pub open spec fn clean_text(i: AsmInstruction, nconst: nat) -> Seq<char> {
    clean_mnemonic(i.opcode)@ + clean_operands(i, nconst)
}

fn push_reg(s: &mut String, prefix: &str, r: u8)
    ensures
        final(s)@ == old(s)@ + prefix@ + dec(r as int),
{
    push_str(s, prefix);
    push_dec_u64(s, r as u64);
}

fn push_const(s: &mut String, bx: u16, nconst: usize)
    ensures
        final(s)@ == old(s)@ + const_text(bx, nconst as nat),
{
    if (bx as usize) < nconst {
        push_str(s, "const[");
        push_dec_u64(s, bx as u64);
        push_str(s, "]");
        proof {
            assert(final(s)@ =~= old(s)@ + const_text(bx, nconst as nat));
        }
    } else {
        push_str(s, "const[out of bounds]");
    }
}

impl AsmInstruction {
    /// Decodes the word `raw` found at index `pc`.
    pub fn decode(pc: usize, raw: u32) -> (r: Self)
        ensures
            r == decoded(pc, raw),
    {
        let opcode = Opcode::from_u8((raw & 0xFF) as u8);
        let a = ((raw >> 8) & 0xFF) as u8;
        let b = ((raw >> 16) & 0xFF) as u8;
        let c = ((raw >> 24) & 0xFF) as u8;
        let bx = ((raw >> 16) & 0xFFFF) as u16;
        let sbx = bx as i16;
        let format = match opcode {
            Opcode::Mov | Opcode::GetPropIc | Opcode::Call | Opcode::SetPropIc | Opcode::Typeof | Opcode::ToNum | Opcode::ToStr | Opcode::IsUndef | Opcode::IsNull | Opcode::AddI | Opcode::SubI | Opcode::MulI | Opcode::DivI | Opcode::ModI | Opcode::GetIdxFast | Opcode::SetIdxFast | Opcode::LoadArg | Opcode::LoadAcc | Opcode::GetLengthIc | Opcode::GetProp | Opcode::SetProp | Opcode::GetIdxIc | Opcode::SetIdxIc | Opcode::GetSuper | Opcode::SetSuper | Opcode::DeleteProp | Opcode::HasProp | Opcode::Keys | Opcode::JmpEq | Opcode::JmpNeq | Opcode::JmpLt | Opcode::JmpLte | Opcode::Switch | Opcode::TailCall | Opcode::Construct | Opcode::CallVar | Opcode::Enter | Opcode::Throw | Opcode::Catch | Opcode::CallIc | Opcode::CallIcVar | Opcode::ProfileType | Opcode::ProfileCall | Opcode::CheckType | Opcode::CheckStruct | Opcode::CheckIc | Opcode::IcInit | Opcode::IcUpdate | Opcode::GetPropIcCall | Opcode::AddMov | Opcode::GetPropIcMov | Opcode::GetPropAddImmSetPropIc | Opcode::AddAccImm8Mov | Opcode::CallIcSuper | Opcode::LoadThisCall | Opcode::AddStrAccMov | Opcode::GetPropChainAcc | Opcode::LoadArgCall | Opcode::MulAccMov | Opcode::NewObjInitProp | Opcode::ProfileHotCall | Opcode::Call1SubI | Opcode::JmpLteFalse | Opcode::AddI32 | Opcode::AddF64 | Opcode::SubI32 | Opcode::SubF64 | Opcode::MulI32 | Opcode::MulF64 | Opcode::RetIfLteI | Opcode::AddAccReg | Opcode::Call1Add | Opcode::Call2Add | Opcode::LoadKAdd | Opcode::LoadKCmp | Opcode::CmpJmp | Opcode::GetPropCall | Opcode::CallRet | Opcode::AddI32Fast | Opcode::AddF64Fast | Opcode::SubI32Fast | Opcode::MulI32Fast | Opcode::EqI32Fast | Opcode::LtI32Fast | Opcode::JmpI32Fast | Opcode::GetPropMono | Opcode::CallMono | Opcode::Call0 | Opcode::Call1 | Opcode::Call2 | Opcode::Call3 | Opcode::LoadAdd | Opcode::LoadSub | Opcode::LoadMul | Opcode::LoadInc | Opcode::LoadDec | Opcode::LoadCmpEq | Opcode::LoadCmpLt | Opcode::LoadJfalse | Opcode::LoadCmpEqJfalse | Opcode::LoadCmpLtJfalse | Opcode::LoadGetProp | Opcode::LoadGetPropCmpEq | Opcode::GetProp2Ic | Opcode::GetProp3Ic | Opcode::GetElem | Opcode::SetElem | Opcode::GetPropElem | Opcode::CallMethodIc | Opcode::CallMethod2Ic => Format::ABC,
            Opcode::LoadK | Opcode::LoadGlobalIc | Opcode::SetGlobalIc | Opcode::NewFunc | Opcode::GetGlobal | Opcode::SetGlobal | Opcode::ResolveScope | Opcode::LoadName | Opcode::StoreName | Opcode::InitName | Opcode::TypeofName | Opcode::LoadKAddAcc | Opcode::LoadKMulAcc | Opcode::LoadKSubAcc | Opcode::CallMethod1 | Opcode::CallMethod2 => Format::ABx,
            Opcode::Add | Opcode::Eq | Opcode::Lt | Opcode::Lte | Opcode::Mod | Opcode::AddStr | Opcode::GetPropAcc | Opcode::SetPropAcc | Opcode::StrictEq | Opcode::StrictNeq | Opcode::BitAnd | Opcode::BitOr | Opcode::BitXor | Opcode::Shl | Opcode::Shr | Opcode::Ushr | Opcode::Pow | Opcode::LogicalAnd | Opcode::LogicalOr | Opcode::NullishCoalesce | Opcode::In | Opcode::Instanceof | Opcode::GetPropAccCall | Opcode::GetLengthIcCall | Opcode::AssertEqual | Opcode::AssertNotEqual | Opcode::AssertDeepEqual | Opcode::AssertNotDeepEqual | Opcode::AssertStrictEqual | Opcode::AssertNotStrictEqual | Opcode::AssertDeepStrictEqual | Opcode::AssertNotDeepStrictEqual => Format::BC,
            Opcode::Jmp | Opcode::LoadI | Opcode::JmpTrue | Opcode::JmpFalse | Opcode::LoopIncJmp | Opcode::Try | Opcode::IncJmpFalseLoop | Opcode::EqJmpTrue | Opcode::LtJmp | Opcode::EqJmpFalse | Opcode::IncAccJmp | Opcode::TestJmpTrue | Opcode::LteJmpLoop => Format::AsBx,
            Opcode::AddAccImm8 | Opcode::IncAcc | Opcode::LoadThis | Opcode::Load0 | Opcode::Load1 | Opcode::AddAcc | Opcode::SubAcc | Opcode::MulAcc | Opcode::DivAcc | Opcode::LoadNull | Opcode::LoadTrue | Opcode::LoadFalse | Opcode::SubAccImm8 | Opcode::MulAccImm8 | Opcode::DivAccImm8 | Opcode::AddStrAcc | Opcode::Neg | Opcode::Inc | Opcode::Dec | Opcode::ToPrimitive | Opcode::BitNot | Opcode::ArrayPushAcc | Opcode::NewObj | Opcode::NewArr | Opcode::NewClass | Opcode::GetUpval | Opcode::SetUpval | Opcode::GetScope | Opcode::SetScope | Opcode::ForIn | Opcode::IteratorNext | Opcode::Spread | Opcode::Destructure | Opcode::CreateEnv | Opcode::LoadClosure | Opcode::NewThis | Opcode::LoopHint | Opcode::Ret | Opcode::RetU | Opcode::RetReg | Opcode::Leave | Opcode::Yield | Opcode::Await | Opcode::EndTry | Opcode::Finally | Opcode::ProfileRet | Opcode::IcMiss | Opcode::OsrEntry | Opcode::ProfileHotLoop | Opcode::OsrExit | Opcode::JitHint | Opcode::SafetyCheck | Opcode::AssertValue | Opcode::AssertOk | Opcode::AssertThrows | Opcode::AssertDoesNotThrow | Opcode::AssertRejects | Opcode::AssertDoesNotReject | Opcode::AssertFail => Format::A,
            Opcode::Reserved(_) => Format::ABC,
        };
        AsmInstruction { pc, raw, opcode, format, a, b, c, bx, sbx }
    }

    /// The mnemonic of the offset listing.
    pub fn opcode_to_mnemonic(&self) -> (r: &'static str)
        ensures
            r == mnemonic(self.opcode),
    {
        match self.opcode {
            Opcode::Mov => "mov",
            Opcode::LoadK => "load_k",
            Opcode::Add => "add",
            Opcode::GetPropIc => "get_prop_ic",
            Opcode::Call => "call",
            Opcode::Jmp => "jmp",
            Opcode::LoadI => "load_i",
            Opcode::JmpTrue => "jmp_true",
            Opcode::JmpFalse => "jmp_false",
            Opcode::SetPropIc => "set_prop_ic",
            Opcode::AddAccImm8 => "add_acc_imm8",
            Opcode::IncAcc => "inc_acc",
            Opcode::LoadThis => "load_this",
            Opcode::Load0 => "load_0",
            Opcode::Load1 => "load_1",
            Opcode::Eq => "eq",
            Opcode::Lt => "lt",
            Opcode::Lte => "lte",
            Opcode::AddAcc => "add_acc",
            Opcode::SubAcc => "sub_acc",
            Opcode::MulAcc => "mul_acc",
            Opcode::DivAcc => "div_acc",
            Opcode::LoadNull => "load_null",
            Opcode::LoadTrue => "load_true",
            Opcode::LoadFalse => "load_false",
            Opcode::LoadGlobalIc => "load_global_ic",
            Opcode::SetGlobalIc => "set_global_ic",
            Opcode::Typeof => "typeof",
            Opcode::ToNum => "to_num",
            Opcode::ToStr => "to_str",
            Opcode::IsUndef => "is_undef",
            Opcode::IsNull => "is_null",
            Opcode::SubAccImm8 => "sub_acc_imm8",
            Opcode::MulAccImm8 => "mul_acc_imm8",
            Opcode::DivAccImm8 => "div_acc_imm8",
            Opcode::AddStrAcc => "add_str_acc",
            Opcode::AddI => "add_i",
            Opcode::SubI => "sub_i",
            Opcode::MulI => "mul_i",
            Opcode::DivI => "div_i",
            Opcode::ModI => "mod_i",
            Opcode::Mod => "mod",
            Opcode::Neg => "neg",
            Opcode::Inc => "inc",
            Opcode::Dec => "dec",
            Opcode::AddStr => "add_str",
            Opcode::ToPrimitive => "to_primitive",
            Opcode::GetPropAcc => "get_prop_acc",
            Opcode::SetPropAcc => "set_prop_acc",
            Opcode::GetIdxFast => "get_idx_fast",
            Opcode::SetIdxFast => "set_idx_fast",
            Opcode::LoadArg => "load_arg",
            Opcode::LoadAcc => "load_acc",
            Opcode::StrictEq => "strict_eq",
            Opcode::StrictNeq => "strict_neq",
            Opcode::BitAnd => "bit_and",
            Opcode::BitOr => "bit_or",
            Opcode::BitXor => "bit_xor",
            Opcode::BitNot => "bit_not",
            Opcode::Shl => "shl",
            Opcode::Shr => "shr",
            Opcode::Ushr => "ushr",
            Opcode::Pow => "pow",
            Opcode::LogicalAnd => "logical_and",
            Opcode::LogicalOr => "logical_or",
            Opcode::NullishCoalesce => "nullish_coalesce",
            Opcode::In => "in",
            Opcode::Instanceof => "instanceof",
            Opcode::GetLengthIc => "get_length_ic",
            Opcode::ArrayPushAcc => "array_push_acc",
            Opcode::NewObj => "new_obj",
            Opcode::NewArr => "new_arr",
            Opcode::NewFunc => "new_func",
            Opcode::NewClass => "new_class",
            Opcode::GetProp => "get_prop",
            Opcode::SetProp => "set_prop",
            Opcode::GetIdxIc => "get_idx_ic",
            Opcode::SetIdxIc => "set_idx_ic",
            Opcode::GetGlobal => "get_global",
            Opcode::SetGlobal => "set_global",
            Opcode::GetUpval => "get_upval",
            Opcode::SetUpval => "set_upval",
            Opcode::GetScope => "get_scope",
            Opcode::SetScope => "set_scope",
            Opcode::ResolveScope => "resolve_scope",
            Opcode::GetSuper => "get_super",
            Opcode::SetSuper => "set_super",
            Opcode::DeleteProp => "delete_prop",
            Opcode::HasProp => "has_prop",
            Opcode::Keys => "keys",
            Opcode::ForIn => "for_in",
            Opcode::IteratorNext => "iterator_next",
            Opcode::Spread => "spread",
            Opcode::Destructure => "destructure",
            Opcode::CreateEnv => "create_env",
            Opcode::LoadName => "load_name",
            Opcode::StoreName => "store_name",
            Opcode::InitName => "init_name",
            Opcode::LoadClosure => "load_closure",
            Opcode::NewThis => "new_this",
            Opcode::TypeofName => "typeof_name",
            Opcode::JmpEq => "jmp_eq",
            Opcode::JmpNeq => "jmp_neq",
            Opcode::JmpLt => "jmp_lt",
            Opcode::JmpLte => "jmp_lte",
            Opcode::LoopIncJmp => "loop_inc_jmp",
            Opcode::Switch => "switch",
            Opcode::LoopHint => "loop_hint",
            Opcode::Ret => "ret",
            Opcode::RetU => "ret_u",
            Opcode::RetReg => "ret_reg",
            Opcode::TailCall => "tail_call",
            Opcode::Construct => "construct",
            Opcode::CallVar => "call_var",
            Opcode::Enter => "enter",
            Opcode::Leave => "leave",
            Opcode::Yield => "yield",
            Opcode::Await => "await",
            Opcode::Throw => "throw",
            Opcode::Try => "try",
            Opcode::EndTry => "end_try",
            Opcode::Catch => "catch",
            Opcode::Finally => "finally",
            Opcode::CallIc => "call_ic",
            Opcode::CallIcVar => "call_ic_var",
            Opcode::ProfileType => "profile_type",
            Opcode::ProfileCall => "profile_call",
            Opcode::ProfileRet => "profile_ret",
            Opcode::CheckType => "check_type",
            Opcode::CheckStruct => "check_struct",
            Opcode::CheckIc => "check_ic",
            Opcode::IcInit => "ic_init",
            Opcode::IcUpdate => "ic_update",
            Opcode::IcMiss => "ic_miss",
            Opcode::OsrEntry => "osr_entry",
            Opcode::ProfileHotLoop => "profile_hot_loop",
            Opcode::OsrExit => "osr_exit",
            Opcode::JitHint => "jit_hint",
            Opcode::SafetyCheck => "safety_check",
            Opcode::GetPropIcCall => "get_prop_ic_call",
            Opcode::IncJmpFalseLoop => "inc_jmp_false_loop",
            Opcode::LoadKAddAcc => "load_k_add_acc",
            Opcode::AddMov => "add_mov",
            Opcode::EqJmpTrue => "eq_jmp_true",
            Opcode::GetPropAccCall => "get_prop_acc_call",
            Opcode::LoadKMulAcc => "load_k_mul_acc",
            Opcode::LtJmp => "lt_jmp",
            Opcode::GetPropIcMov => "get_prop_ic_mov",
            Opcode::GetPropAddImmSetPropIc => "get_prop_add_imm_set_prop_ic",
            Opcode::AddAccImm8Mov => "add_acc_imm8_mov",
            Opcode::CallIcSuper => "call_ic_super",
            Opcode::LoadThisCall => "load_this_call",
            Opcode::EqJmpFalse => "eq_jmp_false",
            Opcode::LoadKSubAcc => "load_k_sub_acc",
            Opcode::GetLengthIcCall => "get_length_ic_call",
            Opcode::AddStrAccMov => "add_str_acc_mov",
            Opcode::IncAccJmp => "inc_acc_jmp",
            Opcode::GetPropChainAcc => "get_prop_chain_acc",
            Opcode::TestJmpTrue => "test_jmp_true",
            Opcode::LoadArgCall => "load_arg_call",
            Opcode::MulAccMov => "mul_acc_mov",
            Opcode::LteJmpLoop => "lte_jmp_loop",
            Opcode::NewObjInitProp => "new_obj_init_prop",
            Opcode::ProfileHotCall => "profile_hot_call",
            Opcode::Call1SubI => "call1_sub_i",
            Opcode::JmpLteFalse => "jmp_lte_false",
            Opcode::AssertValue => "assert_value",
            Opcode::AssertOk => "assert_ok",
            Opcode::AssertEqual => "assert_equal",
            Opcode::AssertNotEqual => "assert_not_equal",
            Opcode::AssertDeepEqual => "assert_deep_equal",
            Opcode::AssertNotDeepEqual => "assert_not_deep_equal",
            Opcode::AssertStrictEqual => "assert_strict_equal",
            Opcode::AssertNotStrictEqual => "assert_not_strict_equal",
            Opcode::AssertDeepStrictEqual => "assert_deep_strict_equal",
            Opcode::AssertNotDeepStrictEqual => "assert_not_deep_strict_equal",
            Opcode::AssertThrows => "assert_throws",
            Opcode::AssertDoesNotThrow => "assert_does_not_throw",
            Opcode::AssertRejects => "assert_rejects",
            Opcode::AssertDoesNotReject => "assert_does_not_reject",
            Opcode::AssertFail => "assert_fail",
            Opcode::AddI32 => "add_i32",
            Opcode::AddF64 => "add_f64",
            Opcode::SubI32 => "sub_i32",
            Opcode::SubF64 => "sub_f64",
            Opcode::MulI32 => "mul_i32",
            Opcode::MulF64 => "mul_f64",
            Opcode::RetIfLteI => "ret_if_lte_i",
            Opcode::AddAccReg => "add_acc_reg",
            Opcode::Call1Add => "call1_add",
            Opcode::Call2Add => "call2_add",
            Opcode::LoadKAdd => "load_k_add",
            Opcode::LoadKCmp => "load_k_cmp",
            Opcode::CmpJmp => "cmp_jmp",
            Opcode::GetPropCall => "get_prop_call",
            Opcode::CallRet => "call_ret",
            Opcode::AddI32Fast => "add_i32_fast",
            Opcode::AddF64Fast => "add_f64_fast",
            Opcode::SubI32Fast => "sub_i32_fast",
            Opcode::MulI32Fast => "mul_i32_fast",
            Opcode::EqI32Fast => "eq_i32_fast",
            Opcode::LtI32Fast => "lt_i32_fast",
            Opcode::JmpI32Fast => "jmp_i32_fast",
            Opcode::GetPropMono => "get_prop_mono",
            Opcode::CallMono => "call_mono",
            Opcode::Call0 => "call0",
            Opcode::Call1 => "call1",
            Opcode::Call2 => "call2",
            Opcode::Call3 => "call3",
            Opcode::CallMethod1 => "call_method1",
            Opcode::CallMethod2 => "call_method2",
            Opcode::LoadAdd => "load_add",
            Opcode::LoadSub => "load_sub",
            Opcode::LoadMul => "load_mul",
            Opcode::LoadInc => "load_inc",
            Opcode::LoadDec => "load_dec",
            Opcode::LoadCmpEq => "load_cmp_eq",
            Opcode::LoadCmpLt => "load_cmp_lt",
            Opcode::LoadJfalse => "load_jfalse",
            Opcode::LoadCmpEqJfalse => "load_cmp_eq_jfalse",
            Opcode::LoadCmpLtJfalse => "load_cmp_lt_jfalse",
            Opcode::LoadGetProp => "load_get_prop",
            Opcode::LoadGetPropCmpEq => "load_get_prop_cmp_eq",
            Opcode::GetProp2Ic => "get_prop2_ic",
            Opcode::GetProp3Ic => "get_prop3_ic",
            Opcode::GetElem => "get_elem",
            Opcode::SetElem => "set_elem",
            Opcode::GetPropElem => "get_prop_elem",
            Opcode::CallMethodIc => "call_method_ic",
            Opcode::CallMethod2Ic => "call_method2_ic",
            Opcode::Reserved(n) => reserved_name_of(n),
        }
    }

    /// The mnemonic of the clean listing.
    fn opcode_to_clean_mnemonic(&self) -> (r: &'static str)
        ensures
            r == clean_mnemonic(self.opcode),
    {
        match self.opcode {
            Opcode::Mov => "mov",
            Opcode::LoadK => "loadk",
            Opcode::Add => "add",
            Opcode::GetPropIc => "getpropic",
            Opcode::Call => "call",
            Opcode::Jmp => "jmp",
            Opcode::LoadI => "loadi",
            Opcode::JmpTrue => "jmptrue",
            Opcode::JmpFalse => "jmpfalse",
            Opcode::SetPropIc => "setpropic",
            Opcode::AddAccImm8 => "addaccimm8",
            Opcode::IncAcc => "incacc",
            Opcode::LoadThis => "loadthis",
            Opcode::Load0 => "load0",
            Opcode::Load1 => "load1",
            Opcode::Eq => "eq",
            Opcode::Lt => "lt",
            Opcode::Lte => "lte",
            Opcode::AddAcc => "addacc",
            Opcode::SubAcc => "subacc",
            Opcode::MulAcc => "mulacc",
            Opcode::DivAcc => "divacc",
            Opcode::LoadNull => "loadnull",
            Opcode::LoadTrue => "loadtrue",
            Opcode::LoadFalse => "loadfalse",
            Opcode::LoadGlobalIc => "loadglobalic",
            Opcode::SetGlobalIc => "setglobalic",
            Opcode::Typeof => "typeof",
            Opcode::ToNum => "tonum",
            Opcode::ToStr => "tostr",
            Opcode::IsUndef => "isundef",
            Opcode::IsNull => "isnull",
            Opcode::SubAccImm8 => "subaccimm8",
            Opcode::MulAccImm8 => "mulaccimm8",
            Opcode::DivAccImm8 => "divaccimm8",
            Opcode::AddStrAcc => "addstracc",
            Opcode::AddI => "addi",
            Opcode::SubI => "subi",
            Opcode::MulI => "muli",
            Opcode::DivI => "divi",
            Opcode::ModI => "modi",
            Opcode::Mod => "mod",
            Opcode::Neg => "neg",
            Opcode::Inc => "inc",
            Opcode::Dec => "dec",
            Opcode::AddStr => "addstr",
            Opcode::ToPrimitive => "toprimitive",
            Opcode::GetPropAcc => "getpropacc",
            Opcode::SetPropAcc => "setpropacc",
            Opcode::GetIdxFast => "getidxfast",
            Opcode::SetIdxFast => "setidxfast",
            Opcode::LoadArg => "loadarg",
            Opcode::LoadAcc => "loadacc",
            Opcode::StrictEq => "stricteq",
            Opcode::StrictNeq => "strictneq",
            Opcode::BitAnd => "bitand",
            Opcode::BitOr => "bitor",
            Opcode::BitXor => "bitxor",
            Opcode::BitNot => "bitnot",
            Opcode::Shl => "shl",
            Opcode::Shr => "shr",
            Opcode::Ushr => "ushr",
            Opcode::Pow => "pow",
            Opcode::LogicalAnd => "logicaland",
            Opcode::LogicalOr => "logicalor",
            Opcode::NullishCoalesce => "nullishcoalesce",
            Opcode::In => "in",
            Opcode::Instanceof => "instanceof",
            Opcode::GetLengthIc => "getlengthic",
            Opcode::ArrayPushAcc => "arraypushacc",
            Opcode::NewObj => "newobj",
            Opcode::NewArr => "newarr",
            Opcode::NewFunc => "newfunc",
            Opcode::NewClass => "newclass",
            Opcode::GetProp => "getprop",
            Opcode::SetProp => "setprop",
            Opcode::GetIdxIc => "getidxic",
            Opcode::SetIdxIc => "setidxic",
            Opcode::GetGlobal => "getglobal",
            Opcode::SetGlobal => "setglobal",
            Opcode::GetUpval => "getupval",
            Opcode::SetUpval => "setupval",
            Opcode::GetScope => "getscope",
            Opcode::SetScope => "setscope",
            Opcode::ResolveScope => "resolvescope",
            Opcode::GetSuper => "getsuper",
            Opcode::SetSuper => "setsuper",
            Opcode::DeleteProp => "deleteprop",
            Opcode::HasProp => "hasprop",
            Opcode::Keys => "keys",
            Opcode::ForIn => "forin",
            Opcode::IteratorNext => "iteratornext",
            Opcode::Spread => "spread",
            Opcode::Destructure => "destructure",
            Opcode::CreateEnv => "createenv",
            Opcode::LoadName => "loadname",
            Opcode::StoreName => "storename",
            Opcode::InitName => "initname",
            Opcode::LoadClosure => "loadclosure",
            Opcode::NewThis => "newthis",
            Opcode::TypeofName => "typeofname",
            Opcode::JmpEq => "jmpeq",
            Opcode::JmpNeq => "jmpneq",
            Opcode::JmpLt => "jmplt",
            Opcode::JmpLte => "jmplte",
            Opcode::LoopIncJmp => "loopincjmp",
            Opcode::Switch => "switch",
            Opcode::LoopHint => "loophint",
            Opcode::Ret => "ret",
            Opcode::RetU => "retu",
            Opcode::RetReg => "retreg",
            Opcode::TailCall => "tailcall",
            Opcode::Construct => "construct",
            Opcode::CallVar => "callvar",
            Opcode::Enter => "enter",
            Opcode::Leave => "leave",
            Opcode::Yield => "yield",
            Opcode::Await => "await",
            Opcode::Throw => "throw",
            Opcode::Try => "try",
            Opcode::EndTry => "endtry",
            Opcode::Catch => "catch",
            Opcode::Finally => "finally",
            Opcode::CallIc => "callic",
            Opcode::CallIcVar => "callicvar",
            Opcode::ProfileType => "profiletype",
            Opcode::ProfileCall => "profilecall",
            Opcode::ProfileRet => "profileret",
            Opcode::CheckType => "checktype",
            Opcode::CheckStruct => "checkstruct",
            Opcode::CheckIc => "checkic",
            Opcode::IcInit => "icinit",
            Opcode::IcUpdate => "icupdate",
            Opcode::IcMiss => "icmiss",
            Opcode::OsrEntry => "osrentry",
            Opcode::ProfileHotLoop => "profilehotloop",
            Opcode::OsrExit => "osrexit",
            Opcode::JitHint => "jithint",
            Opcode::SafetyCheck => "safetycheck",
            Opcode::GetPropIcCall => "getpropiccall",
            Opcode::IncJmpFalseLoop => "incjmpfalseloop",
            Opcode::LoadKAddAcc => "loadkaddacc",
            Opcode::AddMov => "addmov",
            Opcode::EqJmpTrue => "eqjmptrue",
            Opcode::GetPropAccCall => "getpropacccall",
            Opcode::LoadKMulAcc => "loadkmulacc",
            Opcode::LtJmp => "ltjmp",
            Opcode::GetPropIcMov => "getpropicmov",
            Opcode::GetPropAddImmSetPropIc => "getpropaddimmsetpropic",
            Opcode::AddAccImm8Mov => "addaccimm8mov",
            Opcode::CallIcSuper => "callicsuper",
            Opcode::LoadThisCall => "loadthiscall",
            Opcode::EqJmpFalse => "eqjmpfalse",
            Opcode::LoadKSubAcc => "loadksubacc",
            Opcode::GetLengthIcCall => "getlengthiccall",
            Opcode::AddStrAccMov => "addstraccmov",
            Opcode::IncAccJmp => "incaccjmp",
            Opcode::GetPropChainAcc => "getpropchainacc",
            Opcode::TestJmpTrue => "testjmptrue",
            Opcode::LoadArgCall => "loadargcall",
            Opcode::MulAccMov => "mulaccmov",
            Opcode::LteJmpLoop => "ltejmploop",
            Opcode::NewObjInitProp => "newobjinitprop",
            Opcode::ProfileHotCall => "profilehotcall",
            Opcode::Call1SubI => "call1subi",
            Opcode::JmpLteFalse => "jmpltefalse",
            Opcode::AssertValue => "assertvalue",
            Opcode::AssertOk => "assertok",
            Opcode::AssertEqual => "assertequal",
            Opcode::AssertNotEqual => "assertnotequal",
            Opcode::AssertDeepEqual => "assertdeepequal",
            Opcode::AssertNotDeepEqual => "assertnotdeepequal",
            Opcode::AssertStrictEqual => "assertstrictequal",
            Opcode::AssertNotStrictEqual => "assertnotstrictequal",
            Opcode::AssertDeepStrictEqual => "assertdeepstrictequal",
            Opcode::AssertNotDeepStrictEqual => "assertnotdeepstrictequal",
            Opcode::AssertThrows => "assertthrows",
            Opcode::AssertDoesNotThrow => "assertdoesnotthrow",
            Opcode::AssertRejects => "assertrejects",
            Opcode::AssertDoesNotReject => "assertdoesnotreject",
            Opcode::AssertFail => "assertfail",
            Opcode::AddI32 => "addi32",
            Opcode::AddF64 => "addf64",
            Opcode::SubI32 => "subi32",
            Opcode::SubF64 => "subf64",
            Opcode::MulI32 => "muli32",
            Opcode::MulF64 => "mulf64",
            Opcode::RetIfLteI => "retifltei",
            Opcode::AddAccReg => "addaccreg",
            Opcode::Call1Add => "call1add",
            Opcode::Call2Add => "call2add",
            Opcode::LoadKAdd => "loadkadd",
            Opcode::LoadKCmp => "loadkcmp",
            Opcode::CmpJmp => "cmpjmp",
            Opcode::GetPropCall => "getpropcall",
            Opcode::CallRet => "callret",
            Opcode::AddI32Fast => "addi32fast",
            Opcode::AddF64Fast => "addf64fast",
            Opcode::SubI32Fast => "subi32fast",
            Opcode::MulI32Fast => "muli32fast",
            Opcode::EqI32Fast => "eqi32fast",
            Opcode::LtI32Fast => "lti32fast",
            Opcode::JmpI32Fast => "jmpi32fast",
            Opcode::GetPropMono => "getpropmono",
            Opcode::CallMono => "callmono",
            Opcode::Call0 => "call0",
            Opcode::Call1 => "call1",
            Opcode::Call2 => "call2",
            Opcode::Call3 => "call3",
            Opcode::CallMethod1 => "callmethod1",
            Opcode::CallMethod2 => "callmethod2",
            Opcode::LoadAdd => "loadadd",
            Opcode::LoadSub => "loadsub",
            Opcode::LoadMul => "loadmul",
            Opcode::LoadInc => "loadinc",
            Opcode::LoadDec => "loaddec",
            Opcode::LoadCmpEq => "loadcmpeq",
            Opcode::LoadCmpLt => "loadcmplt",
            Opcode::LoadJfalse => "loadjfalse",
            Opcode::LoadCmpEqJfalse => "loadcmpeqjfalse",
            Opcode::LoadCmpLtJfalse => "loadcmpltjfalse",
            Opcode::LoadGetProp => "loadgetprop",
            Opcode::LoadGetPropCmpEq => "loadgetpropcmpeq",
            Opcode::GetProp2Ic => "getprop2ic",
            Opcode::GetProp3Ic => "getprop3ic",
            Opcode::GetElem => "getelem",
            Opcode::SetElem => "setelem",
            Opcode::GetPropElem => "getpropelem",
            Opcode::CallMethodIc => "callmethodic",
            Opcode::CallMethod2Ic => "callmethod2ic",
            Opcode::Reserved(n) => clean_reserved_name_of(n),
        }
    }

    #[verifier::rlimit(40)]
    fn push_operands_abc(&self, s: &mut String, nconst: usize, clean: bool)
        requires
            clean || self.pc <= usize::MAX / 4,
            self.format == Format::ABC,
        ensures
            final(s)@ == old(s)@ + if clean {
                clean_operands(*self, nconst as nat)
            } else {
                asm_operands(*self, nconst as nat)
            },
    {
        let ghost start = s@;
        let op = self.opcode;
            if exec_is_call_ab(op) {
                push_reg(s, " r", self.a);
                push_str(s, ", ");
                push_dec_u64(s, self.b as u64);
            } else if op == Opcode::Call1SubI {
                push_reg(s, " r", self.a);
                push_reg(s, ", r", self.b);
                push_str(s, ", ");
                push_dec(s, (self.c as i8) as i64);
            } else if exec_is_compare_jump(op) {
                push_reg(s, " r", self.a);
                push_reg(s, ", r", self.b);
                if clean {
                    push_str(s, ", -> L");
                    push_dec(s, (self.c as i8) as i64);
                } else {
                    push_str(s, ", -> ");
                    let t = jump_target_bytes(self.pc, (self.c as i8) as i64);
                    push_hex4(s, t as u64);
                }
            } else {
                push_reg(s, " r", self.a);
                push_reg(s, ", r", self.b);
                push_reg(s, ", r", self.c);
            }
        proof {
            assert(s@ =~= start + if clean {
                clean_operands(*self, nconst as nat)
            } else {
                asm_operands(*self, nconst as nat)
            });
        }
    }

    #[verifier::rlimit(40)]
    fn push_operands_abx(&self, s: &mut String, nconst: usize, clean: bool)
        requires
            clean || self.pc <= usize::MAX / 4,
            self.format == Format::ABx,
        ensures
            final(s)@ == old(s)@ + if clean {
                clean_operands(*self, nconst as nat)
            } else {
                asm_operands(*self, nconst as nat)
            },
    {
        let ghost start = s@;
        let op = self.opcode;
            if exec_is_const_load(op) {
                push_reg(s, " r", self.a);
                push_str(s, ", ");
                push_const(s, self.bx, nconst);
            } else if exec_is_global_access(op) {
                push_reg(s, " r", self.a);
                push_str(s, ", global[");
                push_dec_u64(s, self.bx as u64);
                push_str(s, "]");
            } else if exec_is_name_access(op) {
                push_reg(s, " r", self.a);
                push_str(s, ", identifier[");
                push_dec_u64(s, self.bx as u64);
                push_str(s, "]");
            } else if op == Opcode::CallMethod1 {
                push_reg(s, " r", self.a);
                push_str(s, ", property[");
                push_dec_u64(s, self.bx as u64);
                push_reg(s, "], r", self.a.saturating_add(1));
            } else if op == Opcode::CallMethod2 {
                push_reg(s, " r", self.a);
                push_str(s, ", property[");
                push_dec_u64(s, self.bx as u64);
                push_reg(s, "], r", self.a.saturating_add(1));
                push_reg(s, ", r", self.a.saturating_add(2));
            } else if exec_is_const_acc(op) {
                push_str(s, " ");
                push_const(s, self.bx, nconst);
            } else {
                push_reg(s, " r", self.a);
                push_str(s, ", ");
                push_dec_u64(s, self.bx as u64);
            }
        proof {
            assert(s@ =~= start + if clean {
                clean_operands(*self, nconst as nat)
            } else {
                asm_operands(*self, nconst as nat)
            });
        }
    }

    #[verifier::rlimit(40)]
    fn push_operands_asbx(&self, s: &mut String, nconst: usize, clean: bool)
        requires
            clean || self.pc <= usize::MAX / 4,
            self.format == Format::AsBx,
        ensures
            final(s)@ == old(s)@ + if clean {
                clean_operands(*self, nconst as nat)
            } else {
                asm_operands(*self, nconst as nat)
            },
    {
        let ghost start = s@;
        let op = self.opcode;
            if op == Opcode::Jmp {
                if clean {
                    push_str(s, " -> L");
                    push_dec(s, self.sbx as i64);
                } else {
                    push_str(s, " -> ");
                    let t = jump_target_bytes(self.pc, self.sbx as i64);
                    push_hex4(s, t as u64);
                }
            } else if op == Opcode::LoadI {
                push_reg(s, " r", self.a);
                push_str(s, ", ");
                push_dec(s, self.sbx as i64);
            } else if exec_is_reg_jump(op) {
                push_reg(s, " r", self.a);
                if clean {
                    push_str(s, ", -> L");
                    push_dec(s, self.sbx as i64);
                } else {
                    push_str(s, ", -> ");
                    let t = jump_target_bytes(self.pc, self.sbx as i64);
                    push_hex4(s, t as u64);
                }
            } else {
                push_reg(s, " r", self.a);
                push_str(s, ", ");
                push_dec(s, self.sbx as i64);
            }
        proof {
            assert(s@ =~= start + if clean {
                clean_operands(*self, nconst as nat)
            } else {
                asm_operands(*self, nconst as nat)
            });
        }
    }

    #[verifier::rlimit(40)]
    fn push_operands_a(&self, s: &mut String, nconst: usize, clean: bool)
        requires
            clean || self.pc <= usize::MAX / 4,
            self.format == Format::A,
        ensures
            final(s)@ == old(s)@ + if clean {
                clean_operands(*self, nconst as nat)
            } else {
                asm_operands(*self, nconst as nat)
            },
    {
        let ghost start = s@;
        let op = self.opcode;
            if exec_is_acc_imm(op) {
                push_str(s, " ");
                push_dec(s, (self.b as i8) as i64);
            } else if exec_is_acc_reg_b(op) {
                push_reg(s, " r", self.b);
            } else if exec_is_single_reg_a(op) {
                push_reg(s, " r", self.a);
            } else if (clean && exec_is_bare_clean(op)) || (!clean && exec_is_bare(op)) {
            } else {
                push_reg(s, " r", self.a);
            }
        proof {
            assert(s@ =~= start + if clean {
                clean_operands(*self, nconst as nat)
            } else {
                asm_operands(*self, nconst as nat)
            });
        }
    }

    #[verifier::rlimit(40)]
    fn push_operands_bc(&self, s: &mut String, nconst: usize, clean: bool)
        requires
            clean || self.pc <= usize::MAX / 4,
            self.format == Format::BC,
        ensures
            final(s)@ == old(s)@ + if clean {
                clean_operands(*self, nconst as nat)
            } else {
                asm_operands(*self, nconst as nat)
            },
    {
        let ghost start = s@;
        let op = self.opcode;
            push_reg(s, " r", self.b);
            push_reg(s, ", r", self.c);
        proof {
            assert(s@ =~= start + if clean {
                clean_operands(*self, nconst as nat)
            } else {
                asm_operands(*self, nconst as nat)
            });
        }
    }

    fn push_operands(&self, s: &mut String, nconst: usize, clean: bool)
        requires
            clean || self.pc <= usize::MAX / 4,
        ensures
            final(s)@ == old(s)@ + if clean {
                clean_operands(*self, nconst as nat)
            } else {
                asm_operands(*self, nconst as nat)
            },
    {
        match self.format {
            Format::ABC => self.push_operands_abc(s, nconst, clean),
            Format::ABx => self.push_operands_abx(s, nconst, clean),
            Format::AsBx => self.push_operands_asbx(s, nconst, clean),
            Format::A => self.push_operands_a(s, nconst, clean),
            Format::BC => self.push_operands_bc(s, nconst, clean),
        }
    }

    /// The offset listing: byte offset, mnemonic, operands.
    pub fn to_asm(&self, constants: &[Value]) -> (r: String)
        requires
            self.pc <= usize::MAX / 4,
        ensures
            r@ == asm_text(*self, constants@.len()),
    {
        let mut s = String::new();
        push_hex4(&mut s, (self.pc * 4) as u64);
        push_str(&mut s, ": ");
        push_str(&mut s, self.opcode_to_mnemonic());
        self.push_operands(&mut s, constants.len(), false);
        proof {
            assert(s@ =~= asm_text(*self, constants@.len()));
        }
        s
    }

    /// The clean listing: mnemonic and operands, with jump offsets as labels.
    pub fn to_clean_asm(&self, constants: &[Value]) -> (r: String)
        ensures
            r@ == clean_text(*self, constants@.len()),
    {
        let mut s = String::new();
        push_str(&mut s, self.opcode_to_clean_mnemonic());
        self.push_operands(&mut s, constants.len(), true);
        proof {
            assert(s@ =~= clean_text(*self, constants@.len()));
        }
        s
    }
}

/// Disassembles bytecode into offset listings, one per word.
pub fn disassemble(bytecode: &[u32], constants: &[Value]) -> (r: Vec<String>)
    requires
        bytecode@.len() <= usize::MAX / 4 + 1,
    ensures
        r@.len() == bytecode@.len(),
        forall|pc: int|
            0 <= pc < bytecode@.len() ==> #[trigger] r@[pc]@ == asm_text(
                decoded(pc as usize, bytecode@[pc]),
                constants@.len(),
            ),
{
    let mut result: Vec<String> = Vec::new();
    let mut pc: usize = 0;
    while pc < bytecode.len()
        invariant
            pc <= bytecode@.len(),
            bytecode@.len() <= usize::MAX / 4 + 1,
            result@.len() == pc,
            forall|k: int|
                0 <= k < pc ==> #[trigger] result@[k]@ == asm_text(
                    decoded(k as usize, bytecode@[k]),
                    constants@.len(),
                ),
        decreases bytecode@.len() - pc,
    {
        let instr = AsmInstruction::decode(pc, bytecode[pc]);
        result.push(instr.to_asm(constants));
        pc = pc + 1;
    }
    result
}

/// Disassembles bytecode into clean listings, one per word.
pub fn disassemble_clean(bytecode: &[u32], constants: &[Value]) -> (r: Vec<String>)
    ensures
        r@.len() == bytecode@.len(),
        forall|pc: int|
            0 <= pc < bytecode@.len() ==> #[trigger] r@[pc]@ == clean_text(
                decoded(pc as usize, bytecode@[pc]),
                constants@.len(),
            ),
{
    let mut result: Vec<String> = Vec::new();
    let mut pc: usize = 0;
    while pc < bytecode.len()
        invariant
            pc <= bytecode@.len(),
            result@.len() == pc,
            forall|k: int|
                0 <= k < pc ==> #[trigger] result@[k]@ == clean_text(
                    decoded(k as usize, bytecode@[k]),
                    constants@.len(),
                ),
        decreases bytecode@.len() - pc,
    {
        let instr = AsmInstruction::decode(pc, bytecode[pc]);
        result.push(instr.to_clean_asm(constants));
        pc = pc + 1;
    }
    result
}

/// In both listings a global access (load_global_ic, set_global_ic,
/// get_global, set_global) prints the register held in bits 8..15 of its
/// word and, inside `global[..]`, the slot held in bits 16..31.
pub proof fn law_global_operands(pc: usize, raw: u32, nconst: nat)
    requires
        is_global_access(decoded(pc, raw).opcode),
    ensures
        asm_operands(decoded(pc, raw), nconst) == " r"@ + dec(((raw >> 8u32) & 0xffu32) as int)
            + ", global["@ + dec((raw >> 16u32) as int) + "]"@,
        clean_operands(decoded(pc, raw), nconst) == " r"@ + dec(((raw >> 8u32) & 0xffu32) as int)
            + ", global["@ + dec((raw >> 16u32) as int) + "]"@,
{
    assert((raw >> 16u32) & 0xffffu32 == raw >> 16u32 && raw >> 16u32 < 0x10000u32) by (bit_vector);
    assert((raw >> 8u32) & 0xffu32 < 0x100u32) by (bit_vector);
    let i = decoded(pc, raw);
    assert(i.bx as int == (raw >> 16u32) as int);
    assert(i.a as int == ((raw >> 8u32) & 0xffu32) as int);
    assert(i.format == Format::ABx);
    assert(!is_const_load(i.opcode));
}

/// In both listings a name access prints the register held in bits 8..15
/// of its word and, inside `identifier[..]`, the index held in bits
/// 16..31.
pub proof fn law_name_operands(pc: usize, raw: u32, nconst: nat)
    requires
        is_name_access(decoded(pc, raw).opcode),
    ensures
        asm_operands(decoded(pc, raw), nconst) == " r"@ + dec(((raw >> 8u32) & 0xffu32) as int)
            + ", identifier["@ + dec((raw >> 16u32) as int) + "]"@,
        clean_operands(decoded(pc, raw), nconst) == " r"@ + dec(((raw >> 8u32) & 0xffu32) as int)
            + ", identifier["@ + dec((raw >> 16u32) as int) + "]"@,
{
    assert((raw >> 16u32) & 0xffffu32 == raw >> 16u32 && raw >> 16u32 < 0x10000u32) by (bit_vector);
    assert((raw >> 8u32) & 0xffu32 < 0x100u32) by (bit_vector);
    let i = decoded(pc, raw);
    assert(i.bx as int == (raw >> 16u32) as int);
    assert(i.a as int == ((raw >> 8u32) & 0xffu32) as int);
    assert(i.format == Format::ABx);
    assert(!is_const_load(i.opcode));
    assert(!is_global_access(i.opcode));
}

/// An unconditional jump lists, after the arrow, the byte offset of the
/// word it lands on: the next word's index plus the signed offset held in
/// bits 16..31, times four (when that index is in range).
pub proof fn law_jump_operands(pc: usize, raw: u32, nconst: nat)
    requires
        decoded(pc, raw).opcode == Opcode::Jmp,
        0 <= pc + 1 + decoded(pc, raw).sbx <= usize::MAX / 4,
    ensures
        asm_operands(decoded(pc, raw), nconst) == " -> "@ + hex4(
            ((pc + 1 + decoded(pc, raw).sbx) * 4) as nat,
        ),
        clean_operands(decoded(pc, raw), nconst) == " -> L"@ + dec(decoded(pc, raw).sbx as int),
{
    assert(decoded(pc, raw).format == Format::AsBx);
}

} // verus!
