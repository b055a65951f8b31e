//! The optimizer entry points as the machine exposes them.
use vstd::prelude::*;

use crate::opt::blocks::BlockPass;
use crate::opcode::Opcode;
use crate::opt::inst::{decoded_program, jumps_in_range, program_fits};
use crate::opt::liveness::{reuse_by_scan, reuse_result};
use crate::opt::{
    block_pass_result, branches_result, checks_result, optimized_result, pass_grows_ok, pass_ok, relocate_result,
};
use crate::value::Value;

verus! {

/// Jump threading; see `opt::simplify_branches`.
pub fn simplify_branches(bytecode: Vec<u32>, constants: Vec<Value>) -> (r: Option<(Vec<u32>, Vec<Value>)>)
    requires
        program_fits(bytecode@.len()),
    ensures
        pass_ok(bytecode@, constants@, r),
        branches_result(bytecode@, constants@, r),
{
    crate::opt::simplify_branches(bytecode, constants)
}

/// Dead-definition removal; see `opt::eliminate_dead_code`.
pub fn eliminate_dead_code(bytecode: Vec<u32>, constants: Vec<Value>) -> (r: Option<(Vec<u32>, Vec<Value>)>)
    requires
        program_fits(bytecode@.len()),
    ensures
        pass_ok(bytecode@, constants@, r),
        block_pass_result(BlockPass::DeadDefs, bytecode@, constants@, r),
{
    crate::opt::eliminate_dead_code(bytecode, constants)
}

/// Copy propagation; see `opt::copy_propagation`.
pub fn copy_propagation(bytecode: Vec<u32>, constants: Vec<Value>) -> (r: Option<(Vec<u32>, Vec<Value>)>)
    requires
        program_fits(bytecode@.len()),
    ensures
        pass_ok(bytecode@, constants@, r),
        block_pass_result(BlockPass::CopyPropagation, bytecode@, constants@, r),
{
    crate::opt::copy_propagation(bytecode, constants)
}

/// Register coalescing; see `opt::coalesce_registers`.
pub fn coalesce_registers(bytecode: Vec<u32>, constants: Vec<Value>) -> (r: Option<(Vec<u32>, Vec<Value>)>)
    requires
        program_fits(bytecode@.len()),
    ensures
        pass_ok(bytecode@, constants@, r),
        block_pass_result(BlockPass::Coalesce, bytecode@, constants@, r),
{
    crate::opt::coalesce_registers(bytecode, constants)
}

/// Nullish-test folding; see `opt::fold_temporary_checks`.
pub fn fold_temporary_checks(bytecode: Vec<u32>, constants: Vec<Value>) -> (r: Option<(Vec<u32>, Vec<Value>)>)
    requires
        program_fits(bytecode@.len()),
    ensures
        pass_grows_ok(bytecode@, constants@, r),
        checks_result(bytecode@, constants@, r),
        jumps_in_range(bytecode@) && constants@.len() < 65534 ==> r is Some,
{
    crate::opt::fold_temporary_checks(bytecode, constants)
}

/// Superinstruction fusion; see `opt::optimize_peephole`.
pub fn optimize_peephole(bytecode: Vec<u32>, constants: Vec<Value>) -> (r: Option<(Vec<u32>, Vec<Value>)>)
    requires
        program_fits(bytecode@.len()),
    ensures
        pass_ok(bytecode@, constants@, r),
        block_pass_result(BlockPass::Peephole, bytecode@, constants@, r),
{
    crate::opt::optimize_peephole(bytecode, constants)
}

/// Register reuse; see `opt::liveness::reuse_registers_linear_scan`.
pub fn reuse_registers_linear_scan(bytecode: Vec<u32>, constants: Vec<Value>) -> (r: Option<(Vec<u32>, Vec<Value>)>)
    requires
        program_fits(bytecode@.len()),
    ensures
        reuse_result(bytecode@, constants@, r),
        reuse_by_scan(bytecode@, constants@, r),
        jumps_in_range(bytecode@) ==> r is Some,
{
    crate::opt::liveness::reuse_registers_linear_scan(bytecode, constants)
}

/// Re-encoding; see `opt::relocate_jumps`.
pub fn relocate_jumps(bytecode: Vec<u32>, constants: Vec<Value>) -> (r: Option<(Vec<u32>, Vec<Value>)>)
    requires
        program_fits(bytecode@.len()),
    ensures
        pass_ok(bytecode@, constants@, r),
        relocate_result(bytecode@, constants@, r),
        jumps_in_range(bytecode@) ==> (r matches Some((bc, cs)) && bc@ == bytecode@),
        (forall|pc: int| 0 <= pc < bytecode@.len() ==> (#[trigger] decoded_program(bytecode@)[pc]).opcode
            != Opcode::Switch) ==> (r matches Some((bc, cs)) ==> cs@ == constants@),
{
    crate::opt::relocate_jumps(bytecode, constants)
}

/// The whole pipeline; see `opt::optimize_bytecode`.
pub fn optimize_bytecode(bytecode: Vec<u32>, constants: Vec<Value>) -> (r: Option<(Vec<u32>, Vec<Value>)>)
    requires
        program_fits(bytecode@.len()),
    ensures
        pass_grows_ok(bytecode@, constants@, r),
        optimized_result(bytecode@, constants@, r),
{
    crate::opt::optimize_bytecode(bytecode, constants)
}

} // verus!
