//! Removal of definitions whose register is dead within a block.
use vstd::prelude::*;

use crate::opcode::Opcode;
use crate::opt::inst::{Instruction, ACC, REG_COUNT};

verus! {

/// The instruction marked as removed.
pub open spec fn removed_copy(i: Instruction) -> Instruction {
    Instruction { removed: true, ..i }
}

/// `after` equals `before` outside `start..end` and has its length.
pub open spec fn same_outside(before: Seq<Instruction>, after: Seq<Instruction>, start: int, end: int) -> bool {
    &&& after.len() == before.len()
    &&& forall|i: int|
        0 <= i < before.len() && !(start <= i < end) ==> #[trigger] after[i] == before[i]
}

/// A copy or constant load, the definitions this pass may drop.
pub open spec fn is_plain_def(op: Opcode) -> bool {
    op == Opcode::Mov || op == Opcode::LoadI || op == Opcode::LoadK
}

/// Every change from `before` to `after` removes a kept plain definition.
pub open spec fn only_dead_defs_removed(before: Seq<Instruction>, after: Seq<Instruction>) -> bool {
    &&& after.len() == before.len()
    &&& forall|i: int|
        0 <= i < before.len() ==> #[trigger] after[i] == before[i] || (after[i] == removed_copy(
            before[i],
        ) && !before[i].removed && is_plain_def(before[i].opcode))
}

/// Operations that read `b` and `c` and write the accumulator.
pub open spec fn binary_acc_op(op: Opcode) -> bool {
    op == Opcode::Add || op == Opcode::Eq || op == Opcode::Lt || op == Opcode::Lte || op
        == Opcode::StrictEq || op == Opcode::StrictNeq || op == Opcode::BitAnd || op
        == Opcode::BitOr || op == Opcode::BitXor || op == Opcode::Shl || op == Opcode::Shr || op
        == Opcode::Ushr || op == Opcode::Pow || op == Opcode::LogicalAnd || op
        == Opcode::LogicalOr || op == Opcode::NullishCoalesce || op == Opcode::In || op
        == Opcode::Instanceof || op == Opcode::AddStr
}

/// Operations that update the accumulator with register `b`.
pub open spec fn acc_reg_op(op: Opcode) -> bool {
    op == Opcode::AddAcc || op == Opcode::SubAcc || op == Opcode::MulAcc || op == Opcode::DivAcc
        || op == Opcode::AddStrAcc
}

/// Operations that update the accumulator with an immediate.
pub open spec fn acc_imm_op(op: Opcode) -> bool {
    op == Opcode::AddAccImm8 || op == Opcode::SubAccImm8 || op == Opcode::MulAccImm8 || op
        == Opcode::DivAccImm8 || op == Opcode::IncAcc
}

/// Operations that load a fixed value (or `this`) into the accumulator.
pub open spec fn acc_load_op(op: Opcode) -> bool {
    op == Opcode::LoadThis || op == Opcode::Load0 || op == Opcode::Load1 || op == Opcode::LoadNull
        || op == Opcode::LoadTrue || op == Opcode::LoadFalse
}

/// Jumps that compare registers `a` and `b`.
pub open spec fn jump_ab_op(op: Opcode) -> bool {
    op == Opcode::JmpEq || op == Opcode::JmpNeq || op == Opcode::JmpLt || op == Opcode::JmpLte || op
        == Opcode::JmpLteFalse
}

/// Jumps that compare registers `b` and `c`.
pub open spec fn jump_bc_op(op: Opcode) -> bool {
    op == Opcode::EqJmpTrue || op == Opcode::LtJmp || op == Opcode::EqJmpFalse || op
        == Opcode::LteJmpLoop
}

/// The kept instruction `x` reads register `reg`. Operations this pass does
/// not know are taken to read every register.
pub open spec fn reads_reg(x: Instruction, reg: int) -> bool {
    let op = x.opcode;
    if op == Opcode::Mov {
        reg == x.b
    } else if op == Opcode::LoadI || op == Opcode::LoadK {
        false
    } else if binary_acc_op(op) {
        reg == x.b || reg == x.c
    } else if acc_reg_op(op) {
        reg == ACC || reg == x.b
    } else if acc_imm_op(op) {
        reg == ACC
    } else if acc_load_op(op) {
        op == Opcode::LoadThis && reg == 0
    } else if op == Opcode::LoadAcc {
        reg == x.a
    } else if op == Opcode::JmpTrue || op == Opcode::JmpFalse {
        reg == x.a
    } else if jump_ab_op(op) {
        reg == x.a || reg == x.b
    } else if op == Opcode::LoopIncJmp {
        reg == x.a || reg == ACC
    } else if jump_bc_op(op) {
        reg == x.b || reg == x.c
    } else if op == Opcode::Ret {
        reg == ACC
    } else if op == Opcode::RetReg {
        reg == x.a
    } else if op == Opcode::RetU || op == Opcode::Jmp {
        false
    } else {
        true
    }
}

/// The kept instruction `x` overwrites register `reg`.
pub open spec fn writes_reg(x: Instruction, reg: int) -> bool {
    let op = x.opcode;
    if is_plain_def(op) {
        reg == x.a
    } else if binary_acc_op(op) || acc_load_op(op) || op == Opcode::LoadAcc {
        reg == ACC
    } else {
        false
    }
}

/// Register `reg` is dead at position `j` of a block ending at `end`: the
/// kept instructions from `j` on write it before any reads it, or none
/// touches it and the block returns or throws (`terminal`).
pub open spec fn dead_from(s: Seq<Instruction>, j: int, end: int, terminal: bool, reg: int) -> bool
    decreases end - j,
{
    if j >= end {
        terminal
    } else if s[j].removed {
        dead_from(s, j + 1, end, terminal, reg)
    } else if reads_reg(s[j], reg) {
        false
    } else if writes_reg(s[j], reg) {
        true
    } else {
        dead_from(s, j + 1, end, terminal, reg)
    }
}

/// Deadness at `j` depends only on the instructions from `j` to `end`.
pub(crate) proof fn lemma_dead_from_frame(
    s1: Seq<Instruction>,
    s2: Seq<Instruction>,
    j: int,
    end: int,
    terminal: bool,
    reg: int,
)
    requires
        forall|k: int| j <= k < end ==> #[trigger] s1[k] == s2[k],
    ensures
        dead_from(s1, j, end, terminal, reg) == dead_from(s2, j, end, terminal, reg),
    decreases end - j,
{
    if j < end {
        lemma_dead_from_frame(s1, s2, j + 1, end, terminal, reg);
    }
}

/// What the pass leaves at position `i`: a kept copy or constant load into
/// a register dead after it is removed, everything else stays.
pub open spec fn after_dead_pass(
    before: Seq<Instruction>,
    after: Seq<Instruction>,
    i: int,
    end: int,
    terminal: bool,
) -> Instruction {
    if !before[i].removed && is_plain_def(before[i].opcode) && dead_from(
        after,
        i + 1,
        end,
        terminal,
        before[i].a as int,
    ) {
        removed_copy(before[i])
    } else {
        before[i]
    }
}

fn mark(live: &mut Vec<bool>, reg: u8, value: bool)
    requires
        old(live)@.len() == REG_COUNT,
    ensures
        final(live)@ == old(live)@.update(reg as int, value),
{
    live.set(reg as usize, value);
}

fn fill(live: &mut Vec<bool>, value: bool)
    requires
        old(live)@.len() == REG_COUNT,
    ensures
        final(live)@.len() == REG_COUNT,
        forall|r: int| 0 <= r < REG_COUNT ==> #[trigger] final(live)@[r] == value,
{
    let mut r: usize = 0;
    while r < REG_COUNT
        invariant
            live@.len() == REG_COUNT,
            r <= REG_COUNT,
            forall|k: int| 0 <= k < r ==> #[trigger] live@[k] == value,
        decreases REG_COUNT - r,
    {
        live.set(r, value);
        r = r + 1;
    }
}

/// Walks the block backwards tracking which registers are read later and
/// removes copies and constant loads into registers that are not. At the end
/// of a block that returns or throws nothing is live; otherwise everything
/// is.
pub fn eliminate_dead_defs(insts: &mut Vec<Instruction>, start: usize, end: usize, terminal: bool) -> (r:
    bool)
    requires
        start <= end <= old(insts)@.len(),
    ensures
        same_outside(old(insts)@, final(insts)@, start as int, end as int),
        forall|i: int|
            start <= i < end ==> #[trigger] final(insts)@[i] == after_dead_pass(
                old(insts)@,
                final(insts)@,
                i,
                end as int,
                terminal,
            ),
        only_dead_defs_removed(old(insts)@, final(insts)@),
        r == (final(insts)@ != old(insts)@),
{
    let mut changed = false;
    let mut live: Vec<bool> = Vec::new();
    let mut k: usize = 0;
    while k < REG_COUNT
        invariant
            k <= REG_COUNT,
            live@.len() == k,
            forall|r: int| 0 <= r < k ==> !(#[trigger] live@[r]),
        decreases REG_COUNT - k,
    {
        live.push(false);
        k = k + 1;
    }
    if !terminal {
        fill(&mut live, true);
    }
    let mut index: usize = end;
    while index > start
        invariant
            start <= index <= end <= insts@.len(),
            live@.len() == REG_COUNT,
            same_outside(old(insts)@, insts@, start as int, end as int),
            only_dead_defs_removed(old(insts)@, insts@),
            forall|i: int| start <= i < index ==> #[trigger] insts@[i] == old(insts)@[i],
            forall|i: int|
                index <= i < end ==> #[trigger] insts@[i] == after_dead_pass(
                    old(insts)@,
                    insts@,
                    i,
                    end as int,
                    terminal,
                ),
            forall|r: int|
                0 <= r < REG_COUNT ==> #[trigger] live@[r] == !dead_from(
                    insts@,
                    index as int,
                    end as int,
                    terminal,
                    r,
                ),
            changed == (insts@ != old(insts)@),
        decreases index,
    {
        index = index - 1;
        let ghost s0 = insts@;
        let ghost i0 = index as int;
        let inst = insts[index];
        assert(inst == old(insts)@[i0]);
        if inst.removed {
            proof {
                assert forall|r: int| 0 <= r < REG_COUNT implies #[trigger] live@[r] == !dead_from(
                    insts@,
                    i0,
                    end as int,
                    terminal,
                    r,
                ) by {}
            }
            continue;
        }
        let op = inst.opcode;
        if (op == Opcode::Mov || op == Opcode::LoadI || op == Opcode::LoadK) && !live[inst.a as usize] {
            let mut x = inst;
            x.removed = true;
            insts.set(index, x);
            proof {
                assert(insts@ != s0 || s0 != old(insts)@) by {
                    assert(insts@[i0] != s0[i0]);
                }
                assert forall|r: int| 0 <= r < REG_COUNT implies #[trigger] live@[r] == !dead_from(
                    insts@,
                    i0,
                    end as int,
                    terminal,
                    r,
                ) by {
                    lemma_dead_from_frame(s0, insts@, i0 + 1, end as int, terminal, r);
                }
                assert forall|i: int| i0 <= i < end implies #[trigger] insts@[i] == after_dead_pass(
                    old(insts)@,
                    insts@,
                    i,
                    end as int,
                    terminal,
                ) by {
                    lemma_dead_from_frame(s0, insts@, i + 1, end as int, terminal, old(insts)@[i].a as int);
                }
                assert(insts@ != old(insts)@) by {
                    assert(insts@[i0] != old(insts)@[i0]);
                }
            }
            changed = true;
            continue;
        }
        let ghost live0 = live@;
        if op == Opcode::Mov {
            mark(&mut live, inst.a, false);
            mark(&mut live, inst.b, true);
        } else if op == Opcode::LoadI || op == Opcode::LoadK {
            mark(&mut live, inst.a, false);
        } else if op == Opcode::Add || op == Opcode::Eq || op == Opcode::Lt || op == Opcode::Lte || op
            == Opcode::StrictEq || op == Opcode::StrictNeq || op == Opcode::BitAnd || op
            == Opcode::BitOr || op == Opcode::BitXor || op == Opcode::Shl || op == Opcode::Shr || op
            == Opcode::Ushr || op == Opcode::Pow || op == Opcode::LogicalAnd || op
            == Opcode::LogicalOr || op == Opcode::NullishCoalesce || op == Opcode::In || op
            == Opcode::Instanceof || op == Opcode::AddStr {
            mark(&mut live, ACC, false);
            mark(&mut live, inst.b, true);
            mark(&mut live, inst.c, true);
        } else if op == Opcode::AddAcc || op == Opcode::SubAcc || op == Opcode::MulAcc || op
            == Opcode::DivAcc || op == Opcode::AddStrAcc {
            mark(&mut live, ACC, true);
            mark(&mut live, inst.b, true);
        } else if op == Opcode::AddAccImm8 || op == Opcode::SubAccImm8 || op == Opcode::MulAccImm8
            || op == Opcode::DivAccImm8 || op == Opcode::IncAcc {
            mark(&mut live, ACC, true);
        } else if op == Opcode::LoadThis || op == Opcode::Load0 || op == Opcode::Load1 || op
            == Opcode::LoadNull || op == Opcode::LoadTrue || op == Opcode::LoadFalse {
            mark(&mut live, ACC, false);
            if op == Opcode::LoadThis {
                mark(&mut live, 0, true);
            }
        } else if op == Opcode::LoadAcc {
            mark(&mut live, ACC, false);
            mark(&mut live, inst.a, true);
        } else if op == Opcode::JmpTrue || op == Opcode::JmpFalse {
            mark(&mut live, inst.a, true);
        } else if op == Opcode::JmpEq || op == Opcode::JmpNeq || op == Opcode::JmpLt || op
            == Opcode::JmpLte || op == Opcode::JmpLteFalse {
            mark(&mut live, inst.a, true);
            mark(&mut live, inst.b, true);
        } else if op == Opcode::LoopIncJmp {
            mark(&mut live, inst.a, true);
            mark(&mut live, ACC, true);
        } else if op == Opcode::EqJmpTrue || op == Opcode::LtJmp || op == Opcode::EqJmpFalse || op
            == Opcode::LteJmpLoop {
            mark(&mut live, inst.b, true);
            mark(&mut live, inst.c, true);
        } else if op == Opcode::Ret {
            mark(&mut live, ACC, true);
        } else if op == Opcode::RetReg {
            mark(&mut live, inst.a, true);
        } else if op == Opcode::RetU || op == Opcode::Jmp {
        } else {
            fill(&mut live, true);
        }
        proof {
            assert forall|r: int| 0 <= r < REG_COUNT implies #[trigger] live@[r] == (reads_reg(inst, r)
                || (!writes_reg(inst, r) && live0[r])) by {}
            assert forall|r: int| 0 <= r < REG_COUNT implies #[trigger] live@[r] == !dead_from(
                insts@,
                i0,
                end as int,
                terminal,
                r,
            ) by {}
        }
    }
    changed
}

} // verus!
