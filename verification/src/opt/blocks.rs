//! Basic blocks: their leaders, running a block-local pass over each, and
//! jump threading.
use vstd::prelude::*;

use crate::opcode::Opcode;
use crate::opt::dead::{
    after_dead_pass, eliminate_dead_defs, lemma_dead_from_frame, only_dead_defs_removed, removed_copy,
    same_outside,
};
use crate::opt::inst::{program_fits, switch_targets, switch_targets_of, Instruction};
use crate::opt::peephole::{
    basic_normal, constant_fold_block, fold_normal, kept_at, kept_pair, kept_triple,
    optimize_basic_peephole_block, optimize_peephole_block, peephole_normal, peephole_to, splice, basic_to,
    folds_to,
};
use crate::opt::values::{
    after_coalesce_pass, after_copy_pass, coalesce_registers_block, copy_propagation_block,
    lemma_coalesce_at_frame, lemma_copy_at_frame, mov_of, same_shape,
};
use crate::value::Value;

verus! {

/// Control does not fall through: jumps, returns and throws.
pub open spec fn ends_flow(op: Opcode) -> bool {
    op == Opcode::Jmp || op == Opcode::Ret || op == Opcode::RetU || op == Opcode::RetReg || op
        == Opcode::Throw
}

pub fn is_terminator(opcode: Opcode) -> (r: bool)
    ensures
        r == ends_flow(opcode),
{
    opcode == Opcode::Jmp || opcode == Opcode::Ret || opcode == Opcode::RetU || opcode == Opcode::RetReg
        || opcode == Opcode::Throw
}

/// Strictly increasing positions, each at most `len`, starting with 0.
pub open spec fn leaders_ok(l: Seq<usize>, len: nat) -> bool {
    &&& l.len() >= 1
    &&& l[0] == 0
    &&& forall|k: int| 0 <= k < l.len() ==> #[trigger] l[k] <= len
    &&& forall|k: int, j: int| 0 <= k < j < l.len() ==> #[trigger] l[k] < #[trigger] l[j]
}

/// A position clamped to the end of the program.
pub open spec fn clamp_end(t: int, len: int) -> int {
    if t > len {
        len
    } else {
        t
    }
}

/// Instruction `pc` starts a block at `p`: at its branch target, at the
/// next position after a branch, switch or terminator, or at a switch
/// target; targets are clamped to the end.
pub open spec fn leader_from(insts: Seq<Instruction>, constants: Seq<Value>, pc: int, p: int) -> bool {
    let inst = insts[pc];
    let len = insts.len() as int;
    ||| inst.target is Some && p == clamp_end(inst.target->0 as int, len)
    ||| (inst.target is Some || inst.opcode == Opcode::Switch || ends_flow(inst.opcode)) && pc + 1 < len
        && p == pc + 1
    ||| inst.opcode == Opcode::Switch && exists|j: int|
        0 <= j < switch_targets_of(pc as usize, inst.b as int, constants).len() && p == clamp_end(
            #[trigger] switch_targets_of(pc as usize, inst.b as int, constants)[j] as int,
            len,
        )
}

/// `p` starts a basic block.
pub open spec fn is_leader(insts: Seq<Instruction>, constants: Seq<Value>, p: int) -> bool {
    p == 0 || exists|pc: int| 0 <= pc < insts.len() && #[trigger] leader_from(insts, constants, pc, p)
}

fn mark(marks: &mut Vec<bool>, at: usize, len: usize)
    requires
        old(marks)@.len() == len + 1,
    ensures
        final(marks)@ == old(marks)@.update(if at > len { len as int } else { at as int }, true),
{
    let p = if at > len {
        len
    } else {
        at
    };
    marks.set(p, true);
}

/// The first position of each basic block: 0, every branch target (clamped
/// to the end), every switch target, and the position after every branch,
/// switch and terminator.
pub fn collect_block_leaders(insts: &Vec<Instruction>, constants: &Vec<Value>) -> (r: Vec<usize>)
    requires
        program_fits(insts@.len()),
    ensures
        leaders_ok(r@, insts@.len()),
        forall|p: int| 0 <= p <= insts@.len() ==> (r@.contains(p as usize) <==> is_leader(insts@, constants@, p)),
{
    let len = insts.len();
    let mut marks: Vec<bool> = Vec::new();
    let mut k: usize = 0;
    while k <= len
        invariant
            len == insts@.len(),
            program_fits(len as nat),
            k <= len + 1,
            marks@.len() == k,
            forall|j: int| 0 <= j < k ==> !(#[trigger] marks@[j]),
        decreases len + 1 - k,
    {
        marks.push(false);
        k = k + 1;
    }
    marks.set(0, true);
    let mut pc: usize = 0;
    while pc < len
        invariant
            len == insts@.len(),
            program_fits(len as nat),
            pc <= len,
            marks@.len() == len + 1,
            marks@[0],
            forall|p: int|
                0 <= p <= len ==> (#[trigger] marks@[p] <==> (p == 0 || exists|q: int|
                    0 <= q < pc && #[trigger] leader_from(insts@, constants@, q, p))),
        decreases len - pc,
    {
        let inst = insts[pc];
        let ghost before = marks@;
        if let Some(t) = inst.target {
            mark(&mut marks, t, len);
            if pc + 1 < len {
                mark(&mut marks, pc + 1, len);
            }
        }
        let ghost after_target = marks@;
        proof {
            assert forall|p: int| 0 <= p <= len && after_target[p] && !before[p] implies leader_from(insts@, constants@, pc as int, p) by {}
        }
        if inst.opcode == Opcode::Switch {
            let targets = switch_targets(pc, inst.b as usize, constants);
            let mut j: usize = 0;
            while j < targets.len()
                invariant
                    j <= targets@.len(),
                    marks@.len() == len + 1,
                    after_target.len() == len + 1,
                    forall|p: int|
                        0 <= p <= len ==> (#[trigger] marks@[p] <==> (after_target[p] || exists|i: int|
                            0 <= i < j && p == clamp_end(#[trigger] targets@[i] as int, len as int))),
                decreases targets@.len() - j,
            {
                mark(&mut marks, targets[j], len);
                proof {
                    assert forall|p: int|
                        0 <= p <= len implies (#[trigger] marks@[p] <==> (after_target[p] || exists|i: int|
                        0 <= i < j + 1 && p == clamp_end(#[trigger] targets@[i] as int, len as int))) by {
                        if p == clamp_end(targets@[j as int] as int, len as int) {
                            assert(exists|i: int| 0 <= i < j + 1 && p == clamp_end(#[trigger] targets@[i] as int, len as int));
                        }
                        if exists|i: int| 0 <= i < j + 1 && p == clamp_end(#[trigger] targets@[i] as int, len as int) {
                            let i = choose|i: int| 0 <= i < j + 1 && p == clamp_end(#[trigger] targets@[i] as int, len as int);
                            if i < j {
                                assert(exists|i2: int| 0 <= i2 < j && p == clamp_end(#[trigger] targets@[i2] as int, len as int));
                            }
                        }
                    }
                }
                j = j + 1;
            }
            let ghost after_cases = marks@;
            proof {
                assert forall|p: int| 0 <= p <= len && after_cases[p] && !after_target[p] implies leader_from(insts@, constants@, pc as int, p) by {
                    let i = choose|i: int| 0 <= i < targets@.len() && p == clamp_end(#[trigger] targets@[i] as int, len as int);
                    assert(targets@[i] == switch_targets_of(pc, inst.b as int, constants@)[i]);
                    assert(insts@[pc as int] == inst);
                    assert(((pc as int) as usize) == pc);
                    assert(0 <= i < switch_targets_of((pc as int) as usize, insts@[pc as int].b as int, constants@).len()
                        && p == clamp_end(switch_targets_of((pc as int) as usize, insts@[pc as int].b as int, constants@)[i] as int, len as int));
                }
            }
            if pc + 1 < len {
                mark(&mut marks, pc + 1, len);
            }
            proof {
                assert forall|p: int| 0 <= p <= len && marks@[p] && !after_target[p] implies leader_from(insts@, constants@, pc as int, p) by {
                    if !after_cases[p] {
                        assert(p == pc + 1);
                    }
                }
            }
        }
        let ghost after_switch = marks@;
        if is_terminator(inst.opcode) && pc + 1 < len {
            mark(&mut marks, pc + 1, len);
        }
        proof {
            assert forall|p: int| 0 <= p <= len && marks@[p] && !before[p] implies leader_from(insts@, constants@, pc as int, p) by {
                if !after_switch[p] {
                    assert(p == pc + 1);
                } else if !after_target[p] {
                } else {
                }
            }
        }
        proof {
            assert forall|p: int|
                0 <= p <= len implies (#[trigger] marks@[p] <==> (p == 0 || exists|q: int|
                0 <= q < pc + 1 && #[trigger] leader_from(insts@, constants@, q, p))) by {
                if leader_from(insts@, constants@, pc as int, p) {
                    assert(exists|q: int| 0 <= q < pc + 1 && #[trigger] leader_from(insts@, constants@, q, p));
                }
                if exists|q: int| 0 <= q < pc + 1 && #[trigger] leader_from(insts@, constants@, q, p) {
                    let q = choose|q: int| 0 <= q < pc + 1 && #[trigger] leader_from(insts@, constants@, q, p);
                    if q < pc {
                        assert(before[p]);
                    }
                }

            }
        }
        pc = pc + 1;
    }
    let mut leaders: Vec<usize> = Vec::new();
    let mut p: usize = 0;
    while p <= len
        invariant
            len == insts@.len(),
            program_fits(len as nat),
            p <= len + 1,
            marks@.len() == len + 1,
            marks@[0],
            p > 0 ==> leaders@.len() >= 1 && leaders@[0] == 0,
            forall|q: int| 0 <= q < leaders@.len() ==> #[trigger] leaders@[q] < p,
            forall|q: int, j: int| 0 <= q < j < leaders@.len() ==> #[trigger] leaders@[q] < #[trigger] leaders@[j],
            forall|x: int| 0 <= x <= len ==> (leaders@.contains(x as usize) <==> (x < p && #[trigger] marks@[x])),
        decreases len + 1 - p,
    {
        let ghost old_leaders = leaders@;
        if marks[p] {
            leaders.push(p);
            proof {
                assert forall|x: int| 0 <= x <= len implies (leaders@.contains(x as usize) <==> (x < p + 1
                    && #[trigger] marks@[x])) by {
                    if x == p {
                        assert(leaders@[leaders@.len() - 1] == x as usize);
                    } else {
                        if leaders@.contains(x as usize) {
                            let w = choose|w: int| 0 <= w < leaders@.len() && leaders@[w] == x as usize;
                            assert(w < old_leaders.len());
                            assert(old_leaders[w] == x as usize);
                        }
                        if old_leaders.contains(x as usize) {
                            let w = choose|w: int| 0 <= w < old_leaders.len() && old_leaders[w] == x as usize;
                            assert(leaders@[w] == x as usize);
                        }
                    }
                }
            }
        }
        p = p + 1;
    }
    proof {
        assert forall|x: int| 0 <= x <= insts@.len() implies (leaders@.contains(x as usize) <==> is_leader(
            insts@,
            constants@,
            x,
        )) by {
            assert(marks@[x] <==> (x == 0 || exists|q: int| 0 <= q < len && #[trigger] leader_from(insts@, constants@, q, x)));
        }
    }
    leaders
}

/// The block passes that `run_block_pass` runs.
#[derive(Clone, Copy, PartialEq, Eq, Structural, Debug)]
pub enum BlockPass {
    ConstantFold,
    DeadDefs,
    CopyPropagation,
    Coalesce,
    Peephole,
    BasicPeephole,
}

/// Registers changed, nothing else: every instruction keeps its operation,
/// immediates, target and removal.
pub open spec fn registers_renamed(before: Seq<Instruction>, after: Seq<Instruction>) -> bool {
    &&& after.len() == before.len()
    &&& forall|i: int| 0 <= i < before.len() ==> same_shape(#[trigger] after[i], before[i])
}

/// Every change turns a kept constant load into a copy to the same
/// register.
pub open spec fn loads_coalesced(before: Seq<Instruction>, after: Seq<Instruction>) -> bool {
    &&& after.len() == before.len()
    &&& forall|i: int|
        0 <= i < before.len() ==> #[trigger] after[i] == before[i] || (!before[i].removed && (
        before[i].opcode == Opcode::LoadI || before[i].opcode == Opcode::LoadK) && after[i] == mov_of(
            before[i].a,
            after[i].b,
        ))
}

/// What a block pass may do to the whole program: dead definitions are only
/// removed, copy propagation only renames registers, coalescing only turns
/// loads into copies; the other passes keep the length.
pub open spec fn pass_rel(pass: BlockPass, before: Seq<Instruction>, after: Seq<Instruction>) -> bool {
    &&& after.len() == before.len()
    &&& match pass {
        BlockPass::DeadDefs => only_dead_defs_removed(before, after),
        BlockPass::CopyPropagation => registers_renamed(before, after),
        BlockPass::Coalesce => loads_coalesced(before, after),
        _ => true,
    }
}

proof fn lemma_pass_rel_refl(pass: BlockPass, s: Seq<Instruction>)
    ensures
        pass_rel(pass, s, s),
{
}

proof fn lemma_pass_rel_trans(pass: BlockPass, a: Seq<Instruction>, b: Seq<Instruction>, c: Seq<Instruction>)
    requires
        pass_rel(pass, a, b),
        pass_rel(pass, b, c),
    ensures
        pass_rel(pass, a, c),
{
    match pass {
        BlockPass::DeadDefs => {
            assert forall|i: int| 0 <= i < a.len() implies #[trigger] c[i] == a[i] || (c[i] == removed_copy(
                a[i],
            ) && !a[i].removed && crate::opt::dead::is_plain_def(a[i].opcode)) by {
                assert(b[i] == a[i] || b[i] == removed_copy(a[i]));
                assert(c[i] == b[i] || c[i] == removed_copy(b[i]));
            }
        },
        BlockPass::CopyPropagation => {
            assert forall|i: int| 0 <= i < a.len() implies same_shape(#[trigger] c[i], a[i]) by {
                assert(same_shape(b[i], a[i]));
                assert(same_shape(c[i], b[i]));
            }
        },
        BlockPass::Coalesce => {
            assert forall|i: int| 0 <= i < a.len() implies #[trigger] c[i] == a[i] || (!a[i].removed && (
            a[i].opcode == Opcode::LoadI || a[i].opcode == Opcode::LoadK) && c[i] == mov_of(a[i].a, c[i].b)) by {
                assert(b[i] == a[i] || b[i] == mov_of(a[i].a, b[i].b));
                assert(c[i] == b[i] || c[i] == mov_of(b[i].a, c[i].b));
            }
        },
        _ => {},
    }
}

/// Returns and throws.
pub open spec fn is_exit(op: Opcode) -> bool {
    op == Opcode::Ret || op == Opcode::RetU || op == Opcode::RetReg || op == Opcode::Throw
}

/// The last kept instruction of `start..end` returns or throws.
pub open spec fn exit_ends(s: Seq<Instruction>, start: int, end: int) -> bool
    decreases end - start,
{
    if end <= start {
        false
    } else if !s[end - 1].removed {
        is_exit(s[end - 1].opcode)
    } else {
        exit_ends(s, start, end - 1)
    }
}

proof fn lemma_exit_ends_frame(s1: Seq<Instruction>, s2: Seq<Instruction>, start: int, end: int)
    requires
        forall|k: int| start <= k < end ==> #[trigger] s1[k] == s2[k],
    ensures
        exit_ends(s1, start, end) == exit_ends(s2, start, end),
    decreases end - start,
{
    if end > start {
        lemma_exit_ends_frame(s1, s2, start, end - 1);
    }
}

fn ends_in_exit(insts: &Vec<Instruction>, start: usize, end: usize) -> (r: bool)
    requires
        start <= end <= insts@.len(),
    ensures
        r == exit_ends(insts@, start as int, end as int),
{
    let mut i: usize = end;
    while i > start
        invariant
            start <= i <= end <= insts@.len(),
            exit_ends(insts@, start as int, end as int) == exit_ends(insts@, start as int, i as int),
        decreases i,
    {
        i = i - 1;
        if !insts[i].removed {
            let op = insts[i].opcode;
            return op == Opcode::Ret || op == Opcode::RetU || op == Opcode::RetReg || op
                == Opcode::Throw;
        }
    }
    false
}

/// What a block pass leaves in the block `start..end` of `after`, given the
/// block in `before` and whether it ends in a return or throw: the exact
/// result for dead definitions, copy propagation and coalescing; for the
/// rewriting passes, a block in which no rewrite applies any more.
pub open spec fn block_ok(
    pass: BlockPass,
    before: Seq<Instruction>,
    after: Seq<Instruction>,
    start: int,
    end: int,
    terminal: bool,
) -> bool {
    match pass {
        BlockPass::DeadDefs => forall|i: int|
            start <= i < end ==> #[trigger] after[i] == after_dead_pass(before, after, i, end, terminal),
        BlockPass::CopyPropagation => forall|i: int|
            start <= i < end ==> #[trigger] after[i] == after_copy_pass(before, start, i),
        BlockPass::Coalesce => forall|i: int|
            start <= i < end ==> #[trigger] after[i] == after_coalesce_pass(before, start, i),
        BlockPass::ConstantFold => fold_normal(after, start, end) && exists|n: nat|
            folds_to(before, splice(before, after, start, end), start, end, n),
        BlockPass::Peephole => peephole_normal(after, start, end) && exists|n: nat|
            peephole_to(before, splice(before, after, start, end), start, end, n),
        BlockPass::BasicPeephole => basic_normal(after, start, end) && exists|n: nat|
            basic_to(before, splice(before, after, start, end), start, end, n),
    }
}

/// What a block pass leaves in a block depends only on the block.
proof fn lemma_block_ok_frame(
    pass: BlockPass,
    b1: Seq<Instruction>,
    a1: Seq<Instruction>,
    b2: Seq<Instruction>,
    a2: Seq<Instruction>,
    start: int,
    end: int,
    terminal: bool,
)
    requires
        0 <= start <= end <= b1.len(),
        end <= a1.len(),
        end <= b2.len(),
        end <= a2.len(),
        forall|k: int| start <= k < end ==> #[trigger] b1[k] == b2[k],
        forall|k: int| start <= k < end ==> #[trigger] a1[k] == a2[k],
        block_ok(pass, b1, a1, start, end, terminal),
    ensures
        block_ok(pass, b2, a2, start, end, terminal),
{
    match pass {
        BlockPass::DeadDefs => {
            assert forall|i: int| start <= i < end implies #[trigger] a2[i] == after_dead_pass(
                b2,
                a2,
                i,
                end,
                terminal,
            ) by {
                assert(a1[i] == after_dead_pass(b1, a1, i, end, terminal));
                lemma_dead_from_frame(a1, a2, i + 1, end, terminal, b1[i].a as int);
            }
        },
        BlockPass::CopyPropagation => {
            assert forall|i: int| start <= i < end implies #[trigger] a2[i] == after_copy_pass(
                b2,
                start,
                i,
            ) by {
                assert(a1[i] == after_copy_pass(b1, start, i));
                lemma_copy_at_frame(b1, b2, start, i);
            }
        },
        BlockPass::Coalesce => {
            assert forall|i: int| start <= i < end implies #[trigger] a2[i] == after_coalesce_pass(
                b2,
                start,
                i,
            ) by {
                assert(a1[i] == after_coalesce_pass(b1, start, i));
                lemma_coalesce_at_frame(b1, b2, start, i);
            }
        },
        BlockPass::ConstantFold => {
            assert forall|p: int, q: int, t: int| #[trigger] kept_triple(a2, start, end, p, q, t) implies !crate::opt::peephole::foldable(
                a2[p],
                a2[q],
                a2[t],
            ) by {
                assert(kept_triple(a1, start, end, p, q, t));
            }
            let n = choose|n: nat| folds_to(b1, splice(b1, a1, start, end), start, end, n);
            crate::opt::peephole::lemma_folds_to_frame(b1, splice(b1, a1, start, end), b2, start, end, n);
            assert(splice(b2, splice(b1, a1, start, end), start, end) =~= splice(b2, a2, start, end));
        },
        BlockPass::Peephole => {
            assert forall|p: int| #[trigger] kept_at(a2, start, end, p) implies !crate::opt::peephole::self_move(a2[p]) by {
                assert(kept_at(a1, start, end, p));
            }
            assert forall|p: int, q: int| #[trigger] kept_pair(a2, start, end, p, q) implies !crate::opt::peephole::undoing_moves(
                a2[p],
                a2[q],
            ) && !crate::opt::peephole::load_then_move(a2[p], a2[q]) && !crate::opt::peephole::fusable_pair(a2[p], a2[q]) by {
                assert(kept_pair(a1, start, end, p, q));
            }
            assert forall|p: int, q: int, t: int| #[trigger] kept_triple(a2, start, end, p, q, t) implies !crate::opt::peephole::fusable_triple(
                a2[p],
                a2[q],
                a2[t],
            ) by {
                assert(kept_triple(a1, start, end, p, q, t));
            }
            let n = choose|n: nat| peephole_to(b1, splice(b1, a1, start, end), start, end, n);
            crate::opt::peephole::lemma_peephole_to_frame(b1, splice(b1, a1, start, end), b2, start, end, n);
            assert(splice(b2, splice(b1, a1, start, end), start, end) =~= splice(b2, a2, start, end));
        },
        BlockPass::BasicPeephole => {
            assert forall|p: int| #[trigger] kept_at(a2, start, end, p) implies !crate::opt::peephole::self_move(a2[p]) by {
                assert(kept_at(a1, start, end, p));
            }
            assert forall|p: int, q: int| #[trigger] kept_pair(a2, start, end, p, q) implies !crate::opt::peephole::undoing_moves(
                a2[p],
                a2[q],
            ) && !crate::opt::peephole::load_then_move(a2[p], a2[q]) by {
                assert(kept_pair(a1, start, end, p, q));
            }
            let n = choose|n: nat| basic_to(b1, splice(b1, a1, start, end), start, end, n);
            crate::opt::peephole::lemma_basic_to_frame(b1, splice(b1, a1, start, end), b2, start, end, n);
            assert(splice(b2, splice(b1, a1, start, end), start, end) =~= splice(b2, a2, start, end));
        },
    }
}

/// Where block `k` ends: at the next leader, or at the end.
pub open spec fn block_end(l: Seq<usize>, k: int, len: int) -> int {
    if k + 1 < l.len() {
        l[k + 1] as int
    } else {
        len
    }
}

/// Every block of `before`, as the leaders `l` cut it, is what `pass`
/// leaves of it in `after`.
pub open spec fn blocks_ok(pass: BlockPass, before: Seq<Instruction>, after: Seq<Instruction>, l: Seq<usize>) -> bool {
    forall|k: int|
        0 <= k < l.len() && (#[trigger] l[k]) < before.len() ==> block_ok(
            pass,
            before,
            after,
            l[k] as int,
            block_end(l, k, before.len() as int),
            exit_ends(before, l[k] as int, block_end(l, k, before.len() as int)),
        )
}

/// `l` lists the leaders of the program in increasing order.
pub open spec fn leaders_exact(s: Seq<Instruction>, cs: Seq<Value>, l: Seq<usize>) -> bool {
    &&& leaders_ok(l, s.len())
    &&& forall|p: int| 0 <= p <= s.len() ==> (l.contains(p as usize) <==> is_leader(s, cs, p))
}

fn apply(insts: &mut Vec<Instruction>, start: usize, end: usize, terminal: bool, pass: BlockPass) -> (r:
    bool)
    requires
        start <= end <= old(insts)@.len(),
    ensures
        same_outside(old(insts)@, final(insts)@, start as int, end as int),
        pass_rel(pass, old(insts)@, final(insts)@),
        block_ok(pass, old(insts)@, final(insts)@, start as int, end as int, terminal),
        !r ==> final(insts)@ == old(insts)@,
{
    match pass {
        BlockPass::ConstantFold => {
            let r = constant_fold_block(insts, start, end);
            proof {
                assert(splice(old(insts)@, insts@, start as int, end as int) =~= insts@);
            }
            r
        },
        BlockPass::DeadDefs => eliminate_dead_defs(insts, start, end, terminal),
        BlockPass::CopyPropagation => copy_propagation_block(insts, start, end),
        BlockPass::Coalesce => coalesce_registers_block(insts, start, end),
        BlockPass::Peephole => {
            let r = optimize_peephole_block(insts, start, end);
            proof {
                assert(splice(old(insts)@, insts@, start as int, end as int) =~= insts@);
            }
            r
        },
        BlockPass::BasicPeephole => {
            let r = optimize_basic_peephole_block(insts, start, end);
            proof {
                assert(splice(old(insts)@, insts@, start as int, end as int) =~= insts@);
            }
            r
        },
    }
}

/// Runs `pass` over every basic block, telling it whether the block ends
/// in a return or a throw; true when some block changed.
pub fn run_block_pass(insts: &mut Vec<Instruction>, constants: &Vec<Value>, pass: BlockPass) -> (r:
    bool)
    requires
        program_fits(old(insts)@.len()),
    ensures
        pass_rel(pass, old(insts)@, final(insts)@),
        exists|l: Seq<usize>|
            leaders_exact(old(insts)@, constants@, l) && #[trigger] blocks_ok(
                pass,
                old(insts)@,
                final(insts)@,
                l,
            ),
        !r ==> final(insts)@ == old(insts)@,
{
    let leaders = collect_block_leaders(insts, constants);
    proof {
        lemma_pass_rel_refl(pass, insts@);
    }
    let len = insts.len();
    let mut changed = false;
    let mut block_index: usize = 0;
    while block_index < leaders.len()
        invariant
            len == insts@.len(),
            insts@.len() == old(insts)@.len(),
            block_index <= leaders@.len(),
            leaders_ok(leaders@, len as nat),
            !changed ==> insts@ == old(insts)@,
            pass_rel(pass, old(insts)@, insts@),
            forall|i: int|
                (if block_index < leaders@.len() {
                    leaders@[block_index as int] as int
                } else {
                    len as int
                }) <= i < len ==> #[trigger] insts@[i] == old(insts)@[i],
            forall|k: int|
                0 <= k < block_index && (#[trigger] leaders@[k]) < len ==> block_ok(
                    pass,
                    old(insts)@,
                    insts@,
                    leaders@[k] as int,
                    block_end(leaders@, k, len as int),
                    exit_ends(old(insts)@, leaders@[k] as int, block_end(leaders@, k, len as int)),
                ),
        decreases leaders@.len() - block_index,
    {
        let start = leaders[block_index];
        if start >= len {
            proof {
                if block_index + 1 < leaders@.len() {
                    assert(leaders@[block_index as int] < leaders@[block_index + 1]);
                }
            }
            block_index = block_index + 1;
            continue;
        }
        let mut end = if block_index + 1 < leaders.len() {
            leaders[block_index + 1]
        } else {
            len
        };
        if end > len {
            end = len;
        }
        proof {
            if block_index + 1 < leaders@.len() {
                assert(leaders@[block_index as int] < leaders@[block_index + 1]);
            }
            assert(end as int == block_end(leaders@, block_index as int, len as int));
        }
        let terminal = ends_in_exit(insts, start, end);
        let ghost prev = insts@;
        proof {
            lemma_exit_ends_frame(prev, old(insts)@, start as int, end as int);
        }
        if apply(insts, start, end, terminal, pass) {
            changed = true;
        }
        proof {
            lemma_pass_rel_trans(pass, old(insts)@, prev, insts@);
            lemma_block_ok_frame(pass, prev, insts@, old(insts)@, insts@, start as int, end as int, terminal);
            assert forall|k: int|
                0 <= k < block_index + 1 && (#[trigger] leaders@[k]) < len implies block_ok(
                pass,
                old(insts)@,
                insts@,
                leaders@[k] as int,
                block_end(leaders@, k, len as int),
                exit_ends(old(insts)@, leaders@[k] as int, block_end(leaders@, k, len as int)),
            ) by {
                if k < block_index {
                    assert(leaders@[k] < leaders@[k + 1]);
                    if k + 1 < block_index {
                        assert(leaders@[k + 1] < leaders@[block_index as int]);
                    }
                    lemma_block_ok_frame(
                        pass,
                        old(insts)@,
                        prev,
                        old(insts)@,
                        insts@,
                        leaders@[k] as int,
                        block_end(leaders@, k, len as int),
                        exit_ends(old(insts)@, leaders@[k] as int, block_end(leaders@, k, len as int)),
                    );
                }
            }
        }
        block_index = block_index + 1;
    }
    proof {
        assert(blocks_ok(pass, old(insts)@, insts@, leaders@));
    }
    changed
}

/// Number of true entries among the first `n`.
pub open spec fn count_true(s: Seq<bool>, n: int) -> nat
    decreases n,
{
    if n <= 0 {
        0
    } else {
        count_true(s, n - 1) + if s[n - 1] {
            1nat
        } else {
            0nat
        }
    }
}

pub proof fn lemma_count_true(s: Seq<bool>, n: int, i: int)
    requires
        0 <= i < n <= s.len(),
        !s[i],
    ensures
        count_true(s.update(i, true), n) == count_true(s, n) + 1,
    decreases n,
{
    if n - 1 > i {
        lemma_count_true(s, n - 1, i);
    } else {
        assert forall|k: int| 0 <= k < i implies s.update(i, true)[k] == s[k] by {}
        lemma_count_same(s, s.update(i, true), i);
    }
}

pub proof fn lemma_count_same(s: Seq<bool>, t: Seq<bool>, n: int)
    requires
        0 <= n <= s.len(),
        n <= t.len(),
        forall|k: int| 0 <= k < n ==> s[k] == t[k],
    ensures
        count_true(s, n) == count_true(t, n),
    decreases n,
{
    if n > 0 {
        lemma_count_same(s, t, n - 1);
    }
}

pub proof fn lemma_count_bound(s: Seq<bool>, n: int)
    requires
        0 <= n <= s.len(),
    ensures
        count_true(s, n) <= n,
    decreases n,
{
    if n > 0 {
        lemma_count_bound(s, n - 1);
    }
}

/// Follows a target through removed instructions (to the next position)
/// and unconditional jumps (to their targets), stopping at a position seen
/// before, at the end, or at any other instruction.
pub open spec fn threaded_from(insts: Seq<Instruction>, target: int, seen: Seq<bool>) -> int
    decreases insts.len() - count_true(seen, seen.len() as int),
{
    if seen.len() != insts.len() || target < 0 || target >= insts.len() || seen[target] {
        target
    } else {
        let seen2 = seen.update(target, true);
        proof {
            lemma_count_true(seen, seen.len() as int, target);
            lemma_count_bound(seen2, seen.len() as int);
        }
        if insts[target].removed {
            threaded_from(insts, target + 1, seen2)
        } else if insts[target].opcode == Opcode::Jmp && insts[target].target is Some {
            threaded_from(insts, insts[target].target->0 as int, seen2)
        } else {
            target
        }
    }
}

/// Where threading from `target` ends, starting with nothing seen.
pub open spec fn threaded_target(insts: Seq<Instruction>, target: int) -> int {
    threaded_from(insts, target, Seq::new(insts.len(), |j: int| false))
}

/// Threading follows only removed instructions and unconditional jumps: a
/// target that holds a kept instruction other than `Jmp` (a conditional
/// jump among them) is where threading ends.
pub proof fn law_threading_stops_at_kept_non_jump(insts: Seq<Instruction>, target: int)
    requires
        0 <= target < insts.len(),
        !insts[target].removed,
        insts[target].opcode != Opcode::Jmp,
    ensures
        threaded_target(insts, target) == target,
{
    let seen = Seq::new(insts.len(), |j: int| false);
    assert(!seen[target]);
}

/// Threading never lands on a kept unconditional jump that it could still
/// follow, unless the chain of jumps runs in a circle: from a kept `Jmp`
/// with a target, threading goes on from that target.
pub proof fn law_threading_follows_jumps(insts: Seq<Instruction>, target: int)
    requires
        0 <= target < insts.len(),
        !insts[target].removed,
        insts[target].opcode == Opcode::Jmp,
        insts[target].target is Some,
    ensures
        threaded_target(insts, target) == threaded_from(
            insts,
            insts[target].target->0 as int,
            Seq::new(insts.len(), |j: int| false).update(target, true),
        ),
{
    let seen = Seq::new(insts.len(), |j: int| false);
    assert(!seen[target]);
}

/// Threading skips a removed instruction: from it, threading goes on at
/// the next position.
pub proof fn law_threading_skips_removed(insts: Seq<Instruction>, target: int)
    requires
        0 <= target < insts.len(),
        insts[target].removed,
    ensures
        threaded_target(insts, target) == threaded_from(
            insts,
            target + 1,
            Seq::new(insts.len(), |j: int| false).update(target, true),
        ),
{
    let seen = Seq::new(insts.len(), |j: int| false);
    assert(!seen[target]);
}

/// A target outside the program is left as it is.
pub proof fn law_threading_outside(insts: Seq<Instruction>, target: int)
    requires
        target < 0 || target >= insts.len(),
    ensures
        threaded_target(insts, target) == target,
{
}

pub fn resolve_threaded_target(insts: &Vec<Instruction>, target: usize) -> (r: usize)
    ensures
        r == threaded_target(insts@, target as int),
{
    let len = insts.len();
    let mut seen: Vec<bool> = Vec::new();
    let mut k: usize = 0;
    while k < len
        invariant
            len == insts@.len(),
            k <= len,
            seen@.len() == k,
            forall|j: int| 0 <= j < k ==> !(#[trigger] seen@[j]),
        decreases len - k,
    {
        seen.push(false);
        k = k + 1;
    }
    proof {
        lemma_count_same(seen@, Seq::new(len as nat, |j: int| false), len as int);
        assert(count_true(Seq::new(len as nat, |j: int| false), len as int) == 0) by {
            lemma_count_zero(len as nat, len as int);
        }
    }
    let ghost start = target as int;
    proof {
        assert(seen@ =~= Seq::new(len as nat, |j: int| false));
    }
    let mut target = target;
    while target < len
        invariant
            len == insts@.len(),
            seen@.len() == len,
            count_true(seen@, len as int) <= len,
            threaded_target(insts@, start) == threaded_from(insts@, target as int, seen@),
        ensures
            threaded_target(insts@, start) == target,
        decreases len - count_true(seen@, len as int),
    {
        if seen[target] {
            break;
        }
        proof {
            lemma_count_true(seen@, len as int, target as int);
            lemma_count_bound(seen@.update(target as int, true), len as int);
        }
        seen.set(target, true);
        let inst = insts[target];
        if inst.removed {
            target = target + 1;
            continue;
        }
        if inst.opcode == Opcode::Jmp {
            if let Some(next) = inst.target {
                target = next;
                continue;
            }
        }
        break;
    }
    target
}

proof fn lemma_count_zero(len: nat, n: int)
    requires
        0 <= n <= len,
    ensures
        count_true(Seq::new(len, |j: int| false), n) == 0,
    decreases n,
{
    if n > 0 {
        lemma_count_zero(len, n - 1);
    }
}

/// Only kept unconditional jumps change: their target, or their removal.
pub open spec fn only_jumps_threaded(before: Seq<Instruction>, after: Seq<Instruction>) -> bool {
    &&& after.len() == before.len()
    &&& forall|i: int|
        0 <= i < before.len() ==> #[trigger] after[i] == before[i] || (!before[i].removed
            && before[i].opcode == Opcode::Jmp && after[i].opcode == Opcode::Jmp && after[i].a
            == before[i].a && after[i].b == before[i].b && after[i].c == before[i].c && after[i].bx
            == before[i].bx && after[i].sbx == before[i].sbx)
}

/// What threading does to position `i` of `t`: a kept unconditional jump
/// is pointed at the end of its chain, and removed when that is the next
/// position.
pub open spec fn thread_one(t: Seq<Instruction>, i: int) -> Seq<Instruction> {
    let x = t[i];
    if x.removed || x.opcode != Opcode::Jmp || x.target is None {
        t
    } else {
        let th = threaded_target(t, x.target->0 as int);
        let y = Instruction { target: Some(th as usize), ..x };
        if th == i + 1 {
            t.update(i, Instruction { removed: true, ..y })
        } else {
            t.update(i, y)
        }
    }
}

/// The program after threading positions `0..i` in order.
pub open spec fn thread_walk(s: Seq<Instruction>, i: int) -> Seq<Instruction>
    decreases i,
{
    if i <= 0 {
        s
    } else {
        thread_one(thread_walk(s, i - 1), i - 1)
    }
}

/// Points each kept unconditional jump at the end of the chain of jumps
/// and removed instructions it leads to, and removes jumps to the next
/// position; positions are taken in order, each seeing the changes made
/// before it.
pub fn thread_jumps(insts: &mut Vec<Instruction>) -> (r: bool)
    ensures
        final(insts)@ == thread_walk(old(insts)@, old(insts)@.len() as int),
        only_jumps_threaded(old(insts)@, final(insts)@),
        r == (final(insts)@ != old(insts)@),
{
    let mut changed = false;
    let len = insts.len();
    let mut index: usize = 0;
    while index < len
        invariant
            len == insts@.len(),
            index <= len,
            insts@ == thread_walk(old(insts)@, index as int),
            only_jumps_threaded(old(insts)@, insts@),
            forall|i: int| index <= i < len ==> #[trigger] insts@[i] == old(insts)@[i],
            changed == (insts@ != old(insts)@),
        decreases len - index,
    {
        let ghost t = insts@;
        let inst = insts[index];
        if inst.removed || inst.opcode != Opcode::Jmp {
            proof {
                assert(thread_one(t, index as int) == t);
            }
            index = index + 1;
            continue;
        }
        let target = match inst.target {
            Some(t) => t,
            None => {
                proof {
                    assert(thread_one(t, index as int) == t);
                }
                index = index + 1;
                continue;
            },
        };
        let threaded = resolve_threaded_target(insts, target);
        proof {
            assert(0 <= threaded);
        }
        let mut cur = inst;
        cur.target = Some(threaded);
        let mut modified = threaded != target;
        if threaded == index + 1 {
            cur.removed = true;
            modified = true;
        }
        if modified {
            insts.set(index, cur);
            changed = true;
            proof {
                assert(insts@[index as int] != old(insts)@[index as int]);
            }
        } else {
            proof {
                assert(cur == inst);
            }
        }
        proof {
            assert(insts@ =~= thread_one(t, index as int));
        }
        index = index + 1;
    }
    changed
}

} // verus!
