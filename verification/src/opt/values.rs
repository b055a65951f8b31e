//! Block-local value tracking: register coalescing of repeated constant
//! loads, folding of null/undefined tests on known values, and copy
//! propagation.
use vstd::prelude::*;

use crate::opcode::Opcode;
use crate::opt::dead::{binary_acc_op, jump_ab_op, jump_bc_op, same_outside};
use crate::opt::inst::{Instruction, ACC, REG_COUNT};
use crate::value::{bool_value, lemma_bool_value_view, spec_is_undefined, Value, ValueView};

verus! {

/// Which constant a register is known to hold.
#[derive(Clone, Copy, PartialEq, Eq, Structural, Debug)]
pub enum RegisterValueKey {
    Immediate(i16),
    Constant(u16),
}

/// What is known of a register's value.
#[derive(Clone, Copy, PartialEq, Eq, Structural, Debug)]
pub enum KnownValueKind {
    Unknown,
    Undefined,
    Null,
    NonNullish,
}

/// Only the register fields of the instruction may differ.
pub open spec fn same_shape(x: Instruction, y: Instruction) -> bool {
    x.opcode == y.opcode && x.bx == y.bx && x.sbx == y.sbx && x.target == y.target && x.removed
        == y.removed
}

fn fresh_regs<T: Copy>(value: T) -> (r: Vec<T>)
    ensures
        r@.len() == REG_COUNT,
        forall|k: int| 0 <= k < REG_COUNT ==> #[trigger] r@[k] == value,
{
    let mut v: Vec<T> = Vec::new();
    let mut k: usize = 0;
    while k < REG_COUNT
        invariant
            k <= REG_COUNT,
            v@.len() == k,
            forall|j: int| 0 <= j < k ==> #[trigger] v@[j] == value,
        decreases REG_COUNT - k,
    {
        v.push(value);
        k = k + 1;
    }
    v
}

fn fill_regs<T: Copy>(v: &mut Vec<T>, value: T)
    requires
        old(v)@.len() == REG_COUNT,
    ensures
        final(v)@.len() == REG_COUNT,
        forall|k: int| 0 <= k < REG_COUNT ==> #[trigger] final(v)@[k] == value,
{
    let mut k: usize = 0;
    while k < REG_COUNT
        invariant
            v@.len() == REG_COUNT,
            k <= REG_COUNT,
            forall|j: int| 0 <= j < k ==> #[trigger] v@[j] == value,
        decreases REG_COUNT - k,
    {
        v.set(k, value);
        k = k + 1;
    }
}

// ---------------------------------------------------------------------------
// Copy propagation
// ---------------------------------------------------------------------------
/// Follows copy aliases from `reg`, at most one step per register, stopping
/// at a register without alias or aliased to itself.
pub open spec fn alias_walk(aliases: Seq<Option<u8>>, reg: u8, steps: nat) -> u8
    decreases steps,
{
    if steps == 0 {
        reg
    } else {
        match aliases[reg as int] {
            None => reg,
            Some(next) => if next == reg {
                reg
            } else {
                alias_walk(aliases, next, (steps - 1) as nat)
            },
        }
    }
}

pub fn resolve_alias(aliases: &Vec<Option<u8>>, reg: u8) -> (r: u8)
    requires
        aliases@.len() == REG_COUNT,
    ensures
        r == alias_walk(aliases@, reg, REG_COUNT as nat),
{
    let mut current = reg;
    let mut steps: usize = 0;
    while steps < REG_COUNT
        invariant
            aliases@.len() == REG_COUNT,
            steps <= REG_COUNT,
            alias_walk(aliases@, reg, REG_COUNT as nat) == alias_walk(aliases@, current, (REG_COUNT - steps) as nat),
        ensures
            alias_walk(aliases@, reg, REG_COUNT as nat) == current,
        decreases REG_COUNT - steps,
    {
        let next = match aliases[current as usize] {
            Some(n) => n,
            None => {
                break;
            },
        };
        if next == current {
            break;
        }
        current = next;
        steps = steps + 1;
    }
    current
}

/// The aliases without `reg`'s and without those naming `reg`.
pub open spec fn forget_alias(a: Seq<Option<u8>>, reg: u8) -> Seq<Option<u8>> {
    Seq::new(REG_COUNT as nat, |k: int| if k == reg || a[k] == Some(reg) { None } else { a[k] })
}

/// Forgets `reg`'s alias and every alias that names `reg`.
pub fn invalidate_alias(aliases: &mut Vec<Option<u8>>, reg: u8)
    requires
        old(aliases)@.len() == REG_COUNT,
    ensures
        final(aliases)@ == forget_alias(old(aliases)@, reg),
{
    aliases.set(reg as usize, None);
    let mut k: usize = 0;
    while k < REG_COUNT
        invariant
            aliases@.len() == REG_COUNT,
            k <= REG_COUNT,
            aliases@[reg as int] is None,
            forall|j: int| 0 <= j < k ==> #[trigger] aliases@[j] == forget_alias(old(aliases)@, reg)[j],
            forall|j: int| k <= j < REG_COUNT && j != reg ==> #[trigger] aliases@[j] == old(aliases)@[j],
        decreases REG_COUNT - k,
    {
        if aliases[k] == Some(reg) {
            aliases.set(k, None);
        }
        k = k + 1;
    }
    assert(aliases@ =~= forget_alias(old(aliases)@, reg));
}

/// Replaces `reg` by the register it resolves to; true when it changed.
pub fn rewrite_reg(aliases: &Vec<Option<u8>>, reg: &mut u8) -> (r: bool)
    requires
        aliases@.len() == REG_COUNT,
    ensures
        *final(reg) == alias_walk(aliases@, *old(reg), REG_COUNT as nat),
        r == (*final(reg) != *old(reg)),
{
    let resolved = resolve_alias(aliases, *reg);
    if resolved != *reg {
        *reg = resolved;
        true
    } else {
        false
    }
}

/// How copy propagation treats an operation: which registers it reads
/// (and so rewrites) and which aliases it invalidates, by group.
pub open spec fn copy_class(op: Opcode) -> int {
    if op == Opcode::Mov {
        1
    } else if binary_acc_op(op) {
        2
    } else if op == Opcode::AddAcc || op == Opcode::SubAcc || op == Opcode::MulAcc || op
        == Opcode::DivAcc || op == Opcode::AddStrAcc || op == Opcode::Neg || op == Opcode::Inc
        || op == Opcode::Dec || op == Opcode::ToPrimitive || op == Opcode::BitNot {
        3
    } else if op == Opcode::Typeof || op == Opcode::ToNum || op == Opcode::ToStr || op
        == Opcode::IsUndef || op == Opcode::IsNull || op == Opcode::LoadArg || op
        == Opcode::GetScope || op == Opcode::SetScope || op == Opcode::GetProp || op
        == Opcode::GetSuper || op == Opcode::DeleteProp || op == Opcode::HasProp || op
        == Opcode::GetPropIc || op == Opcode::GetLengthIc {
        4
    } else if op == Opcode::SetProp || op == Opcode::SetSuper || op == Opcode::SetPropIc {
        5
    } else if op == Opcode::GetIdxFast || op == Opcode::GetIdxIc {
        6
    } else if op == Opcode::SetIdxFast || op == Opcode::SetIdxIc {
        7
    } else if op == Opcode::LoadAcc {
        8
    } else if op == Opcode::JmpTrue || op == Opcode::JmpFalse || op == Opcode::Yield || op
        == Opcode::Await || op == Opcode::Throw || op == Opcode::RetReg {
        9
    } else if jump_ab_op(op) {
        10
    } else if jump_bc_op(op) {
        11
    } else if op == Opcode::LoadI || op == Opcode::LoadK || op == Opcode::LoadGlobalIc || op
        == Opcode::GetGlobal || op == Opcode::GetUpval || op == Opcode::NewObj || op
        == Opcode::NewArr || op == Opcode::NewFunc || op == Opcode::NewClass || op
        == Opcode::NewThis || op == Opcode::LoadClosure || op == Opcode::ResolveScope || op
        == Opcode::InitName || op == Opcode::TypeofName || op == Opcode::CreateEnv || op
        == Opcode::Keys || op == Opcode::ForIn || op == Opcode::IteratorNext {
        12
    } else if op == Opcode::LoadName {
        13
    } else if op == Opcode::Ret || op == Opcode::RetU || op == Opcode::Jmp || op == Opcode::Switch
        || op == Opcode::LoopHint {
        14
    } else {
        15
    }
}

/// The register `r` resolves to through the aliases.
pub open spec fn resolved(a: Seq<Option<u8>>, r: u8) -> u8 {
    alias_walk(a, r, REG_COUNT as nat)
}

/// The instruction with its read registers rewritten through the aliases.
#[verifier::opaque]
pub open spec fn copy_rewrite(a: Seq<Option<u8>>, x: Instruction) -> Instruction {
    let k = copy_class(x.opcode);
    if k == 1 || k == 3 || k == 4 {
        Instruction { b: resolved(a, x.b), ..x }
    } else if k == 2 || k == 6 || k == 11 {
        Instruction { b: resolved(a, x.b), c: resolved(a, x.c), ..x }
    } else if k == 5 || k == 10 {
        Instruction { a: resolved(a, x.a), b: resolved(a, x.b), ..x }
    } else if k == 7 {
        Instruction { a: resolved(a, x.a), b: resolved(a, x.b), c: resolved(a, x.c), ..x }
    } else if k == 8 || k == 9 {
        Instruction { a: resolved(a, x.a), ..x }
    } else {
        x
    }
}

/// The aliases after the kept instruction `x`: a copy makes its
/// destination an alias of its (rewritten) source, a move to the
/// accumulator makes it one of the register; writes forget aliases of
/// and to the written register; unknown operations forget everything.
#[verifier::opaque]
pub open spec fn copy_aliases_after(a: Seq<Option<u8>>, x: Instruction) -> Seq<Option<u8>> {
    let k = copy_class(x.opcode);
    let y = copy_rewrite(a, x);
    if k == 1 {
        if y.a != y.b {
            forget_alias(a, x.a).update(x.a as int, Some(y.b))
        } else {
            forget_alias(a, x.a)
        }
    } else if k == 2 || k == 3 || k == 5 || k == 7 {
        forget_alias(a, ACC)
    } else if k == 4 || k == 6 || k == 12 {
        forget_alias(a, x.a)
    } else if k == 8 {
        forget_alias(a, ACC).update(ACC as int, Some(y.a))
    } else if k == 13 {
        forget_alias(forget_alias(a, x.a), ACC)
    } else if k == 15 {
        Seq::new(REG_COUNT as nat, |r: int| None::<u8>)
    } else {
        a
    }
}

/// The aliases known before position `i` of the block starting at `start`.
pub open spec fn copy_aliases_at(s: Seq<Instruction>, start: int, i: int) -> Seq<Option<u8>>
    decreases i - start,
{
    if i <= start {
        Seq::new(REG_COUNT as nat, |r: int| None::<u8>)
    } else if s[i - 1].removed {
        copy_aliases_at(s, start, i - 1)
    } else {
        copy_aliases_after(copy_aliases_at(s, start, i - 1), s[i - 1])
    }
}

/// The aliases at `i` depend only on the instructions from `start` to `i`.
pub(crate) proof fn lemma_copy_at_frame(s1: Seq<Instruction>, s2: Seq<Instruction>, start: int, i: int)
    requires
        forall|k: int| start <= k < i ==> #[trigger] s1[k] == s2[k],
    ensures
        copy_aliases_at(s1, start, i) == copy_aliases_at(s2, start, i),
    decreases i - start,
{
    if i > start {
        lemma_copy_at_frame(s1, s2, start, i - 1);
    }
}

/// What copy propagation leaves at position `i`.
pub open spec fn after_copy_pass(s: Seq<Instruction>, start: int, i: int) -> Instruction {
    if s[i].removed {
        s[i]
    } else {
        copy_rewrite(copy_aliases_at(s, start, i), s[i])
    }
}

/// Rewrites the registers that `inst` reads through the aliases, and
/// updates the aliases for what it writes.
#[verifier::rlimit(40)]
fn copy_step(aliases: &mut Vec<Option<u8>>, inst: Instruction) -> (r: Instruction)
    requires
        old(aliases)@.len() == REG_COUNT,
    ensures
        r == copy_rewrite(old(aliases)@, inst),
        final(aliases)@ == copy_aliases_after(old(aliases)@, inst),
        final(aliases)@.len() == REG_COUNT,
        same_shape(r, inst),
{
    let mut inst = inst;
    let ghost a0 = aliases@;
    let ghost x = inst;
    proof {
        reveal(copy_rewrite);
        reveal(copy_aliases_after);
    }
    let op = inst.opcode;
    if op == Opcode::Mov {
        rewrite_reg(aliases, &mut inst.b);
        invalidate_alias(aliases, inst.a);
        if inst.a != inst.b {
            aliases.set(inst.a as usize, Some(inst.b));
        }
    } else if op == Opcode::Add || op == Opcode::Eq || op == Opcode::Lt || op == Opcode::Lte || op
        == Opcode::StrictEq || op == Opcode::StrictNeq || op == Opcode::BitAnd || op
        == Opcode::BitOr || op == Opcode::BitXor || op == Opcode::Shl || op == Opcode::Shr || op
        == Opcode::Ushr || op == Opcode::Pow || op == Opcode::LogicalAnd || op
        == Opcode::LogicalOr || op == Opcode::NullishCoalesce || op == Opcode::In || op
        == Opcode::Instanceof || op == Opcode::AddStr {
        rewrite_reg(aliases, &mut inst.b);
        rewrite_reg(aliases, &mut inst.c);
        invalidate_alias(aliases, ACC);
    } else if op == Opcode::AddAcc || op == Opcode::SubAcc || op == Opcode::MulAcc || op
        == Opcode::DivAcc || op == Opcode::AddStrAcc || op == Opcode::Neg || op == Opcode::Inc
        || op == Opcode::Dec || op == Opcode::ToPrimitive || op == Opcode::BitNot {
        rewrite_reg(aliases, &mut inst.b);
        invalidate_alias(aliases, ACC);
    } else if op == Opcode::Typeof || op == Opcode::ToNum || op == Opcode::ToStr || op
        == Opcode::IsUndef || op == Opcode::IsNull || op == Opcode::LoadArg || op
        == Opcode::GetScope || op == Opcode::SetScope || op == Opcode::GetProp || op
        == Opcode::GetSuper || op == Opcode::DeleteProp || op == Opcode::HasProp || op
        == Opcode::GetPropIc || op == Opcode::GetLengthIc {
        rewrite_reg(aliases, &mut inst.b);
        invalidate_alias(aliases, inst.a);
    } else if op == Opcode::SetProp || op == Opcode::SetSuper || op == Opcode::SetPropIc {
        rewrite_reg(aliases, &mut inst.a);
        rewrite_reg(aliases, &mut inst.b);
        invalidate_alias(aliases, ACC);
    } else if op == Opcode::GetIdxFast || op == Opcode::GetIdxIc {
        rewrite_reg(aliases, &mut inst.b);
        rewrite_reg(aliases, &mut inst.c);
        invalidate_alias(aliases, inst.a);
    } else if op == Opcode::SetIdxFast || op == Opcode::SetIdxIc {
        rewrite_reg(aliases, &mut inst.a);
        rewrite_reg(aliases, &mut inst.b);
        rewrite_reg(aliases, &mut inst.c);
        invalidate_alias(aliases, ACC);
    } else if op == Opcode::LoadAcc {
        rewrite_reg(aliases, &mut inst.a);
        invalidate_alias(aliases, ACC);
        aliases.set(ACC as usize, Some(inst.a));
    } else if op == Opcode::JmpTrue || op == Opcode::JmpFalse || op == Opcode::Yield || op
        == Opcode::Await || op == Opcode::Throw || op == Opcode::RetReg {
        rewrite_reg(aliases, &mut inst.a);
    } else if op == Opcode::JmpEq || op == Opcode::JmpNeq || op == Opcode::JmpLt || op
        == Opcode::JmpLte || op == Opcode::JmpLteFalse {
        rewrite_reg(aliases, &mut inst.a);
        rewrite_reg(aliases, &mut inst.b);
    } else if op == Opcode::EqJmpTrue || op == Opcode::LtJmp || op == Opcode::EqJmpFalse || op
        == Opcode::LteJmpLoop {
        rewrite_reg(aliases, &mut inst.b);
        rewrite_reg(aliases, &mut inst.c);
    } else if op == Opcode::LoadI || op == Opcode::LoadK || op == Opcode::LoadGlobalIc || op
        == Opcode::GetGlobal || op == Opcode::GetUpval || op == Opcode::NewObj || op
        == Opcode::NewArr || op == Opcode::NewFunc || op == Opcode::NewClass || op
        == Opcode::NewThis || op == Opcode::LoadClosure || op == Opcode::ResolveScope || op
        == Opcode::InitName || op == Opcode::TypeofName || op == Opcode::CreateEnv || op
        == Opcode::Keys || op == Opcode::ForIn || op == Opcode::IteratorNext {
        invalidate_alias(aliases, inst.a);
    } else if op == Opcode::LoadName {
        invalidate_alias(aliases, inst.a);
        invalidate_alias(aliases, ACC);
    } else if op == Opcode::Ret || op == Opcode::RetU || op == Opcode::Jmp || op
        == Opcode::Switch || op == Opcode::LoopHint {
    } else {
        fill_regs(aliases, None);
    }
    proof {
        assert(inst == copy_rewrite(a0, x));
        assert(aliases@ =~= copy_aliases_after(a0, x));
    }
    inst
}

/// Rewrites register reads through the copies made earlier in the block,
/// forgetting an alias when either register is written.
pub fn copy_propagation_block(insts: &mut Vec<Instruction>, start: usize, end: usize) -> (r: bool)
    requires
        start <= end <= old(insts)@.len(),
    ensures
        same_outside(old(insts)@, final(insts)@, start as int, end as int),
        forall|i: int|
            start <= i < end ==> #[trigger] final(insts)@[i] == after_copy_pass(old(insts)@, start as int, i),
        forall|i: int|
            0 <= i < old(insts)@.len() ==> same_shape(#[trigger] final(insts)@[i], old(insts)@[i]),
        r == (final(insts)@ != old(insts)@),
{
    let mut changed = false;
    let mut aliases: Vec<Option<u8>> = fresh_regs(None);
    let mut index: usize = start;
    proof {
        assert(aliases@ =~= copy_aliases_at(old(insts)@, start as int, start as int));
    }
    while index < end
        invariant
            start <= index <= end <= insts@.len(),
            aliases@.len() == REG_COUNT,
            aliases@ == copy_aliases_at(old(insts)@, start as int, index as int),
            same_outside(old(insts)@, insts@, start as int, end as int),
            forall|i: int|
                start <= i < index ==> #[trigger] insts@[i] == after_copy_pass(old(insts)@, start as int, i),
            forall|i: int| index <= i < end ==> #[trigger] insts@[i] == old(insts)@[i],
            forall|i: int|
                0 <= i < old(insts)@.len() ==> same_shape(#[trigger] insts@[i], old(insts)@[i]),
            changed == (insts@ != old(insts)@),
        decreases end - index,
    {
        let before = insts[index];
        if before.removed {
            index = index + 1;
            continue;
        }
        let inst = copy_step(&mut aliases, before);
        if inst != before {
            insts.set(index, inst);
            changed = true;
            proof {
                assert(insts@[index as int] != old(insts)@[index as int]);
            }
        }
        index = index + 1;
    }
    changed
}


// ---------------------------------------------------------------------------
// Register coalescing
// ---------------------------------------------------------------------------
/// The position of the first entry of `key` at or after `i`, or -1.
pub open spec fn avail_index(s: Seq<(RegisterValueKey, u8)>, key: RegisterValueKey, i: int) -> int
    decreases s.len() - i,
{
    if i < 0 || i >= s.len() {
        -1
    } else if s[i].0 == key {
        i
    } else {
        avail_index(s, key, i + 1)
    }
}

/// The register that the table records for `key`: its first entry's.
pub open spec fn avail_lookup(s: Seq<(RegisterValueKey, u8)>, key: RegisterValueKey) -> Option<u8> {
    let i = avail_index(s, key, 0);
    if i >= 0 {
        Some(s[i].1)
    } else {
        None
    }
}

/// The table without the first entry of `key`.
pub open spec fn avail_without(s: Seq<(RegisterValueKey, u8)>, key: RegisterValueKey) -> Seq<(RegisterValueKey, u8)> {
    let i = avail_index(s, key, 0);
    if i >= 0 {
        s.remove(i)
    } else {
        s
    }
}

/// The table with `key` recorded in `reg`: its first entry rewritten, or a
/// new entry at the end.
pub open spec fn avail_with(s: Seq<(RegisterValueKey, u8)>, key: RegisterValueKey, reg: u8) -> Seq<(RegisterValueKey, u8)> {
    let i = avail_index(s, key, 0);
    if i >= 0 {
        s.update(i, (key, reg))
    } else {
        s.push((key, reg))
    }
}

proof fn lemma_avail_index_range(s: Seq<(RegisterValueKey, u8)>, key: RegisterValueKey, i: int)
    ensures
        avail_index(s, key, i) == -1 || (0 <= i <= avail_index(s, key, i) < s.len() && s[avail_index(
            s,
            key,
            i,
        )].0 == key),
    decreases s.len() - i,
{
    if 0 <= i < s.len() && s[i].0 != key {
        lemma_avail_index_range(s, key, i + 1);
    }
}

/// The register that holds `key`, as the table records it.
fn avail_get(available: &Vec<(RegisterValueKey, u8)>, key: RegisterValueKey) -> (r: Option<u8>)
    ensures
        r == avail_lookup(available@, key),
{
    proof {
        lemma_avail_index_range(available@, key, 0);
    }
    let mut i: usize = 0;
    while i < available.len()
        invariant
            i <= available@.len(),
            avail_index(available@, key, 0) == avail_index(available@, key, i as int),
        decreases available@.len() - i,
    {
        if available[i].0 == key {
            return Some(available[i].1);
        }
        i = i + 1;
    }
    None
}

/// Drops the first entry of `key`.
fn avail_remove(available: &mut Vec<(RegisterValueKey, u8)>, key: RegisterValueKey)
    ensures
        final(available)@ == avail_without(old(available)@, key),
{
    proof {
        lemma_avail_index_range(available@, key, 0);
    }
    let ghost start = available@;
    let mut i: usize = 0;
    while i < available.len()
        invariant
            available@ == start,
            start == old(available)@,
            i <= available@.len(),
            avail_index(start, key, 0) == avail_index(start, key, i as int),
        decreases available@.len() - i,
    {
        if available[i].0 == key {
            proof {
                assert(avail_index(start, key, i as int) == i as int);
            }
            available.remove(i);
            assert(available@ =~= start.remove(i as int));
            return;
        }
        i = i + 1;
    }
}

/// Records that `reg` holds `key`.
fn avail_insert(available: &mut Vec<(RegisterValueKey, u8)>, key: RegisterValueKey, reg: u8)
    ensures
        final(available)@ == avail_with(old(available)@, key, reg),
{
    proof {
        lemma_avail_index_range(available@, key, 0);
    }
    let ghost start = available@;
    let mut i: usize = 0;
    while i < available.len()
        invariant
            available@ == start,
            start == old(available)@,
            i <= available@.len(),
            avail_index(start, key, 0) == avail_index(start, key, i as int),
        decreases available@.len() - i,
    {
        if available[i].0 == key {
            proof {
                assert(avail_index(start, key, i as int) == i as int);
            }
            available.set(i, (key, reg));
            return;
        }
        i = i + 1;
    }
    available.push((key, reg));
}

/// The table after forgetting what `reg` holds: the entry of the key it
/// held goes when the entry names `reg`.
pub open spec fn avail_forget(
    s: Seq<(RegisterValueKey, u8)>,
    held: Option<RegisterValueKey>,
    reg: u8,
) -> Seq<(RegisterValueKey, u8)> {
    match held {
        Some(k) => if avail_lookup(s, k) == Some(reg) {
            avail_without(s, k)
        } else {
            s
        },
        None => s,
    }
}

/// Forgets what `reg` holds, and its table entry if the entry names it.
pub fn invalidate_value_key(
    available: &mut Vec<(RegisterValueKey, u8)>,
    values: &mut Vec<Option<RegisterValueKey>>,
    reg: u8,
)
    requires
        old(values)@.len() == REG_COUNT,
    ensures
        final(values)@ == old(values)@.update(reg as int, None),
        final(available)@ == avail_forget(old(available)@, old(values)@[reg as int], reg),
{
    let key = values[reg as usize];
    values.set(reg as usize, None);
    if let Some(k) = key {
        if avail_get(available, k) == Some(reg) {
            avail_remove(available, k);
        }
    }
}

/// Records that `reg` now holds `key`.
pub fn record_value_key(
    available: &mut Vec<(RegisterValueKey, u8)>,
    values: &mut Vec<Option<RegisterValueKey>>,
    reg: u8,
    key: RegisterValueKey,
)
    requires
        old(values)@.len() == REG_COUNT,
    ensures
        final(values)@ == old(values)@.update(reg as int, Some(key)),
        final(available)@ == avail_with(
            avail_forget(old(available)@, old(values)@[reg as int], reg),
            key,
            reg,
        ),
{
    invalidate_value_key(available, values, reg);
    values.set(reg as usize, Some(key));
    avail_insert(available, key, reg);
}

/// The copy `Mov dst, src`.
pub open spec fn mov_of(dst: u8, src: u8) -> Instruction {
    Instruction {
        opcode: Opcode::Mov,
        a: dst,
        b: src,
        c: 0,
        bx: src as u16,
        sbx: src as i16,
        target: None,
        removed: false,
    }
}

/// How register coalescing treats an operation, by group: constant
/// loads, copies, moves to the accumulator, writes of the accumulator,
/// writes of register `a`, writes of both, operations that write nothing,
/// and the rest, which make everything unknown.
pub open spec fn coalesce_class(op: Opcode) -> int {
    if op == Opcode::LoadI || op == Opcode::LoadK {
        1
    } else if op == Opcode::Mov {
        2
    } else if op == Opcode::LoadAcc {
        3
    } else if op == Opcode::Add || op == Opcode::Eq || op == Opcode::Lt || op == Opcode::Lte ||
        op == Opcode::StrictEq || op == Opcode::StrictNeq || op == Opcode::BitAnd ||
        op == Opcode::BitOr || op == Opcode::BitXor || op == Opcode::Shl || op == Opcode::Shr ||
        op == Opcode::Ushr || op == Opcode::Pow || op == Opcode::LogicalAnd ||
        op == Opcode::LogicalOr || op == Opcode::NullishCoalesce || op == Opcode::In ||
        op == Opcode::Instanceof || op == Opcode::AddStr || op == Opcode::AddAcc ||
        op == Opcode::SubAcc || op == Opcode::MulAcc || op == Opcode::DivAcc ||
        op == Opcode::AddStrAcc || op == Opcode::AddAccImm8 || op == Opcode::SubAccImm8 ||
        op == Opcode::MulAccImm8 || op == Opcode::DivAccImm8 || op == Opcode::IncAcc ||
        op == Opcode::LoadThis || op == Opcode::Load0 || op == Opcode::Load1 ||
        op == Opcode::LoadNull || op == Opcode::LoadTrue || op == Opcode::LoadFalse ||
        op == Opcode::Neg || op == Opcode::Inc || op == Opcode::Dec || op == Opcode::ToPrimitive ||
        op == Opcode::BitNot {
        4
    } else if op == Opcode::Typeof || op == Opcode::ToNum || op == Opcode::ToStr ||
        op == Opcode::IsUndef || op == Opcode::IsNull || op == Opcode::LoadArg ||
        op == Opcode::GetScope || op == Opcode::SetScope || op == Opcode::LoadGlobalIc ||
        op == Opcode::GetGlobal || op == Opcode::GetUpval || op == Opcode::NewObj ||
        op == Opcode::NewArr || op == Opcode::NewFunc || op == Opcode::NewClass ||
        op == Opcode::NewThis || op == Opcode::LoadClosure || op == Opcode::ResolveScope ||
        op == Opcode::InitName || op == Opcode::TypeofName || op == Opcode::CreateEnv ||
        op == Opcode::Keys || op == Opcode::ForIn || op == Opcode::IteratorNext {
        5
    } else if op == Opcode::LoadName || op == Opcode::GetProp || op == Opcode::SetProp ||
        op == Opcode::GetSuper || op == Opcode::SetSuper || op == Opcode::DeleteProp ||
        op == Opcode::HasProp || op == Opcode::GetPropIc || op == Opcode::SetPropIc ||
        op == Opcode::GetIdxFast || op == Opcode::SetIdxFast || op == Opcode::GetIdxIc ||
        op == Opcode::SetIdxIc || op == Opcode::GetLengthIc {
        6
    } else if op == Opcode::Ret || op == Opcode::RetU || op == Opcode::RetReg || op == Opcode::Jmp ||
        op == Opcode::JmpTrue || op == Opcode::JmpFalse || op == Opcode::JmpEq ||
        op == Opcode::JmpNeq || op == Opcode::JmpLt || op == Opcode::JmpLte ||
        op == Opcode::JmpLteFalse || op == Opcode::EqJmpTrue || op == Opcode::LtJmp ||
        op == Opcode::EqJmpFalse || op == Opcode::LoopIncJmp || op == Opcode::Try ||
        op == Opcode::IncJmpFalseLoop || op == Opcode::IncAccJmp || op == Opcode::TestJmpTrue ||
        op == Opcode::LteJmpLoop || op == Opcode::Yield || op == Opcode::Await ||
        op == Opcode::Throw || op == Opcode::Switch || op == Opcode::LoopHint {
        7
    } else {
        8
    }
}

/// What coalescing knows: the table of registers holding each key, and
/// the key each register holds.
pub type CoalesceState = (Seq<(RegisterValueKey, u8)>, Seq<Option<RegisterValueKey>>);

/// The state after forgetting what `reg` holds.
pub open spec fn state_forget(st: CoalesceState, reg: u8) -> CoalesceState {
    (avail_forget(st.0, st.1[reg as int], reg), st.1.update(reg as int, None))
}

/// The state after recording that `reg` holds `key`.
pub open spec fn state_record(st: CoalesceState, reg: u8, key: RegisterValueKey) -> CoalesceState {
    let f = state_forget(st, reg);
    (avail_with(f.0, key, reg), f.1.update(reg as int, Some(key)))
}

/// The key of a constant load.
pub open spec fn load_key(x: Instruction) -> RegisterValueKey {
    if x.opcode == Opcode::LoadI {
        RegisterValueKey::Immediate(x.sbx)
    } else {
        RegisterValueKey::Constant(x.bx)
    }
}

/// A constant load becomes a copy of the register recorded for its key,
/// when that is another register; everything else stays.
pub open spec fn coalesce_rewrite(st: CoalesceState, x: Instruction) -> Instruction {
    if coalesce_class(x.opcode) == 1 {
        match avail_lookup(st.0, load_key(x)) {
            Some(src) => if src != x.a {
                mov_of(x.a, src)
            } else {
                x
            },
            None => x,
        }
    } else {
        x
    }
}

/// The state after the kept instruction `x`.
#[verifier::opaque]
pub open spec fn coalesce_after(st: CoalesceState, x: Instruction) -> CoalesceState {
    let k = coalesce_class(x.opcode);
    if k == 1 {
        state_record(st, x.a, load_key(x))
    } else if k == 2 {
        let f = state_forget(st, x.a);
        match f.1[x.b as int] {
            Some(key) => state_record(f, x.a, key),
            None => f,
        }
    } else if k == 3 {
        let f = state_forget(st, ACC);
        match f.1[x.a as int] {
            Some(key) => state_record(f, ACC, key),
            None => f,
        }
    } else if k == 4 {
        state_forget(st, ACC)
    } else if k == 5 {
        state_forget(st, x.a)
    } else if k == 6 {
        state_forget(state_forget(st, x.a), ACC)
    } else if k == 7 {
        st
    } else {
        (Seq::empty(), Seq::new(REG_COUNT as nat, |r: int| None::<RegisterValueKey>))
    }
}

/// The state before position `i` of the block starting at `start`.
pub open spec fn coalesce_at(s: Seq<Instruction>, start: int, i: int) -> CoalesceState
    decreases i - start,
{
    if i <= start {
        (Seq::empty(), Seq::new(REG_COUNT as nat, |r: int| None::<RegisterValueKey>))
    } else if s[i - 1].removed {
        coalesce_at(s, start, i - 1)
    } else {
        coalesce_after(coalesce_at(s, start, i - 1), s[i - 1])
    }
}

/// The state at `i` depends only on the instructions from `start` to `i`.
pub(crate) proof fn lemma_coalesce_at_frame(s1: Seq<Instruction>, s2: Seq<Instruction>, start: int, i: int)
    requires
        forall|k: int| start <= k < i ==> #[trigger] s1[k] == s2[k],
    ensures
        coalesce_at(s1, start, i) == coalesce_at(s2, start, i),
    decreases i - start,
{
    if i > start {
        lemma_coalesce_at_frame(s1, s2, start, i - 1);
    }
}

/// What coalescing leaves at position `i`.
pub open spec fn after_coalesce_pass(s: Seq<Instruction>, start: int, i: int) -> Instruction {
    if s[i].removed {
        s[i]
    } else {
        coalesce_rewrite(coalesce_at(s, start, i), s[i])
    }
}

/// Updates the state for the kept instruction `inst`.
#[verifier::rlimit(40)]
fn coalesce_step(
    available: &mut Vec<(RegisterValueKey, u8)>,
    values: &mut Vec<Option<RegisterValueKey>>,
    inst: Instruction,
)
    requires
        old(values)@.len() == REG_COUNT,
    ensures
        (final(available)@, final(values)@) == coalesce_after((old(available)@, old(values)@), inst),
        final(values)@.len() == REG_COUNT,
{
    proof {
        reveal(coalesce_after);
    }
    let ghost st = (available@, values@);
    let op = inst.opcode;
    if op == Opcode::LoadI || op == Opcode::LoadK {
        let key = if op == Opcode::LoadI {
            RegisterValueKey::Immediate(inst.sbx)
        } else {
            RegisterValueKey::Constant(inst.bx)
        };
        record_value_key(available, values, inst.a, key);
    } else if op == Opcode::Mov {
        invalidate_value_key(available, values, inst.a);
        if let Some(key) = values[inst.b as usize] {
            record_value_key(available, values, inst.a, key);
        }
    } else if op == Opcode::LoadAcc {
        invalidate_value_key(available, values, ACC);
        if let Some(key) = values[inst.a as usize] {
            record_value_key(available, values, ACC, key);
        }
    } else if op == Opcode::Add || op == Opcode::Eq || op == Opcode::Lt || op == Opcode::Lte ||
        op == Opcode::StrictEq || op == Opcode::StrictNeq || op == Opcode::BitAnd ||
        op == Opcode::BitOr || op == Opcode::BitXor || op == Opcode::Shl || op == Opcode::Shr ||
        op == Opcode::Ushr || op == Opcode::Pow || op == Opcode::LogicalAnd ||
        op == Opcode::LogicalOr || op == Opcode::NullishCoalesce || op == Opcode::In ||
        op == Opcode::Instanceof || op == Opcode::AddStr || op == Opcode::AddAcc ||
        op == Opcode::SubAcc || op == Opcode::MulAcc || op == Opcode::DivAcc ||
        op == Opcode::AddStrAcc || op == Opcode::AddAccImm8 || op == Opcode::SubAccImm8 ||
        op == Opcode::MulAccImm8 || op == Opcode::DivAccImm8 || op == Opcode::IncAcc ||
        op == Opcode::LoadThis || op == Opcode::Load0 || op == Opcode::Load1 ||
        op == Opcode::LoadNull || op == Opcode::LoadTrue || op == Opcode::LoadFalse ||
        op == Opcode::Neg || op == Opcode::Inc || op == Opcode::Dec || op == Opcode::ToPrimitive ||
        op == Opcode::BitNot {
        invalidate_value_key(available, values, ACC);
    } else if op == Opcode::Typeof || op == Opcode::ToNum || op == Opcode::ToStr ||
        op == Opcode::IsUndef || op == Opcode::IsNull || op == Opcode::LoadArg ||
        op == Opcode::GetScope || op == Opcode::SetScope || op == Opcode::LoadGlobalIc ||
        op == Opcode::GetGlobal || op == Opcode::GetUpval || op == Opcode::NewObj ||
        op == Opcode::NewArr || op == Opcode::NewFunc || op == Opcode::NewClass ||
        op == Opcode::NewThis || op == Opcode::LoadClosure || op == Opcode::ResolveScope ||
        op == Opcode::InitName || op == Opcode::TypeofName || op == Opcode::CreateEnv ||
        op == Opcode::Keys || op == Opcode::ForIn || op == Opcode::IteratorNext {
        invalidate_value_key(available, values, inst.a);
    } else if op == Opcode::LoadName || op == Opcode::GetProp || op == Opcode::SetProp ||
        op == Opcode::GetSuper || op == Opcode::SetSuper || op == Opcode::DeleteProp ||
        op == Opcode::HasProp || op == Opcode::GetPropIc || op == Opcode::SetPropIc ||
        op == Opcode::GetIdxFast || op == Opcode::SetIdxFast || op == Opcode::GetIdxIc ||
        op == Opcode::SetIdxIc || op == Opcode::GetLengthIc {
        invalidate_value_key(available, values, inst.a);
        invalidate_value_key(available, values, ACC);
    } else if op == Opcode::Ret || op == Opcode::RetU || op == Opcode::RetReg || op == Opcode::Jmp ||
        op == Opcode::JmpTrue || op == Opcode::JmpFalse || op == Opcode::JmpEq ||
        op == Opcode::JmpNeq || op == Opcode::JmpLt || op == Opcode::JmpLte ||
        op == Opcode::JmpLteFalse || op == Opcode::EqJmpTrue || op == Opcode::LtJmp ||
        op == Opcode::EqJmpFalse || op == Opcode::LoopIncJmp || op == Opcode::Try ||
        op == Opcode::IncJmpFalseLoop || op == Opcode::IncAccJmp || op == Opcode::TestJmpTrue ||
        op == Opcode::LteJmpLoop || op == Opcode::Yield || op == Opcode::Await ||
        op == Opcode::Throw || op == Opcode::Switch || op == Opcode::LoopHint {
    } else {
        available.clear();
        fill_regs(values, None);
        proof {
            assert(values@ =~= Seq::new(REG_COUNT as nat, |r: int| None::<RegisterValueKey>));
            assert(available@ =~= Seq::<(RegisterValueKey, u8)>::empty());
        }
    }
}

/// Turns a reload of an immediate or constant that a register already
/// holds into a copy of that register.
pub fn coalesce_registers_block(insts: &mut Vec<Instruction>, start: usize, end: usize) -> (r: bool)
    requires
        start <= end <= old(insts)@.len(),
    ensures
        same_outside(old(insts)@, final(insts)@, start as int, end as int),
        forall|i: int|
            start <= i < end ==> #[trigger] final(insts)@[i] == after_coalesce_pass(old(insts)@, start as int, i),
        forall|i: int|
            0 <= i < old(insts)@.len() ==> #[trigger] final(insts)@[i] == old(insts)@[i] || (!old(insts)@[i].removed && (old(insts)@[i].opcode == Opcode::LoadI || old(insts)@[i].opcode
                == Opcode::LoadK) && final(insts)@[i] == mov_of(old(insts)@[i].a, final(insts)@[i].b)),
        r == (final(insts)@ != old(insts)@),
{
    let mut changed = false;
    let mut available: Vec<(RegisterValueKey, u8)> = Vec::new();
    let mut values: Vec<Option<RegisterValueKey>> = fresh_regs(None);
    let mut index: usize = start;
    proof {
        assert((available@, values@) =~= coalesce_at(old(insts)@, start as int, start as int));
        assert(values@ =~= coalesce_at(old(insts)@, start as int, start as int).1);
    }
    while index < end
        invariant
            start <= index <= end <= insts@.len(),
            values@.len() == REG_COUNT,
            (available@, values@) == coalesce_at(old(insts)@, start as int, index as int),
            same_outside(old(insts)@, insts@, start as int, end as int),
            forall|i: int|
                start <= i < index ==> #[trigger] insts@[i] == after_coalesce_pass(old(insts)@, start as int, i),
            forall|i: int|
                0 <= i < old(insts)@.len() ==> #[trigger] insts@[i] == old(insts)@[i] || (!old(insts)@[i].removed && (old(insts)@[i].opcode == Opcode::LoadI || old(insts)@[i].opcode
                    == Opcode::LoadK) && insts@[i] == mov_of(old(insts)@[i].a, insts@[i].b)),
            forall|i: int| index <= i < end ==> #[trigger] insts@[i] == old(insts)@[i],
            changed == (insts@ != old(insts)@),
        decreases end - index,
    {
        let inst = insts[index];
        if inst.removed {
            index = index + 1;
            continue;
        }
        let op = inst.opcode;
        if op == Opcode::LoadI || op == Opcode::LoadK {
            let key = if op == Opcode::LoadI {
                RegisterValueKey::Immediate(inst.sbx)
            } else {
                RegisterValueKey::Constant(inst.bx)
            };
            if let Some(src) = avail_get(&available, key) {
                if src != inst.a {
                    insts.set(index, Instruction::new_mov(inst.a, src));
                    changed = true;
                    proof {
                        assert(insts@[index as int] != old(insts)@[index as int]);
                    }
                }
            }
        }
        coalesce_step(&mut available, &mut values, inst);
        index = index + 1;
    }
    changed
}

// ---------------------------------------------------------------------------
// Null and undefined tests on known values
// ---------------------------------------------------------------------------
/// What a constant is known to be.
pub open spec fn known_of(v: ValueView) -> KnownValueKind {
    if spec_is_undefined(v) {
        KnownValueKind::Undefined
    } else if v is Null {
        KnownValueKind::Null
    } else {
        KnownValueKind::NonNullish
    }
}

pub fn classify_known_value(value: Value) -> (r: KnownValueKind)
    ensures
        r == known_of(value@),
{
    if value.is_undefined() {
        KnownValueKind::Undefined
    } else if value.is_null() {
        KnownValueKind::Null
    } else {
        KnownValueKind::NonNullish
    }
}

/// The constant-pool slots a fold may point at: `Some(i)` names a slot
/// holding the matching boolean.
pub open spec fn bool_slot_ok(cs: Seq<Value>, slot: Option<u16>, value: bool) -> bool {
    slot matches Some(i) ==> (i as int) < cs.len() && cs[i as int] == bool_value(value)
}

/// `constants` extends `before` with booleans only.
pub open spec fn extends_with_bools(before: Seq<Value>, after: Seq<Value>) -> bool {
    &&& before.len() <= after.len()
    &&& forall|k: int| 0 <= k < before.len() ==> #[trigger] after[k] == before[k]
    &&& forall|k: int| before.len() <= k < after.len() ==> (#[trigger] after[k])@ is Bool
}

/// The position of the first entry of `cs` from `k` on that equals `v`, or
/// `cs.len()`.
pub open spec fn first_equal(cs: Seq<Value>, v: Value, k: int) -> int
    decreases cs.len() - k,
{
    if k < 0 || k >= cs.len() {
        cs.len() as int
    } else if cs[k] == v {
        k
    } else {
        first_equal(cs, v, k + 1)
    }
}

proof fn lemma_first_equal(cs: Seq<Value>, v: Value, k: int)
    requires
        0 <= k <= cs.len(),
    ensures
        k <= first_equal(cs, v, k) <= cs.len(),
        first_equal(cs, v, k) < cs.len() ==> cs[first_equal(cs, v, k)] == v,
        forall|j: int| k <= j < first_equal(cs, v, k) ==> cs[j] != v,
    decreases cs.len() - k,
{
    if k < cs.len() && cs[k] != v {
        lemma_first_equal(cs, v, k + 1);
    }
}

/// Every constant appended to `before` is a boolean constant that occurs
/// nowhere before it in `after`.
pub open spec fn fresh_bools(before: Seq<Value>, after: Seq<Value>) -> bool {
    &&& before.len() <= after.len()
    &&& forall|k: int|
        before.len() <= k < after.len() ==> #[trigger] after[k] == bool_value(true) || after[k] == bool_value(
            false,
        )
    &&& forall|j: int, k: int|
        0 <= j < k && before.len() <= k < after.len() ==> #[trigger] after[j] != #[trigger] after[k]
}

pub proof fn lemma_fresh_bools_trans(a: Seq<Value>, b: Seq<Value>, c: Seq<Value>)
    requires
        fresh_bools(a, b),
        fresh_bools(b, c),
        extends_with_bools(b, c),
    ensures
        fresh_bools(a, c),
{
    assert forall|j: int, k: int| 0 <= j < k && a.len() <= k < c.len() implies #[trigger] c[j] != #[trigger] c[k] by {
        if k < b.len() {
            assert(c[j] == b[j] && c[k] == b[k]);
        }
    }
}

/// At most the two boolean constants are appended.
pub proof fn lemma_fresh_bools_len(a: Seq<Value>, b: Seq<Value>)
    requires
        fresh_bools(a, b),
    ensures
        b.len() <= a.len() + 2,
{
    if b.len() > a.len() + 2 {
        let k = a.len() as int;
        lemma_bool_value_view(true);
        lemma_bool_value_view(false);
        assert(bool_value(true) != bool_value(false));
        assert(b[k] != b[k + 1]);
        assert(b[k] != b[k + 2]);
        assert(b[k + 1] != b[k + 2]);
        assert(b[k] == bool_value(true) || b[k] == bool_value(false));
        assert(b[k + 1] == bool_value(true) || b[k + 1] == bool_value(false));
        assert(b[k + 2] == bool_value(true) || b[k + 2] == bool_value(false));
    }
}

/// The slot `bool_constant_index` gives for `value`: the remembered one,
/// else the first slot holding the boolean if its index fits 16 bits, else
/// a new slot at the end if that index fits; `None` otherwise.
pub open spec fn bool_slot_for(cs: Seq<Value>, remembered: Option<u16>, value: bool) -> Option<u16> {
    match remembered {
        Some(i) => Some(i),
        None => {
            let f = first_equal(cs, bool_value(value), 0);
            if f < cs.len() && f <= 65535 {
                Some(f as u16)
            } else if cs.len() <= 65535 {
                Some(cs.len() as u16)
            } else {
                None
            }
        },
    }
}

/// The index of a constant holding `value`: the remembered slot, else the
/// first equal constant, else a new one appended; `None` when a new one
/// would not have a 16-bit index. The slot found or made is remembered.
pub fn bool_constant_index(
    constants: &mut Vec<Value>,
    value: bool,
    true_index: &mut Option<u16>,
    false_index: &mut Option<u16>,
) -> (r: Option<u16>)
    requires
        bool_slot_ok(old(constants)@, *old(true_index), true),
        bool_slot_ok(old(constants)@, *old(false_index), false),
    ensures
        extends_with_bools(old(constants)@, final(constants)@),
        fresh_bools(old(constants)@, final(constants)@),
        bool_slot_ok(final(constants)@, *final(true_index), true),
        bool_slot_ok(final(constants)@, *final(false_index), false),
        r == bool_slot_for(old(constants)@, if value { *old(true_index) } else { *old(false_index) }, value),
        r matches Some(i) ==> (i as int) < final(constants)@.len() && final(constants)@[i as int]
            == bool_value(value),
        final(constants)@ == if r == Some(old(constants)@.len() as u16) && old(constants)@.len() <= 65535 && (
        if value { *old(true_index) } else { *old(false_index) }) is None && first_equal(
            old(constants)@,
            bool_value(value),
            0,
        ) >= old(constants)@.len() {
            old(constants)@.push(bool_value(value))
        } else {
            old(constants)@
        },
        value ==> *final(true_index) == (if r is Some { r } else { *old(true_index) }) && *final(false_index) == *old(false_index),
        !value ==> *final(false_index) == (if r is Some { r } else { *old(false_index) }) && *final(true_index) == *old(true_index),
{
    let remembered = if value {
        *true_index
    } else {
        *false_index
    };
    if let Some(i) = remembered {
        return Some(i);
    }
    let needle = Value::bool(value);
    proof {
        lemma_first_equal(constants@, needle, 0);
    }
    let mut k: usize = 0;
    while k < constants.len() && constants[k].0 != needle.0
        invariant
            k <= constants@.len(),
            needle == bool_value(value),
            constants@ == old(constants)@,
            first_equal(constants@, needle, 0) == first_equal(constants@, needle, k as int),
        decreases constants@.len() - k,
    {
        proof {
            assert(constants@[k as int] != needle);
        }
        k = k + 1;
    }
    proof {
        if k < constants@.len() {
            assert(constants@[k as int] == needle);
        }
        assert(first_equal(constants@, needle, k as int) == k);
    }
    if k < constants.len() && k <= 65535 {
        let index = k as u16;
        assert(index as int == k);
        if value {
            *true_index = Some(index);
        } else {
            *false_index = Some(index);
        }
        return Some(index);
    }
    if constants.len() > 65535 {
        return None;
    }
    proof {
        lemma_first_equal(constants@, needle, 0);
    }
    let index = constants.len() as u16;
    constants.push(needle);
    if value {
        *true_index = Some(index);
    } else {
        *false_index = Some(index);
    }
    Some(index)
}

/// The constant load `LoadK dst, index`.
pub open spec fn load_k_of(dst: u8, index: u16) -> Instruction {
    Instruction {
        opcode: Opcode::LoadK,
        a: dst,
        b: 0,
        c: 0,
        bx: index,
        sbx: index as i16,
        target: None,
        removed: false,
    }
}

/// How the nullish-check folding treats an operation, by group: immediate
/// loads, constant loads, copies, moves to the accumulator, loads of
/// non-nullish constants into the accumulator, `LoadNull`, the tests
/// themselves, writes of register `a`, writes of `a` and the accumulator,
/// writes of the accumulator, operations that write nothing, and the rest.
pub open spec fn check_class(op: Opcode) -> int {
    if op == Opcode::LoadI {
        1
    } else if op == Opcode::LoadK {
        2
    } else if op == Opcode::Mov {
        3
    } else if op == Opcode::LoadAcc {
        4
    } else if op == Opcode::LoadThis || op == Opcode::Load0 || op == Opcode::Load1 || op
        == Opcode::LoadTrue || op == Opcode::LoadFalse {
        5
    } else if op == Opcode::LoadNull {
        6
    } else if op == Opcode::IsUndef || op == Opcode::IsNull {
        7
    } else if op == Opcode::Typeof || op == Opcode::ToNum || op == Opcode::ToStr ||
        op == Opcode::IsUndef || op == Opcode::IsNull || op == Opcode::LoadArg ||
        op == Opcode::GetScope || op == Opcode::SetScope || op == Opcode::LoadGlobalIc ||
        op == Opcode::GetGlobal || op == Opcode::GetUpval || op == Opcode::NewObj ||
        op == Opcode::NewArr || op == Opcode::NewFunc || op == Opcode::NewClass ||
        op == Opcode::NewThis || op == Opcode::LoadClosure || op == Opcode::ResolveScope ||
        op == Opcode::InitName || op == Opcode::TypeofName || op == Opcode::CreateEnv ||
        op == Opcode::Keys || op == Opcode::ForIn || op == Opcode::IteratorNext {
        8
    } else if op == Opcode::LoadName || op == Opcode::GetProp || op == Opcode::SetProp ||
        op == Opcode::GetSuper || op == Opcode::SetSuper || op == Opcode::DeleteProp ||
        op == Opcode::HasProp || op == Opcode::GetPropIc || op == Opcode::SetPropIc ||
        op == Opcode::GetIdxFast || op == Opcode::SetIdxFast || op == Opcode::GetIdxIc ||
        op == Opcode::SetIdxIc || op == Opcode::GetLengthIc {
        9
    } else if op == Opcode::Add || op == Opcode::Eq || op == Opcode::Lt || op == Opcode::Lte ||
        op == Opcode::StrictEq || op == Opcode::StrictNeq || op == Opcode::BitAnd ||
        op == Opcode::BitOr || op == Opcode::BitXor || op == Opcode::Shl || op == Opcode::Shr ||
        op == Opcode::Ushr || op == Opcode::Pow || op == Opcode::LogicalAnd ||
        op == Opcode::LogicalOr || op == Opcode::NullishCoalesce || op == Opcode::In ||
        op == Opcode::Instanceof || op == Opcode::AddStr || op == Opcode::AddAcc ||
        op == Opcode::SubAcc || op == Opcode::MulAcc || op == Opcode::DivAcc ||
        op == Opcode::AddStrAcc || op == Opcode::AddAccImm8 || op == Opcode::SubAccImm8 ||
        op == Opcode::MulAccImm8 || op == Opcode::DivAccImm8 || op == Opcode::IncAcc ||
        op == Opcode::Neg || op == Opcode::Inc || op == Opcode::Dec || op == Opcode::ToPrimitive ||
        op == Opcode::BitNot {
        10
    } else if op == Opcode::Ret || op == Opcode::RetU || op == Opcode::RetReg || op == Opcode::Jmp ||
        op == Opcode::JmpTrue || op == Opcode::JmpFalse || op == Opcode::JmpEq ||
        op == Opcode::JmpNeq || op == Opcode::JmpLt || op == Opcode::JmpLte ||
        op == Opcode::JmpLteFalse || op == Opcode::EqJmpTrue || op == Opcode::LtJmp ||
        op == Opcode::EqJmpFalse || op == Opcode::LoopIncJmp || op == Opcode::Try ||
        op == Opcode::IncJmpFalseLoop || op == Opcode::IncAccJmp || op == Opcode::TestJmpTrue ||
        op == Opcode::LteJmpLoop || op == Opcode::Yield || op == Opcode::Await ||
        op == Opcode::Throw || op == Opcode::Switch || op == Opcode::LoopHint {
        11
    } else {
        12
    }
}

/// Nothing is known of any register.
pub open spec fn all_unknown() -> Seq<KnownValueKind> {
    Seq::new(REG_COUNT as nat, |r: int| KnownValueKind::Unknown)
}

/// What is known after the kept instruction `x`, constants read from `cs`.
#[verifier::opaque]
pub open spec fn known_after(k: Seq<KnownValueKind>, cs: Seq<Value>, x: Instruction) -> Seq<
    KnownValueKind,
> {
    let c = check_class(x.opcode);
    if c == 1 || c == 7 {
        k.update(x.a as int, KnownValueKind::NonNullish)
    } else if c == 2 {
        k.update(
            x.a as int,
            if (x.bx as int) < cs.len() {
                known_of(cs[x.bx as int]@)
            } else {
                KnownValueKind::Unknown
            },
        )
    } else if c == 3 {
        k.update(x.a as int, k[x.b as int])
    } else if c == 4 {
        k.update(ACC as int, k[x.a as int])
    } else if c == 5 {
        k.update(ACC as int, KnownValueKind::NonNullish)
    } else if c == 6 {
        k.update(ACC as int, KnownValueKind::Null)
    } else if c == 8 {
        k.update(x.a as int, KnownValueKind::Unknown)
    } else if c == 9 {
        k.update(x.a as int, KnownValueKind::Unknown).update(ACC as int, KnownValueKind::Unknown)
    } else if c == 10 {
        k.update(ACC as int, KnownValueKind::Unknown)
    } else if c == 11 {
        k
    } else {
        all_unknown()
    }
}

/// What is known before position `i` of the block starting at `start`.
pub open spec fn known_at(s: Seq<Instruction>, cs: Seq<Value>, start: int, i: int) -> Seq<
    KnownValueKind,
>
    decreases i - start,
{
    if i <= start {
        all_unknown()
    } else if s[i - 1].removed {
        known_at(s, cs, start, i - 1)
    } else {
        known_after(known_at(s, cs, start, i - 1), cs, s[i - 1])
    }
}

/// The answer of a test for undefined (or null) of a value known as `k`.
pub open spec fn check_answer(op: Opcode, k: KnownValueKind) -> Option<bool> {
    if op == Opcode::IsUndef {
        match k {
            KnownValueKind::Undefined => Some(true),
            KnownValueKind::Unknown => None,
            _ => Some(false),
        }
    } else {
        match k {
            KnownValueKind::Null => Some(true),
            KnownValueKind::Unknown => None,
            _ => Some(false),
        }
    }
}

/// Every kept constant load in `start..i` names a slot of a pool of
/// length `n`.
pub open spec fn loads_in_pool(s: Seq<Instruction>, n: int, start: int, i: int) -> bool {
    forall|j: int|
        start <= j < i && !s[j].removed && (#[trigger] s[j]).opcode == Opcode::LoadK ==> (s[j].bx as int)
            < n
}

/// Position `i` after the folding: a kept test whose operand is known
/// becomes a load of a pool slot holding the answer; everything else
/// stays.
pub open spec fn check_folded_at(
    before: Seq<Instruction>,
    after: Seq<Instruction>,
    pool0: Seq<Value>,
    pool: Seq<Value>,
    start: int,
    i: int,
) -> bool {
    let x = before[i];
    let answer = check_answer(x.opcode, known_at(before, pool0, start, i)[x.b as int]);
    if !x.removed && check_class(x.opcode) == 7 && answer is Some {
        &&& after[i] == load_k_of(x.a, after[i].bx)
        &&& (after[i].bx as int) < pool.len()
        &&& pool[after[i].bx as int] == bool_value(answer->0)
    } else {
        after[i] == x
    }
}

/// With every constant load in the pool `cs1`, a pool `cs2` that extends
/// it gives the same knowledge.
pub proof fn lemma_known_at_pool(
    s: Seq<Instruction>,
    cs1: Seq<Value>,
    cs2: Seq<Value>,
    start: int,
    i: int,
)
    requires
        loads_in_pool(s, cs1.len() as int, start, i),
        cs1.len() <= cs2.len(),
        forall|k: int| 0 <= k < cs1.len() ==> #[trigger] cs2[k] == cs1[k],
    ensures
        known_at(s, cs1, start, i) == known_at(s, cs2, start, i),
    decreases i - start,
{
    if i > start {
        assert(loads_in_pool(s, cs1.len() as int, start, i - 1));
        lemma_known_at_pool(s, cs1, cs2, start, i - 1);
        reveal(known_after);
        if !s[i - 1].removed && s[i - 1].opcode == Opcode::LoadK {
            assert(cs2[s[i - 1].bx as int] == cs1[s[i - 1].bx as int]);
        }
    }
}

/// Knowledge at `i` depends only on the instructions from `start` to `i`.
pub proof fn lemma_known_at_frame(s1: Seq<Instruction>, s2: Seq<Instruction>, cs: Seq<Value>, start: int, i: int)
    requires
        forall|k: int| start <= k < i ==> #[trigger] s1[k] == s2[k],
    ensures
        known_at(s1, cs, start, i) == known_at(s2, cs, start, i),
    decreases i - start,
{
    if i > start {
        lemma_known_at_frame(s1, s2, cs, start, i - 1);
    }
}

/// The result at `i` stays what it is when the pool and the program only
/// change elsewhere and the pool only grows.
pub proof fn lemma_check_folded_frame(
    before: Seq<Instruction>,
    a1: Seq<Instruction>,
    a2: Seq<Instruction>,
    pool0: Seq<Value>,
    p1: Seq<Value>,
    p2: Seq<Value>,
    start: int,
    i: int,
)
    requires
        check_folded_at(before, a1, pool0, p1, start, i),
        a2[i] == a1[i],
        p1.len() <= p2.len(),
        forall|k: int| 0 <= k < p1.len() ==> #[trigger] p2[k] == p1[k],
    ensures
        check_folded_at(before, a2, pool0, p2, start, i),
{
    let x = before[i];
    let answer = check_answer(x.opcode, known_at(before, pool0, start, i)[x.b as int]);
    if !x.removed && check_class(x.opcode) == 7 && answer is Some {
        assert(p2[a1[i].bx as int] == p1[a1[i].bx as int]);
    }
}

/// The test has an answer, and no slot of `pool` with a 16-bit index holds
/// it.
pub open spec fn no_slot_for(pool: Seq<Value>, answer: Option<bool>) -> bool {
    &&& answer is Some
    &&& forall|k: int| 0 <= k <= 65535 && k < pool.len() ==> pool[k] != bool_value(answer->0)
}

/// Updates what is known for the kept instruction `inst`.
#[verifier::rlimit(40)]
fn known_step(known: &mut Vec<KnownValueKind>, constants: &Vec<Value>, inst: Instruction)
    requires
        old(known)@.len() == REG_COUNT,
    ensures
        final(known)@ == known_after(old(known)@, constants@, inst),
        final(known)@.len() == REG_COUNT,
{
    proof {
        reveal(known_after);
    }
    let ghost k0 = known@;
    let op = inst.opcode;
    if op == Opcode::LoadI {
        known.set(inst.a as usize, KnownValueKind::NonNullish);
    } else if op == Opcode::LoadK {
        let k = if (inst.bx as usize) < constants.len() {
            classify_known_value(constants[inst.bx as usize])
        } else {
            KnownValueKind::Unknown
        };
        known.set(inst.a as usize, k);
    } else if op == Opcode::Mov {
        let k = known[inst.b as usize];
        known.set(inst.a as usize, k);
    } else if op == Opcode::LoadAcc {
        let k = known[inst.a as usize];
        known.set(ACC as usize, k);
    } else if op == Opcode::LoadThis || op == Opcode::Load0 || op == Opcode::Load1 || op
        == Opcode::LoadTrue || op == Opcode::LoadFalse {
        known.set(ACC as usize, KnownValueKind::NonNullish);
    } else if op == Opcode::LoadNull {
        known.set(ACC as usize, KnownValueKind::Null);
    } else if op == Opcode::IsUndef || op == Opcode::IsNull {
        known.set(inst.a as usize, KnownValueKind::NonNullish);
    } else if op == Opcode::Typeof || op == Opcode::ToNum || op == Opcode::ToStr || op == Opcode::IsUndef ||
    op == Opcode::IsNull || op == Opcode::LoadArg || op == Opcode::GetScope ||
    op == Opcode::SetScope || op == Opcode::LoadGlobalIc || op == Opcode::GetGlobal ||
    op == Opcode::GetUpval || op == Opcode::NewObj || op == Opcode::NewArr ||
    op == Opcode::NewFunc || op == Opcode::NewClass || op == Opcode::NewThis ||
    op == Opcode::LoadClosure || op == Opcode::ResolveScope || op == Opcode::InitName ||
    op == Opcode::TypeofName || op == Opcode::CreateEnv || op == Opcode::Keys ||
    op == Opcode::ForIn || op == Opcode::IteratorNext {
        known.set(inst.a as usize, KnownValueKind::Unknown);
    } else if op == Opcode::LoadName || op == Opcode::GetProp || op == Opcode::SetProp ||
    op == Opcode::GetSuper || op == Opcode::SetSuper || op == Opcode::DeleteProp ||
    op == Opcode::HasProp || op == Opcode::GetPropIc || op == Opcode::SetPropIc ||
    op == Opcode::GetIdxFast || op == Opcode::SetIdxFast || op == Opcode::GetIdxIc ||
    op == Opcode::SetIdxIc || op == Opcode::GetLengthIc {
        known.set(inst.a as usize, KnownValueKind::Unknown);
        known.set(ACC as usize, KnownValueKind::Unknown);
    } else if op == Opcode::Add || op == Opcode::Eq || op == Opcode::Lt || op == Opcode::Lte ||
    op == Opcode::StrictEq || op == Opcode::StrictNeq || op == Opcode::BitAnd ||
    op == Opcode::BitOr || op == Opcode::BitXor || op == Opcode::Shl || op == Opcode::Shr ||
    op == Opcode::Ushr || op == Opcode::Pow || op == Opcode::LogicalAnd ||
    op == Opcode::LogicalOr || op == Opcode::NullishCoalesce || op == Opcode::In ||
    op == Opcode::Instanceof || op == Opcode::AddStr || op == Opcode::AddAcc ||
    op == Opcode::SubAcc || op == Opcode::MulAcc || op == Opcode::DivAcc ||
    op == Opcode::AddStrAcc || op == Opcode::AddAccImm8 || op == Opcode::SubAccImm8 ||
    op == Opcode::MulAccImm8 || op == Opcode::DivAccImm8 || op == Opcode::IncAcc ||
    op == Opcode::Neg || op == Opcode::Inc || op == Opcode::Dec || op == Opcode::ToPrimitive ||
    op == Opcode::BitNot {
        known.set(ACC as usize, KnownValueKind::Unknown);
    } else if op == Opcode::Ret || op == Opcode::RetU || op == Opcode::RetReg || op == Opcode::Jmp ||
    op == Opcode::JmpTrue || op == Opcode::JmpFalse || op == Opcode::JmpEq ||
    op == Opcode::JmpNeq || op == Opcode::JmpLt || op == Opcode::JmpLte ||
    op == Opcode::JmpLteFalse || op == Opcode::EqJmpTrue || op == Opcode::LtJmp ||
    op == Opcode::EqJmpFalse || op == Opcode::LoopIncJmp || op == Opcode::Try ||
    op == Opcode::IncJmpFalseLoop || op == Opcode::IncAccJmp || op == Opcode::TestJmpTrue ||
    op == Opcode::LteJmpLoop || op == Opcode::Yield || op == Opcode::Await ||
    op == Opcode::Throw || op == Opcode::Switch || op == Opcode::LoopHint {
    } else {
        fill_regs(known, KnownValueKind::Unknown);
        proof {
            assert(known@ =~= all_unknown());
        }
    }
}

/// Replaces a test for undefined or null of a register whose value is
/// known within the block by a load of the boolean answer. `None` when a
/// new boolean constant would not have a 16-bit index. When every constant
/// load of the block names a slot of the pool, the result is exactly
/// `check_folded_at` at each position.
pub fn fold_temporary_checks_block(
    insts: &mut Vec<Instruction>,
    constants: &mut Vec<Value>,
    start: usize,
    end: usize,
) -> (r: Option<bool>)
    requires
        start <= end <= old(insts)@.len(),
    ensures
        same_outside(old(insts)@, final(insts)@, start as int, end as int),
        extends_with_bools(old(constants)@, final(constants)@),
        fresh_bools(old(constants)@, final(constants)@),
        forall|i: int|
            0 <= i < old(insts)@.len() ==> #[trigger] final(insts)@[i] == old(insts)@[i] || (!old(insts)@[i].removed && (old(insts)@[i].opcode == Opcode::IsUndef || old(insts)@[i].opcode
                == Opcode::IsNull) && final(insts)@[i] == load_k_of(old(insts)@[i].a, final(insts)@[i].bx)
                && (final(insts)@[i].bx as int) < final(constants)@.len() && final(constants)@[final(insts)@[i].bx as int]@ is Bool),
        r is Some && loads_in_pool(old(insts)@, old(constants)@.len() as int, start as int, end as int)
            ==> forall|i: int|
            start <= i < end ==> #[trigger] check_folded_at(
                old(insts)@,
                final(insts)@,
                old(constants)@,
                final(constants)@,
                start as int,
                i,
            ),
        r == Some(false) ==> final(insts)@ == old(insts)@ && final(constants)@ == old(constants)@,
        r == Some(true) ==> final(insts)@ != old(insts)@,
        final(constants)@.len() <= old(constants)@.len() + 2,
        r is None ==> final(constants)@.len() > 65535 && exists|i: int|
            start <= i < end && !old(insts)@[i].removed && check_class(old(insts)@[i].opcode) == 7
                && #[trigger] final(insts)@[i] == old(insts)@[i] && (loads_in_pool(
                old(insts)@,
                old(constants)@.len() as int,
                start as int,
                i,
            ) ==> no_slot_for(
                final(constants)@,
                check_answer(
                    old(insts)@[i].opcode,
                    known_at(old(insts)@, old(constants)@, start as int, i)[old(insts)@[i].b as int],
                ),
            )),
{
    let mut changed = false;
    let mut known: Vec<KnownValueKind> = fresh_regs(KnownValueKind::Unknown);
    let mut true_index: Option<u16> = None;
    let mut false_index: Option<u16> = None;
    let mut index: usize = start;
    let ghost cs0 = constants@;
    proof {
        assert(known@ =~= known_at(old(insts)@, cs0, start as int, start as int));
    }
    while index < end
        invariant
            start <= index <= end <= insts@.len(),
            known@.len() == REG_COUNT,
            cs0 == old(constants)@,
            same_outside(old(insts)@, insts@, start as int, end as int),
            extends_with_bools(old(constants)@, constants@),
            fresh_bools(old(constants)@, constants@),
            bool_slot_ok(constants@, true_index, true),
            bool_slot_ok(constants@, false_index, false),
            forall|i: int|
                0 <= i < old(insts)@.len() ==> #[trigger] insts@[i] == old(insts)@[i] || (!old(insts)@[i].removed && (old(insts)@[i].opcode == Opcode::IsUndef || old(insts)@[i].opcode
                    == Opcode::IsNull) && insts@[i] == load_k_of(old(insts)@[i].a, insts@[i].bx) && (
                insts@[i].bx as int) < constants@.len() && constants@[insts@[i].bx as int]@ is Bool),
            forall|i: int| index <= i < end ==> #[trigger] insts@[i] == old(insts)@[i],
            loads_in_pool(old(insts)@, cs0.len() as int, start as int, index as int) ==> {
                &&& known@ == known_at(old(insts)@, cs0, start as int, index as int)
                &&& forall|i: int|
                    start <= i < index ==> #[trigger] check_folded_at(
                        old(insts)@,
                        insts@,
                        cs0,
                        constants@,
                        start as int,
                        i,
                    )
            },
            !changed ==> insts@ == old(insts)@ && constants@ == old(constants)@,
            changed ==> insts@ != old(insts)@,
            constants@.len() <= cs0.len() + (if true_index is Some { 1int } else { 0int }) + (if false_index is Some {
                1int
            } else {
                0int
            }),
        decreases end - index,
    {
        let inst = insts[index];
        let ghost valid = loads_in_pool(old(insts)@, cs0.len() as int, start as int, index + 1);
        let ghost ins0 = insts@;
        let ghost cs_before = constants@;
        if inst.removed {
            proof {
                assert(loads_in_pool(old(insts)@, cs0.len() as int, start as int, index + 1) ==> loads_in_pool(old(insts)@, cs0.len() as int, start as int, index as int));
            }
            index = index + 1;
            continue;
        }
        let op = inst.opcode;
        if op == Opcode::IsUndef || op == Opcode::IsNull {
            let k = known[inst.b as usize];
            let replacement: Option<bool> = if op == Opcode::IsUndef {
                match k {
                    KnownValueKind::Undefined => Some(true),
                    KnownValueKind::Null | KnownValueKind::NonNullish => Some(false),
                    KnownValueKind::Unknown => None,
                }
            } else {
                match k {
                    KnownValueKind::Null => Some(true),
                    KnownValueKind::Undefined | KnownValueKind::NonNullish => Some(false),
                    KnownValueKind::Unknown => None,
                }
            };
            assert(replacement == check_answer(op, k));
            if let Some(value) = replacement {
                let ghost before = constants@;
                let found = bool_constant_index(constants, value, &mut true_index, &mut false_index);
                proof {
                    lemma_fresh_bools_trans(old(constants)@, before, constants@);
                }
                match found {
                    Some(ci) => {
                        proof {
                            crate::value::lemma_bool_value_view(value);
                        }
                        insts.set(index, Instruction::new_load_k(inst.a, ci));
                        changed = true;
                        proof {
                            assert(insts@[index as int] != old(insts)@[index as int]);
                            assert forall|i: int|
                                0 <= i < old(insts)@.len() && i != index && insts@[i] != old(insts)@[i]
                                    implies (insts@[i].bx as int) < constants@.len() && constants@[insts@[i].bx as int]@ is Bool by {
                                assert(constants@[insts@[i].bx as int] == before[insts@[i].bx as int]);
                            }
                        }
                    },
                    None => {
                        proof {
                            lemma_first_equal(constants@, bool_value(value), 0);
                            assert(insts@[index as int] == old(insts)@[index as int]);
                            if loads_in_pool(old(insts)@, cs0.len() as int, start as int, index as int) {
                                assert(check_answer(op, known_at(old(insts)@, cs0, start as int, index as int)[inst.b as int]) == Some(value));
                            }
                            assert(start <= index < end && !old(insts)@[index as int].removed);
                        }
                        return None;
                    },
                }
            }
        }
        let ghost k0 = known@;
        known_step(&mut known, constants, inst);
        proof {
            if valid {
                assert(loads_in_pool(old(insts)@, cs0.len() as int, start as int, index as int));
                reveal(known_after);
                if op == Opcode::LoadK {
                    assert((inst.bx as int) < cs0.len());
                    assert(constants@[inst.bx as int] == cs0[inst.bx as int]);
                }
                assert(known_after(k0, constants@, inst) == known_after(k0, cs0, inst));
                assert forall|i: int| start <= i < index + 1 implies #[trigger] check_folded_at(
                    old(insts)@,
                    insts@,
                    cs0,
                    constants@,
                    start as int,
                    i,
                ) by {
                    if i < index {
                        assert(check_folded_at(old(insts)@, ins0, cs0, cs_before, start as int, i));
                        let x = old(insts)@[i];
                        let answer = check_answer(x.opcode, known_at(old(insts)@, cs0, start as int, i)[x.b as int]);
                        if !x.removed && check_class(x.opcode) == 7 && answer is Some {
                            assert(constants@[insts@[i].bx as int] == cs_before[insts@[i].bx as int]);
                        }
                    }
                }
            }
        }
        index = index + 1;
    }
    Some(changed)
}

} // verus!
