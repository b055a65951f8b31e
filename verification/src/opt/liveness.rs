//! Register liveness over the control-flow graph and register reuse by a
//! linear scan over live intervals.
use vstd::prelude::*;

use crate::opcode::Opcode;
use crate::opt::inst::{
    boundary_of, decode_program, decoded_program, encode_program, encoded, jumps_in_range, law_in_range_encodable,
    live_before, program_fits, switch_targets, switch_targets_of, Instruction, ACC, REG_COUNT,
};
use crate::opt::dataflow::{below_every_fixpoint, is_fixpoint, rows_ok, solve_liveness, successors_ok};
use crate::opt::{encodable, encodes, tables_relocated};
use crate::value::Value;

verus! {

/// What an instruction reads, writes, where control goes next, and which
/// registers must keep their number.
#[derive(Debug)]
pub struct InstructionSemantics {
    pub uses: Vec<u8>,
    pub defs: Vec<u8>,
    pub successors: Vec<usize>,
    pub pinned: Vec<u8>,
}

/// The positions over which a register is live.
#[derive(Clone, Copy, PartialEq, Eq, Structural, Debug)]
pub struct LiveInterval {
    pub reg: u8,
    pub start: usize,
    pub end: usize,
}

/// Live intervals and pinned registers, indexed by register.
#[derive(Debug)]
pub struct LivenessAnalysis {
    pub intervals: Vec<Option<LiveInterval>>,
    pub pinned: Vec<bool>,
}

/// Adds `reg` unless it is there.
pub fn push_unique_reg(regs: &mut Vec<u8>, reg: u8)
    ensures
        final(regs)@ == if old(regs)@.contains(reg) {
            old(regs)@
        } else {
            old(regs)@.push(reg)
        },        forall|x: u8| #[trigger] final(regs)@.contains(x) <==> (old(regs)@.contains(x) || x == reg),
{
    let mut i: usize = 0;
    while i < regs.len()
        invariant
            i <= regs@.len(),
            regs@ == old(regs)@,
            forall|k: int| 0 <= k < i ==> regs@[k] != reg,
        decreases regs@.len() - i,
    {
        if regs[i] == reg {
            return;
        }
        i = i + 1;
    }
    regs.push(reg);
    proof {
        assert forall|x: u8| #[trigger] regs@.contains(x) <==> (old(regs)@.contains(x) || x == reg) by {
            if x == reg {
                assert(regs@[regs@.len() - 1] == reg);
            }
            if old(regs)@.contains(x) {
                let w = choose|w: int| 0 <= w < old(regs)@.len() && old(regs)@[w] == x;
                assert(regs@[w] == x);
            }
            if regs@.contains(x) {
                let w = choose|w: int| 0 <= w < regs@.len() && regs@[w] == x;
                if w < old(regs)@.len() {
                    assert(old(regs)@[w] == x);
                }
            }
        }
    }
}

/// Adds the call registers `base..=base + arg_count`; false, adding nothing
/// of them, when the last would reach the accumulator.
pub fn push_call_bundle(regs: &mut Vec<u8>, base: u8, arg_count: u8) -> (r: bool)
    ensures
        r == (base + arg_count < ACC),
        !r ==> final(regs)@ == old(regs)@,
        r ==> forall|k: u8| base <= k <= base + arg_count ==> #[trigger] final(regs)@.contains(k),
        forall|x: u8| old(regs)@.contains(x) ==> #[trigger] final(regs)@.contains(x),
        forall|x: u8| #[trigger] final(regs)@.contains(x) ==> old(regs)@.contains(x) || (r && base <= x <= base
            + arg_count),
{
    let last: usize = base as usize + arg_count as usize;
    if last >= ACC as usize {
        return false;
    }
    let mut k: usize = base as usize;
    while k <= last
        invariant
            base <= k <= last + 1,
            last == base + arg_count,
            last < ACC,
            forall|j: u8| base <= j < k ==> #[trigger] regs@.contains(j),
            forall|x: u8| old(regs)@.contains(x) ==> #[trigger] regs@.contains(x),
            forall|x: u8| #[trigger] regs@.contains(x) ==> old(regs)@.contains(x) || (base <= x < k),
        decreases last + 1 - k,
    {
        let ghost before = regs@;
        let reg = k as u8;
        push_unique_reg(regs, reg);
        proof {
            if !before.contains(reg) {
                assert(regs@[before.len() as int] == reg);
            }
            assert forall|x: u8| before.contains(x) implies #[trigger] regs@.contains(x) by {
                if !before.contains(reg) {
                    let w = choose|w: int| 0 <= w < before.len() && before[w] == x;
                    assert(regs@[w] == x);
                }
            }
        }
        k = k + 1;
    }
    true
}

/// The next position, when there is one.
pub fn normal_successors(pc: usize, len: usize) -> (r: Vec<usize>)
    ensures
        r@ == if pc + 1 < len {
            seq![(pc + 1) as usize]
        } else {
            Seq::<usize>::empty()
        },
{
    let mut v: Vec<usize> = Vec::new();
    if pc < len && len - pc > 1 {
        v.push(pc + 1);
    }
    v
}

/// The target, when it lies inside the program.
pub fn target_successors(target: Option<usize>, len: usize) -> (r: Vec<usize>)
    ensures
        r@ == match target {
            Some(t) => if t < len {
                seq![t]
            } else {
                Seq::<usize>::empty()
            },
            None => Seq::<usize>::empty(),
        },
{
    let mut v: Vec<usize> = Vec::new();
    if let Some(t) = target {
        if t < len {
            v.push(t);
        }
    }
    v
}

/// The target inside the program, then the next position unless it is the
/// target.
pub open spec fn target_part(target: Option<usize>, len: usize) -> Seq<usize> {
    match target {
        Some(t) => if t < len {
            seq![t]
        } else {
            Seq::<usize>::empty()
        },
        None => Seq::<usize>::empty(),
    }
}

/// The next position, when there is one.
pub open spec fn next_part(pc: usize, len: usize) -> Seq<usize> {
    if pc + 1 < len {
        seq![(pc + 1) as usize]
    } else {
        Seq::<usize>::empty()
    }
}

/// The successors of a conditional branch: the target inside the program,
/// then the next position unless it is the target.
pub open spec fn conditional_part(pc: usize, target: Option<usize>, len: usize) -> Seq<usize> {
    target_part(target, len) + (if pc + 1 < len && target != Some((pc + 1) as usize) {
        seq![(pc + 1) as usize]
    } else {
        Seq::<usize>::empty()
    })
}

/// Where control may go after instruction `inst` at `pc`: nowhere after a
/// return, the target after an unconditional jump, target and next position
/// after a conditional branch, the switch targets (or the next position when
/// it has none) after a switch, and the next position otherwise.
pub open spec fn successors_of(inst: Instruction, pc: usize, len: usize, constants: Seq<Value>) -> Seq<usize> {
    match inst.opcode {
        Opcode::Jmp => target_part(inst.target, len),
        Opcode::JmpTrue | Opcode::JmpFalse | Opcode::TestJmpTrue | Opcode::JmpEq | Opcode::JmpNeq
        | Opcode::JmpLt | Opcode::JmpLte | Opcode::JmpLteFalse | Opcode::JmpI32Fast
        | Opcode::EqJmpTrue | Opcode::LtJmp | Opcode::EqJmpFalse | Opcode::LteJmpLoop
        | Opcode::LoopIncJmp | Opcode::IncJmpFalseLoop => conditional_part(pc, inst.target, len),
        Opcode::Switch => if switch_targets_of(pc, inst.b as int, constants).len() > 0 {
            switch_targets_of(pc, inst.b as int, constants)
        } else {
            next_part(pc, len)
        },
        Opcode::Ret | Opcode::RetReg | Opcode::RetU | Opcode::CallRet => Seq::<usize>::empty(),
        _ => next_part(pc, len),
    }
}

pub fn conditional_successors(pc: usize, target: Option<usize>, len: usize) -> (r: Vec<usize>)
    ensures
        r@ == conditional_part(pc, target, len),
        forall|k: int| 0 <= k < r@.len() ==> #[trigger] r@[k] < len,
{
    let mut successors = target_successors(target, len);
    if pc < len && len - pc > 1 {
        let nxt: usize = pc + 1;
        let mut present = false;
        let mut i: usize = 0;
        let ghost first = successors@;
        while i < successors.len()
            invariant
                i <= successors@.len(),
                successors@ == first,
                present == (exists|j: int| 0 <= j < i && #[trigger] successors@[j] == nxt),
            decreases successors@.len() - i,
        {
            if successors[i] == nxt {
                present = true;
            }
            i = i + 1;
        }
        proof {
            assert(present == (target == Some(nxt))) by {
                if present {
                    let j = choose|j: int| 0 <= j < successors@.len() && #[trigger] successors@[j] == nxt;
                }
                if target == Some(nxt) {
                    assert(successors@[0] == nxt);
                }
            }
        }
        if !present {
            successors.push(nxt);
        }
    }
    proof {
        if !(pc < len && len - pc > 1) {
            assert(successors@ =~= successors@ + Seq::<usize>::empty());
        }
    }
    successors
}

/// The instruction can be analysed: it is not one of the operations without
/// a register description, and the argument registers of a call stay
/// below the accumulator.
pub open spec fn analysable(x: Instruction) -> bool {
    match x.opcode {
        Opcode::Call | Opcode::TailCall | Opcode::Construct | Opcode::CallIc | Opcode::CallIcSuper
        | Opcode::CallMono | Opcode::CallRet => x.a + x.b < ACC,
        Opcode::ProfileHotCall => x.b + x.c < ACC,
        Opcode::CallVar | Opcode::CallIcVar => x.a + 1 < ACC,
        Opcode::CallMethod1 => x.a + 1 < ACC,
        Opcode::CallMethod2 => x.a + 2 < ACC,
        Opcode::CmpJmp | Opcode::LoadJfalse | Opcode::LoadCmpEqJfalse | Opcode::LoadCmpLtJfalse
        | Opcode::GetProp2Ic | Opcode::GetProp3Ic | Opcode::GetPropElem | Opcode::Call3
        | Opcode::GetPropChainAcc | Opcode::Destructure | Opcode::Throw | Opcode::Try
        | Opcode::EndTry | Opcode::Catch | Opcode::Finally | Opcode::Reserved(_) => false,
        _ => true,
    }
}

/// The registers `base..=base + count` of a call.
pub open spec fn call_regs(base: u8, count: u8) -> Set<u8> {
    Set::new(|r: u8| base <= r <= base + count)
}

/// The registers that an analysable instruction reads.
pub open spec fn reg_uses(x: Instruction) -> Set<u8> {
    match x.opcode {
        Opcode::Mov | Opcode::NewClass | Opcode::Typeof | Opcode::ToNum | Opcode::ToStr | Opcode::IsUndef
        | Opcode::IsNull | Opcode::DeleteProp | Opcode::HasProp | Opcode::Keys | Opcode::ForIn | Opcode::AddI
        | Opcode::SubI | Opcode::MulI | Opcode::DivI | Opcode::ModI | Opcode::Neg | Opcode::Inc | Opcode::Dec
        | Opcode::ToPrimitive | Opcode::BitNot | Opcode::GetProp | Opcode::GetSuper | Opcode::GetPropIc
        | Opcode::GetPropMono | Opcode::GetLengthIc | Opcode::GetPropIcCall | Opcode::GetPropCall
        | Opcode::GetPropIcMov | Opcode::NewObjInitProp | Opcode::GetPropAddImmSetPropIc
        | Opcode::GetLengthIcCall | Opcode::LoadInc | Opcode::LoadDec => set![x.b],
        Opcode::IteratorNext | Opcode::SetGlobalIc | Opcode::SetGlobal | Opcode::SetUpval | Opcode::SetScope
        | Opcode::StoreName | Opcode::InitName | Opcode::LoadAcc | Opcode::JmpTrue | Opcode::JmpFalse
        | Opcode::TestJmpTrue | Opcode::Switch | Opcode::RetReg | Opcode::Yield | Opcode::Await
        | Opcode::LoadKCmp | Opcode::LoadGetProp | Opcode::CallMethodIc | Opcode::CallMethod2Ic => set![x.a],
        Opcode::Spread | Opcode::SetProp | Opcode::SetSuper | Opcode::SetPropIc | Opcode::JmpEq
        | Opcode::JmpNeq | Opcode::JmpLt | Opcode::JmpLte | Opcode::JmpLteFalse | Opcode::JmpI32Fast
        | Opcode::AddAccReg => set![x.a, x.b],
        Opcode::LoadThis | Opcode::LoadThisCall | Opcode::LoadArgCall => set![0u8],
        Opcode::Add | Opcode::Eq | Opcode::Lt | Opcode::Lte | Opcode::StrictEq | Opcode::StrictNeq
        | Opcode::BitAnd | Opcode::BitOr | Opcode::BitXor | Opcode::Shl | Opcode::Shr | Opcode::Ushr
        | Opcode::Pow | Opcode::LogicalAnd | Opcode::LogicalOr | Opcode::NullishCoalesce | Opcode::In
        | Opcode::Instanceof | Opcode::AddStr | Opcode::EqI32Fast | Opcode::LtI32Fast | Opcode::Mod
        | Opcode::AddI32 | Opcode::AddF64 | Opcode::SubI32 | Opcode::SubF64 | Opcode::MulI32 | Opcode::MulF64
        | Opcode::AddI32Fast | Opcode::AddF64Fast | Opcode::SubI32Fast | Opcode::MulI32Fast
        | Opcode::GetPropAcc | Opcode::GetIdxFast | Opcode::GetElem | Opcode::GetIdxIc | Opcode::EqJmpTrue
        | Opcode::LtJmp | Opcode::EqJmpFalse | Opcode::LteJmpLoop | Opcode::AddMov | Opcode::LoadAdd
        | Opcode::LoadSub | Opcode::LoadMul | Opcode::LoadCmpEq | Opcode::LoadCmpLt => set![x.b, x.c],
        Opcode::AddAcc | Opcode::SubAcc | Opcode::MulAcc | Opcode::DivAcc | Opcode::AddStrAcc
        | Opcode::AddStrAccMov | Opcode::MulAccMov => set![ACC, x.b],
        Opcode::AddAccImm8 | Opcode::SubAccImm8 | Opcode::MulAccImm8 | Opcode::DivAccImm8 | Opcode::IncAcc
        | Opcode::LoadKAddAcc | Opcode::LoadKMulAcc | Opcode::LoadKSubAcc | Opcode::IncAccJmp | Opcode::Ret
        | Opcode::ProfileRet | Opcode::AddAccImm8Mov | Opcode::LoadKAdd => set![ACC],
        Opcode::SetPropAcc => set![ACC, x.b, x.c],
        Opcode::SetIdxFast | Opcode::SetElem | Opcode::SetIdxIc | Opcode::RetIfLteI => set![x.a, x.b, x.c],
        Opcode::ArrayPushAcc | Opcode::LoopIncJmp => set![x.a, ACC],
        Opcode::IncJmpFalseLoop => set![ACC, x.a],
        Opcode::ProfileType | Opcode::ProfileCall | Opcode::CheckType | Opcode::CheckStruct | Opcode::CheckIc
        | Opcode::IcInit | Opcode::IcUpdate => if x.b != 0 || x.c != 0 {
            set![x.b]
        } else {
            set![ACC]
        },
        Opcode::SafetyCheck => if x.a != 0 {
            set![x.a]
        } else {
            set![ACC]
        },
        Opcode::Call1SubI | Opcode::Call1 => set![0u8, x.a, x.b],
        Opcode::Call | Opcode::TailCall | Opcode::Construct | Opcode::CallIc | Opcode::CallIcSuper
        | Opcode::CallMono | Opcode::CallRet => set![0u8].union(call_regs(x.a, x.b)),
        Opcode::ProfileHotCall => set![0u8].union(call_regs(x.b, x.c)),
        Opcode::CallVar | Opcode::CallIcVar => set![0u8, x.a, (x.a + 1) as u8],
        Opcode::Call0 => set![0u8, x.a],
        Opcode::Call2 => set![0u8, x.a, x.b, x.c],
        Opcode::CallMethod1 => set![0u8].union(call_regs(x.a, 1u8)),
        Opcode::CallMethod2 => set![0u8].union(call_regs(x.a, 2u8)),
        Opcode::GetPropAccCall => set![0u8, x.b, x.c],
        Opcode::Call1Add => set![0u8, ACC, x.a, x.b],
        Opcode::Call2Add => set![0u8, ACC, x.a, x.b, x.c],
        Opcode::LoadGetPropCmpEq => set![x.a, x.c],
        _ => Set::<u8>::empty(),
    }
}

/// The registers that an analysable instruction writes.
pub open spec fn reg_defs(x: Instruction) -> Set<u8> {
    match x.opcode {
        Opcode::Mov | Opcode::LoadI | Opcode::LoadK | Opcode::LoadGlobalIc | Opcode::GetGlobal
        | Opcode::GetUpval | Opcode::GetScope | Opcode::ResolveScope | Opcode::NewObj | Opcode::NewArr
        | Opcode::NewFunc | Opcode::NewThis | Opcode::LoadClosure | Opcode::TypeofName | Opcode::CreateEnv
        | Opcode::NewClass | Opcode::Typeof | Opcode::ToNum | Opcode::ToStr | Opcode::IsUndef | Opcode::IsNull
        | Opcode::DeleteProp | Opcode::HasProp | Opcode::Keys | Opcode::LoadArg | Opcode::GetProp
        | Opcode::GetSuper | Opcode::GetPropIc | Opcode::GetPropMono | Opcode::GetIdxFast | Opcode::GetElem
        | Opcode::GetIdxIc | Opcode::GetLengthIc | Opcode::LoopIncJmp | Opcode::GetPropIcMov
        | Opcode::NewObjInitProp | Opcode::LoadKAdd | Opcode::LoadInc | Opcode::LoadDec => set![x.a],
        Opcode::ForIn | Opcode::LoadName | Opcode::GetPropIcCall | Opcode::GetPropCall | Opcode::LoadArgCall => set![x.a, ACC],
        Opcode::IteratorNext | Opcode::LoadAcc | Opcode::LoadThis | Opcode::Load0 | Opcode::Load1
        | Opcode::LoadNull | Opcode::LoadTrue | Opcode::LoadFalse | Opcode::IcMiss | Opcode::AssertValue
        | Opcode::AssertOk | Opcode::AssertFail | Opcode::AssertThrows | Opcode::AssertDoesNotThrow
        | Opcode::AssertRejects | Opcode::AssertDoesNotReject | Opcode::AssertEqual | Opcode::AssertNotEqual
        | Opcode::AssertDeepEqual | Opcode::AssertNotDeepEqual | Opcode::AssertStrictEqual
        | Opcode::AssertNotStrictEqual | Opcode::AssertDeepStrictEqual | Opcode::AssertNotDeepStrictEqual
        | Opcode::Add | Opcode::Eq | Opcode::Lt | Opcode::Lte | Opcode::StrictEq | Opcode::StrictNeq
        | Opcode::BitAnd | Opcode::BitOr | Opcode::BitXor | Opcode::Shl | Opcode::Shr | Opcode::Ushr
        | Opcode::Pow | Opcode::LogicalAnd | Opcode::LogicalOr | Opcode::NullishCoalesce | Opcode::In
        | Opcode::Instanceof | Opcode::AddStr | Opcode::EqI32Fast | Opcode::LtI32Fast | Opcode::AddAcc
        | Opcode::SubAcc | Opcode::MulAcc | Opcode::DivAcc | Opcode::AddStrAcc | Opcode::AddAccImm8
        | Opcode::SubAccImm8 | Opcode::MulAccImm8 | Opcode::DivAccImm8 | Opcode::IncAcc | Opcode::LoadKAddAcc
        | Opcode::LoadKMulAcc | Opcode::LoadKSubAcc | Opcode::IncAccJmp | Opcode::Mod | Opcode::Neg
        | Opcode::Inc | Opcode::Dec | Opcode::ToPrimitive | Opcode::BitNot | Opcode::GetPropAcc
        | Opcode::SetPropAcc | Opcode::SetProp | Opcode::SetSuper | Opcode::SetPropIc | Opcode::SetIdxFast
        | Opcode::SetElem | Opcode::SetIdxIc | Opcode::ArrayPushAcc | Opcode::IncJmpFalseLoop | Opcode::Yield
        | Opcode::Await | Opcode::CheckIc | Opcode::Call1SubI | Opcode::Call | Opcode::TailCall
        | Opcode::Construct | Opcode::CallIc | Opcode::CallIcSuper | Opcode::CallMono | Opcode::ProfileHotCall
        | Opcode::CallVar | Opcode::CallIcVar | Opcode::Call0 | Opcode::Call1 | Opcode::Call2
        | Opcode::CallMethod1 | Opcode::CallMethod2 | Opcode::GetPropAccCall | Opcode::GetPropAddImmSetPropIc
        | Opcode::LoadThisCall | Opcode::GetLengthIcCall | Opcode::AddAccReg | Opcode::Call1Add
        | Opcode::Call2Add | Opcode::LoadKCmp | Opcode::LoadGetProp | Opcode::CallMethodIc
        | Opcode::CallMethod2Ic | Opcode::LoadGetPropCmpEq => set![ACC],
        Opcode::AddI | Opcode::SubI | Opcode::MulI | Opcode::DivI | Opcode::ModI | Opcode::AddI32
        | Opcode::AddF64 | Opcode::SubI32 | Opcode::SubF64 | Opcode::MulI32 | Opcode::MulF64
        | Opcode::AddI32Fast | Opcode::AddF64Fast | Opcode::SubI32Fast | Opcode::MulI32Fast => set![ACC, x.a],
        Opcode::AddMov => set![x.a, ACC],
        Opcode::LoadAdd | Opcode::LoadSub | Opcode::LoadMul | Opcode::LoadCmpEq | Opcode::LoadCmpLt => set![x.a],
        Opcode::AddAccImm8Mov | Opcode::AddStrAccMov | Opcode::MulAccMov => set![ACC, x.a],
        _ => Set::<u8>::empty(),
    }
}

/// The registers that an analysable instruction needs to keep their
/// numbers: index registers of cached indexed accesses and the argument
/// registers of calls.
pub open spec fn reg_pinned(x: Instruction) -> Set<u8> {
    match x.opcode {
        Opcode::GetIdxIc | Opcode::SetIdxIc => set![x.c],
        Opcode::Call | Opcode::TailCall | Opcode::Construct | Opcode::CallIc | Opcode::CallIcSuper
        | Opcode::CallMono | Opcode::CallRet => call_regs(x.a, x.b),
        Opcode::ProfileHotCall => call_regs(x.b, x.c),
        Opcode::CallVar | Opcode::CallIcVar => set![x.a, (x.a + 1) as u8],
        Opcode::CallMethod1 => call_regs(x.a, 1u8),
        Opcode::CallMethod2 => call_regs(x.a, 2u8),
        _ => Set::<u8>::empty(),
    }
}

/// The semantics records exactly the registers that `x` reads, writes and
/// pins.
pub open spec fn regs_described(s: InstructionSemantics, x: Instruction) -> bool {
    &&& forall|r: u8| #![trigger s.uses@.contains(r)] #![trigger reg_uses(x).contains(r)]
        s.uses@.contains(r) <==> reg_uses(x).contains(r)
    &&& forall|r: u8| #![trigger s.defs@.contains(r)] #![trigger reg_defs(x).contains(r)]
        s.defs@.contains(r) <==> reg_defs(x).contains(r)
    &&& forall|r: u8| #![trigger s.pinned@.contains(r)] #![trigger reg_pinned(x).contains(r)]
        s.pinned@.contains(r) <==> reg_pinned(x).contains(r)
}

/// The semantics of every instruction, or `None` when some instruction
/// cannot be analysed (exception handling, fused instructions without a
/// register description, reserved operations, or a call whose argument
/// registers would reach the accumulator).
#[verifier::rlimit(40)]
pub fn build_instruction_semantics(insts: &Vec<Instruction>, constants: &Vec<Value>) -> (r: Option<
    Vec<InstructionSemantics>,
>)
    requires
        program_fits(insts@.len()),
    ensures
        r matches Some(v) ==> v@.len() == insts@.len() && forall|q: int|
            0 <= q < insts@.len() ==> (#[trigger] v@[q]).successors@ == successors_of(
                insts@[q],
                q as usize,
                insts@.len() as usize,
                constants@,
            ),
        r matches Some(v) ==> forall|q: int| 0 <= q < insts@.len() ==> regs_described(#[trigger] v@[q], insts@[q]),
        r is Some <==> forall|q: int| 0 <= q < insts@.len() ==> analysable(#[trigger] insts@[q]),
{
    let len = insts.len();
    let mut semantics: Vec<InstructionSemantics> = Vec::new();
    let mut pc: usize = 0;
    while pc < len
        invariant
            len == insts@.len(),
            program_fits(len as nat),
            pc <= len,
            semantics@.len() == pc,
            forall|q: int| 0 <= q < pc ==> analysable(#[trigger] insts@[q]),
            forall|q: int|
                0 <= q < pc ==> (#[trigger] semantics@[q]).successors@ == successors_of(
                    insts@[q],
                    q as usize,
                    len,
                    constants@,
                ),
            forall|q: int| 0 <= q < pc ==> regs_described(#[trigger] semantics@[q], insts@[q]),
        decreases len - pc,
    {
        let inst = insts[pc];
        let mut uses: Vec<u8> = Vec::new();
        let mut defs: Vec<u8> = Vec::new();
        let mut pinned: Vec<u8> = Vec::new();
        let mut successors = normal_successors(pc, len);

        match inst.opcode {
            Opcode::Mov => {
                push_unique_reg(&mut defs, inst.a);
                push_unique_reg(&mut uses, inst.b);
            }
            Opcode::LoadI
            | Opcode::LoadK
            | Opcode::LoadGlobalIc
            | Opcode::GetGlobal
            | Opcode::GetUpval
            | Opcode::GetScope
            | Opcode::ResolveScope
            | Opcode::NewObj
            | Opcode::NewArr
            | Opcode::NewFunc
            | Opcode::NewThis
            | Opcode::LoadClosure
            | Opcode::TypeofName
            | Opcode::CreateEnv => {
                push_unique_reg(&mut defs, inst.a);
            }
            Opcode::NewClass
            | Opcode::Typeof
            | Opcode::ToNum
            | Opcode::ToStr
            | Opcode::IsUndef
            | Opcode::IsNull
            | Opcode::DeleteProp
            | Opcode::HasProp
            | Opcode::Keys => {
                push_unique_reg(&mut defs, inst.a);
                push_unique_reg(&mut uses, inst.b);
            }
            Opcode::ForIn => {
                push_unique_reg(&mut defs, inst.a);
                push_unique_reg(&mut defs, ACC);
                push_unique_reg(&mut uses, inst.b);
            }
            Opcode::IteratorNext => {
                push_unique_reg(&mut defs, ACC);
                push_unique_reg(&mut uses, inst.a);
            }
            Opcode::Spread => {
                push_unique_reg(&mut uses, inst.a);
                push_unique_reg(&mut uses, inst.b);
            }
            Opcode::SetGlobalIc
            | Opcode::SetGlobal
            | Opcode::SetUpval
            | Opcode::SetScope
            | Opcode::StoreName
            | Opcode::InitName => {
                push_unique_reg(&mut uses, inst.a);
            }
            Opcode::LoadName => {
                push_unique_reg(&mut defs, inst.a);
                push_unique_reg(&mut defs, ACC);
            }
            Opcode::LoadArg => {
                push_unique_reg(&mut defs, inst.a);
            }
            Opcode::LoadAcc => {
                push_unique_reg(&mut defs, ACC);
                push_unique_reg(&mut uses, inst.a);
            }
            Opcode::LoadThis => {
                push_unique_reg(&mut defs, ACC);
                push_unique_reg(&mut uses, 0);
            }
            Opcode::Load0
            | Opcode::Load1
            | Opcode::LoadNull
            | Opcode::LoadTrue
            | Opcode::LoadFalse
            | Opcode::IcMiss
            | Opcode::AssertValue
            | Opcode::AssertOk
            | Opcode::AssertFail
            | Opcode::AssertThrows
            | Opcode::AssertDoesNotThrow
            | Opcode::AssertRejects
            | Opcode::AssertDoesNotReject
            | Opcode::AssertEqual
            | Opcode::AssertNotEqual
            | Opcode::AssertDeepEqual
            | Opcode::AssertNotDeepEqual
            | Opcode::AssertStrictEqual
            | Opcode::AssertNotStrictEqual
            | Opcode::AssertDeepStrictEqual
            | Opcode::AssertNotDeepStrictEqual => {
                push_unique_reg(&mut defs, ACC);
            }
            Opcode::Add
            | Opcode::Eq
            | Opcode::Lt
            | Opcode::Lte
            | Opcode::StrictEq
            | Opcode::StrictNeq
            | Opcode::BitAnd
            | Opcode::BitOr
            | Opcode::BitXor
            | Opcode::Shl
            | Opcode::Shr
            | Opcode::Ushr
            | Opcode::Pow
            | Opcode::LogicalAnd
            | Opcode::LogicalOr
            | Opcode::NullishCoalesce
            | Opcode::In
            | Opcode::Instanceof
            | Opcode::AddStr
            | Opcode::EqI32Fast
            | Opcode::LtI32Fast => {
                push_unique_reg(&mut defs, ACC);
                push_unique_reg(&mut uses, inst.b);
                push_unique_reg(&mut uses, inst.c);
            }
            Opcode::AddAcc
            | Opcode::SubAcc
            | Opcode::MulAcc
            | Opcode::DivAcc
            | Opcode::AddStrAcc => {
                push_unique_reg(&mut defs, ACC);
                push_unique_reg(&mut uses, ACC);
                push_unique_reg(&mut uses, inst.b);
            }
            Opcode::AddAccImm8
            | Opcode::SubAccImm8
            | Opcode::MulAccImm8
            | Opcode::DivAccImm8
            | Opcode::IncAcc
            | Opcode::LoadKAddAcc
            | Opcode::LoadKMulAcc
            | Opcode::LoadKSubAcc
            | Opcode::IncAccJmp => {
                push_unique_reg(&mut defs, ACC);
                push_unique_reg(&mut uses, ACC);
            }
            Opcode::AddI | Opcode::SubI | Opcode::MulI | Opcode::DivI | Opcode::ModI => {
                push_unique_reg(&mut defs, ACC);
                if inst.a != ACC {
                    push_unique_reg(&mut defs, inst.a);
                }
                push_unique_reg(&mut uses, inst.b);
            }
            Opcode::Mod => {
                push_unique_reg(&mut defs, ACC);
                push_unique_reg(&mut uses, inst.b);
                push_unique_reg(&mut uses, inst.c);
            }
            Opcode::AddI32
            | Opcode::AddF64
            | Opcode::SubI32
            | Opcode::SubF64
            | Opcode::MulI32
            | Opcode::MulF64
            | Opcode::AddI32Fast
            | Opcode::AddF64Fast
            | Opcode::SubI32Fast
            | Opcode::MulI32Fast => {
                push_unique_reg(&mut defs, ACC);
                if inst.a != ACC {
                    push_unique_reg(&mut defs, inst.a);
                }
                push_unique_reg(&mut uses, inst.b);
                push_unique_reg(&mut uses, inst.c);
            }
            Opcode::Neg | Opcode::Inc | Opcode::Dec | Opcode::ToPrimitive | Opcode::BitNot => {
                push_unique_reg(&mut defs, ACC);
                push_unique_reg(&mut uses, inst.b);
            }
            Opcode::GetPropAcc => {
                push_unique_reg(&mut defs, ACC);
                push_unique_reg(&mut uses, inst.b);
                push_unique_reg(&mut uses, inst.c);
            }
            Opcode::SetPropAcc => {
                push_unique_reg(&mut defs, ACC);
                push_unique_reg(&mut uses, ACC);
                push_unique_reg(&mut uses, inst.b);
                push_unique_reg(&mut uses, inst.c);
            }
            Opcode::GetProp | Opcode::GetSuper | Opcode::GetPropIc | Opcode::GetPropMono => {
                push_unique_reg(&mut defs, inst.a);
                push_unique_reg(&mut uses, inst.b);
            }
            Opcode::SetProp | Opcode::SetSuper | Opcode::SetPropIc => {
                push_unique_reg(&mut defs, ACC);
                push_unique_reg(&mut uses, inst.a);
                push_unique_reg(&mut uses, inst.b);
            }
            Opcode::GetIdxFast | Opcode::GetElem => {
                push_unique_reg(&mut defs, inst.a);
                push_unique_reg(&mut uses, inst.b);
                push_unique_reg(&mut uses, inst.c);
            }
            Opcode::GetIdxIc => {
                push_unique_reg(&mut defs, inst.a);
                push_unique_reg(&mut uses, inst.b);
                push_unique_reg(&mut uses, inst.c);
                push_unique_reg(&mut pinned, inst.c);
            }
            Opcode::SetIdxFast | Opcode::SetElem => {
                push_unique_reg(&mut defs, ACC);
                push_unique_reg(&mut uses, inst.a);
                push_unique_reg(&mut uses, inst.b);
                push_unique_reg(&mut uses, inst.c);
            }
            Opcode::SetIdxIc => {
                push_unique_reg(&mut defs, ACC);
                push_unique_reg(&mut uses, inst.a);
                push_unique_reg(&mut uses, inst.b);
                push_unique_reg(&mut uses, inst.c);
                push_unique_reg(&mut pinned, inst.c);
            }
            Opcode::GetLengthIc => {
                push_unique_reg(&mut defs, inst.a);
                push_unique_reg(&mut uses, inst.b);
            }
            Opcode::ArrayPushAcc => {
                push_unique_reg(&mut defs, ACC);
                push_unique_reg(&mut uses, inst.a);
                push_unique_reg(&mut uses, ACC);
            }
            Opcode::Jmp => {
                successors = target_successors(inst.target, len);
            }
            Opcode::JmpTrue | Opcode::JmpFalse | Opcode::TestJmpTrue => {
                push_unique_reg(&mut uses, inst.a);
                successors = conditional_successors(pc, inst.target, len);
            }
            Opcode::JmpEq
            | Opcode::JmpNeq
            | Opcode::JmpLt
            | Opcode::JmpLte
            | Opcode::JmpLteFalse
            | Opcode::JmpI32Fast => {
                push_unique_reg(&mut uses, inst.a);
                push_unique_reg(&mut uses, inst.b);
                successors = conditional_successors(pc, inst.target, len);
            }
            Opcode::EqJmpTrue | Opcode::LtJmp | Opcode::EqJmpFalse | Opcode::LteJmpLoop => {
                push_unique_reg(&mut uses, inst.b);
                push_unique_reg(&mut uses, inst.c);
                successors = conditional_successors(pc, inst.target, len);
            }
            Opcode::LoopIncJmp => {
                push_unique_reg(&mut defs, inst.a);
                push_unique_reg(&mut uses, inst.a);
                push_unique_reg(&mut uses, ACC);
                successors = conditional_successors(pc, inst.target, len);
            }
            Opcode::IncJmpFalseLoop => {
                push_unique_reg(&mut defs, ACC);
                push_unique_reg(&mut uses, ACC);
                push_unique_reg(&mut uses, inst.a);
                successors = conditional_successors(pc, inst.target, len);
            }
            Opcode::Switch => {
                push_unique_reg(&mut uses, inst.a);
                successors = switch_targets(pc, inst.b as usize, constants);
                if successors.is_empty() {
                    successors = normal_successors(pc, len);
                }
            }
            Opcode::Ret => {
                push_unique_reg(&mut uses, ACC);
                successors = Vec::new();
            }
            Opcode::RetReg => {
                push_unique_reg(&mut uses, inst.a);
                successors = Vec::new();
            }
            Opcode::RetU => {
                successors = Vec::new();
            }
            Opcode::Yield | Opcode::Await => {
                push_unique_reg(&mut defs, ACC);
                push_unique_reg(&mut uses, inst.a);
            }
            Opcode::ProfileType | Opcode::ProfileCall | Opcode::CheckType | Opcode::CheckStruct => {
                if inst.b != 0 || inst.c != 0 {
                    push_unique_reg(&mut uses, inst.b);
                } else {
                    push_unique_reg(&mut uses, ACC);
                }
            }
            Opcode::ProfileRet => {
                push_unique_reg(&mut uses, ACC);
            }
            Opcode::CheckIc => {
                push_unique_reg(&mut defs, ACC);
                if inst.b != 0 || inst.c != 0 {
                    push_unique_reg(&mut uses, inst.b);
                } else {
                    push_unique_reg(&mut uses, ACC);
                }
            }
            Opcode::IcInit | Opcode::IcUpdate => {
                if inst.b != 0 || inst.c != 0 {
                    push_unique_reg(&mut uses, inst.b);
                } else {
                    push_unique_reg(&mut uses, ACC);
                }
            }
            Opcode::LoopHint
            | Opcode::OsrEntry
            | Opcode::ProfileHotLoop
            | Opcode::OsrExit
            | Opcode::JitHint
            | Opcode::Enter
            | Opcode::Leave => {}
            Opcode::SafetyCheck => {
                if inst.a != 0 {
                    push_unique_reg(&mut uses, inst.a);
                } else {
                    push_unique_reg(&mut uses, ACC);
                }
            }
            Opcode::Call1SubI => {
                push_unique_reg(&mut defs, ACC);
                push_unique_reg(&mut uses, 0);
                push_unique_reg(&mut uses, inst.a);
                push_unique_reg(&mut uses, inst.b);
            }
            Opcode::Call
            | Opcode::TailCall
            | Opcode::Construct
            | Opcode::CallIc
            | Opcode::CallIcSuper
            | Opcode::CallMono => {
                push_unique_reg(&mut defs, ACC);
                push_unique_reg(&mut uses, 0);
                if !push_call_bundle(&mut uses, inst.a, inst.b)
                    || !push_call_bundle(&mut pinned, inst.a, inst.b)
                {
                    return None;
                }
            }
            Opcode::ProfileHotCall => {
                push_unique_reg(&mut defs, ACC);
                push_unique_reg(&mut uses, 0);
                if !push_call_bundle(&mut uses, inst.b, inst.c)
                    || !push_call_bundle(&mut pinned, inst.b, inst.c)
                {
                    return None;
                }
            }
            Opcode::CallRet => {
                push_unique_reg(&mut uses, 0);
                if !push_call_bundle(&mut uses, inst.a, inst.b)
                    || !push_call_bundle(&mut pinned, inst.a, inst.b)
                {
                    return None;
                }
                successors = Vec::new();
            }
            Opcode::CallVar | Opcode::CallIcVar => {
                if inst.a as usize + 1 >= ACC as usize {
                    return None;
                }
                push_unique_reg(&mut defs, ACC);
                push_unique_reg(&mut uses, 0);
                push_unique_reg(&mut uses, inst.a);
                push_unique_reg(&mut uses, inst.a + 1);
                push_unique_reg(&mut pinned, inst.a);
                push_unique_reg(&mut pinned, inst.a + 1);
            }
            Opcode::Call0 => {
                push_unique_reg(&mut defs, ACC);
                push_unique_reg(&mut uses, 0);
                push_unique_reg(&mut uses, inst.a);
            }
            Opcode::Call1 => {
                push_unique_reg(&mut defs, ACC);
                push_unique_reg(&mut uses, 0);
                push_unique_reg(&mut uses, inst.a);
                push_unique_reg(&mut uses, inst.b);
            }
            Opcode::Call2 => {
                push_unique_reg(&mut defs, ACC);
                push_unique_reg(&mut uses, 0);
                push_unique_reg(&mut uses, inst.a);
                push_unique_reg(&mut uses, inst.b);
                push_unique_reg(&mut uses, inst.c);
            }
            Opcode::CallMethod1 => {
                push_unique_reg(&mut defs, ACC);
                push_unique_reg(&mut uses, 0);
                if !push_call_bundle(&mut uses, inst.a, 1)
                    || !push_call_bundle(&mut pinned, inst.a, 1)
                {
                    return None;
                }
            }
            Opcode::CallMethod2 => {
                push_unique_reg(&mut defs, ACC);
                push_unique_reg(&mut uses, 0);
                if !push_call_bundle(&mut uses, inst.a, 2)
                    || !push_call_bundle(&mut pinned, inst.a, 2)
                {
                    return None;
                }
            }
            Opcode::GetPropIcCall | Opcode::GetPropCall => {
                push_unique_reg(&mut defs, inst.a);
                push_unique_reg(&mut defs, ACC);
                push_unique_reg(&mut uses, inst.b);
            }
            Opcode::AddMov
            | Opcode::LoadAdd
            | Opcode::LoadSub
            | Opcode::LoadMul
            | Opcode::LoadCmpEq
            | Opcode::LoadCmpLt => {
                push_unique_reg(&mut defs, inst.a);
                push_unique_reg(&mut uses, inst.b);
                push_unique_reg(&mut uses, inst.c);
                if (inst.opcode == Opcode::AddMov) {
                    push_unique_reg(&mut defs, ACC);
                }
            }
            Opcode::GetPropAccCall => {
                push_unique_reg(&mut defs, ACC);
                push_unique_reg(&mut uses, 0);
                push_unique_reg(&mut uses, inst.b);
                push_unique_reg(&mut uses, inst.c);
            }
            Opcode::GetPropIcMov | Opcode::NewObjInitProp => {
                push_unique_reg(&mut defs, inst.a);
                push_unique_reg(&mut uses, inst.b);
            }
            Opcode::GetPropAddImmSetPropIc => {
                push_unique_reg(&mut defs, ACC);
                push_unique_reg(&mut uses, inst.b);
            }
            Opcode::AddAccImm8Mov => {
                push_unique_reg(&mut defs, ACC);
                push_unique_reg(&mut defs, inst.a);
                push_unique_reg(&mut uses, ACC);
            }
            Opcode::LoadThisCall => {
                push_unique_reg(&mut defs, ACC);
                push_unique_reg(&mut uses, 0);
            }
            Opcode::GetLengthIcCall => {
                push_unique_reg(&mut defs, ACC);
                push_unique_reg(&mut uses, inst.b);
            }
            Opcode::AddStrAccMov | Opcode::MulAccMov => {
                push_unique_reg(&mut defs, ACC);
                push_unique_reg(&mut defs, inst.a);
                push_unique_reg(&mut uses, ACC);
                push_unique_reg(&mut uses, inst.b);
            }
            Opcode::LoadArgCall => {
                push_unique_reg(&mut defs, inst.a);
                push_unique_reg(&mut defs, ACC);
                push_unique_reg(&mut uses, 0);
            }
            Opcode::RetIfLteI => {
                push_unique_reg(&mut uses, inst.a);
                push_unique_reg(&mut uses, inst.b);
                push_unique_reg(&mut uses, inst.c);
            }
            Opcode::AddAccReg => {
                push_unique_reg(&mut defs, ACC);
                push_unique_reg(&mut uses, inst.a);
                push_unique_reg(&mut uses, inst.b);
            }
            Opcode::Call1Add => {
                push_unique_reg(&mut defs, ACC);
                push_unique_reg(&mut uses, 0);
                push_unique_reg(&mut uses, ACC);
                push_unique_reg(&mut uses, inst.a);
                push_unique_reg(&mut uses, inst.b);
            }
            Opcode::Call2Add => {
                push_unique_reg(&mut defs, ACC);
                push_unique_reg(&mut uses, 0);
                push_unique_reg(&mut uses, ACC);
                push_unique_reg(&mut uses, inst.a);
                push_unique_reg(&mut uses, inst.b);
                push_unique_reg(&mut uses, inst.c);
            }
            Opcode::LoadKAdd => {
                push_unique_reg(&mut defs, inst.a);
                push_unique_reg(&mut uses, ACC);
            }
            Opcode::LoadKCmp | Opcode::LoadGetProp => {
                push_unique_reg(&mut defs, ACC);
                push_unique_reg(&mut uses, inst.a);
            }
            Opcode::LoadInc | Opcode::LoadDec => {
                push_unique_reg(&mut defs, inst.a);
                push_unique_reg(&mut uses, inst.b);
            }
            Opcode::CallMethodIc | Opcode::CallMethod2Ic => {
                push_unique_reg(&mut defs, ACC);
                push_unique_reg(&mut uses, inst.a);
            }
            Opcode::LoadGetPropCmpEq => {
                push_unique_reg(&mut defs, ACC);
                push_unique_reg(&mut uses, inst.a);
                push_unique_reg(&mut uses, inst.c);
            }
            Opcode::CmpJmp
            | Opcode::LoadJfalse
            | Opcode::LoadCmpEqJfalse
            | Opcode::LoadCmpLtJfalse
            | Opcode::GetProp2Ic
            | Opcode::GetProp3Ic
            | Opcode::GetPropElem
            | Opcode::Call3
            | Opcode::GetPropChainAcc
            | Opcode::Destructure
            | Opcode::Throw
            | Opcode::Try
            | Opcode::EndTry
            | Opcode::Catch
            | Opcode::Finally
            | Opcode::Reserved(_) => return None,
        }

        let sem = InstructionSemantics { uses, defs, successors, pinned };
        proof {
            assert(successors@ == successors_of(inst, pc, len, constants@));
            assert(analysable(inst));
            assert(regs_described(sem, inst));
        }
        semantics.push(sem);
        pc = pc + 1;
    }
    Some(semantics)
}

/// Which of the fields `a`, `b`, `c` of an instruction name registers that
/// renaming rewrites.
pub open spec fn renamed_fields(x: Instruction) -> (bool, bool, bool) {
    match x.opcode {
        Opcode::Mov => (true, true, false),
        Opcode::LoadI | Opcode::LoadK | Opcode::LoadGlobalIc | Opcode::GetGlobal | Opcode::GetUpval | Opcode::GetScope | Opcode::ResolveScope | Opcode::NewObj | Opcode::NewArr | Opcode::NewFunc | Opcode::NewThis | Opcode::LoadClosure | Opcode::TypeofName | Opcode::CreateEnv | Opcode::LoadArg | Opcode::IteratorNext | Opcode::SetGlobalIc | Opcode::SetGlobal | Opcode::SetUpval | Opcode::SetScope | Opcode::StoreName | Opcode::InitName | Opcode::LoadAcc | Opcode::JmpTrue | Opcode::JmpFalse | Opcode::TestJmpTrue | Opcode::RetReg | Opcode::Yield | Opcode::Await | Opcode::ArrayPushAcc | Opcode::LoadKCmp | Opcode::LoadGetProp | Opcode::Call0 | Opcode::CallMethod1 | Opcode::CallMethod2 | Opcode::CallMethodIc | Opcode::AddAccImm8Mov | Opcode::LoadArgCall | Opcode::IncJmpFalseLoop | Opcode::LoadKAdd => (true, false, false),
        Opcode::NewClass | Opcode::Typeof | Opcode::ToNum | Opcode::ToStr | Opcode::IsUndef | Opcode::IsNull | Opcode::DeleteProp | Opcode::HasProp | Opcode::Keys | Opcode::GetProp | Opcode::GetSuper | Opcode::GetPropIc | Opcode::GetPropMono | Opcode::GetPropIcMov | Opcode::NewObjInitProp => (true, true, false),
        Opcode::ForIn => (true, true, false),
        Opcode::Spread | Opcode::SetProp | Opcode::SetSuper | Opcode::SetPropIc | Opcode::GetIdxFast | Opcode::GetIdxIc | Opcode::GetElem | Opcode::SetIdxFast | Opcode::SetIdxIc | Opcode::SetElem | Opcode::Add | Opcode::Eq | Opcode::Lt | Opcode::Lte | Opcode::StrictEq | Opcode::StrictNeq | Opcode::BitAnd | Opcode::BitOr | Opcode::BitXor | Opcode::Shl | Opcode::Shr | Opcode::Ushr | Opcode::Pow | Opcode::LogicalAnd | Opcode::LogicalOr | Opcode::NullishCoalesce | Opcode::In | Opcode::Instanceof | Opcode::AddStr | Opcode::EqI32Fast | Opcode::LtI32Fast | Opcode::JmpEq | Opcode::JmpNeq | Opcode::JmpLt | Opcode::JmpLte | Opcode::JmpLteFalse | Opcode::JmpI32Fast | Opcode::EqJmpTrue | Opcode::LtJmp | Opcode::EqJmpFalse | Opcode::LteJmpLoop | Opcode::Call1 | Opcode::LoadInc | Opcode::LoadDec | Opcode::CallMethod2Ic => (true, true, !(x.opcode == Opcode::LoadInc || x.opcode == Opcode::LoadDec || x.opcode == Opcode::CallMethodIc || x.opcode == Opcode::CallMethod2Ic)),
        Opcode::Call2 | Opcode::GetPropAcc | Opcode::SetPropAcc | Opcode::AddMov | Opcode::LoadAdd | Opcode::LoadSub | Opcode::LoadMul | Opcode::LoadCmpEq | Opcode::LoadCmpLt | Opcode::LoadGetPropCmpEq | Opcode::RetIfLteI | Opcode::Call2Add | Opcode::AddAccReg => (true, true, true),
        Opcode::AddAcc | Opcode::SubAcc | Opcode::MulAcc | Opcode::DivAcc | Opcode::AddStrAcc | Opcode::Neg | Opcode::Inc | Opcode::Dec | Opcode::ToPrimitive | Opcode::BitNot | Opcode::GetLengthIc | Opcode::GetLengthIcCall | Opcode::GetPropAccCall | Opcode::AddStrAccMov | Opcode::MulAccMov | Opcode::ProfileHotCall => (x.opcode == Opcode::AddStrAccMov || x.opcode == Opcode::MulAccMov, true, false),
        Opcode::AddI | Opcode::SubI | Opcode::MulI | Opcode::DivI | Opcode::ModI | Opcode::Mod | Opcode::AddI32 | Opcode::AddF64 | Opcode::SubI32 | Opcode::SubF64 | Opcode::MulI32 | Opcode::MulF64 | Opcode::AddI32Fast | Opcode::AddF64Fast | Opcode::SubI32Fast | Opcode::MulI32Fast => (true, true, !(x.opcode == Opcode::AddI || x.opcode == Opcode::SubI || x.opcode == Opcode::MulI || x.opcode == Opcode::DivI || x.opcode == Opcode::ModI)),
        Opcode::LoopIncJmp | Opcode::Call1SubI | Opcode::GetPropIcCall | Opcode::GetPropCall | Opcode::Call1Add => (true, true, false),
        Opcode::ProfileType | Opcode::ProfileCall | Opcode::CheckType | Opcode::CheckStruct => (false, x.b != 0 || x.c != 0, false),
        Opcode::CheckIc | Opcode::IcInit | Opcode::IcUpdate => (false, x.b != 0 || x.c != 0, false),
        Opcode::SafetyCheck => (x.a != 0, false, false),
        Opcode::Call | Opcode::TailCall | Opcode::Construct | Opcode::CallIc | Opcode::CallIcSuper | Opcode::CallMono | Opcode::CallRet | Opcode::CallVar | Opcode::CallIcVar => (true, false, false),
        Opcode::LoadThis | Opcode::Load0 | Opcode::Load1 | Opcode::LoadNull | Opcode::LoadTrue | Opcode::LoadFalse | Opcode::AddAccImm8 | Opcode::SubAccImm8 | Opcode::MulAccImm8 | Opcode::DivAccImm8 | Opcode::IncAcc | Opcode::Ret | Opcode::RetU | Opcode::Jmp | Opcode::Switch | Opcode::LoopHint | Opcode::ProfileRet | Opcode::IcMiss | Opcode::OsrEntry | Opcode::ProfileHotLoop | Opcode::OsrExit | Opcode::JitHint | Opcode::Enter | Opcode::Leave | Opcode::LoadKAddAcc | Opcode::LoadKMulAcc | Opcode::LoadKSubAcc | Opcode::GetPropAddImmSetPropIc | Opcode::LoadThisCall | Opcode::IncAccJmp | Opcode::AssertValue | Opcode::AssertOk | Opcode::AssertFail | Opcode::AssertThrows | Opcode::AssertDoesNotThrow | Opcode::AssertRejects | Opcode::AssertDoesNotReject | Opcode::AssertEqual | Opcode::AssertNotEqual | Opcode::AssertDeepEqual | Opcode::AssertNotDeepEqual | Opcode::AssertStrictEqual | Opcode::AssertNotStrictEqual | Opcode::AssertDeepStrictEqual | Opcode::AssertNotDeepStrictEqual => (false, false, false),
        Opcode::LoadName => (true, false, false),
        Opcode::Reserved(_) | Opcode::CmpJmp | Opcode::LoadJfalse | Opcode::LoadCmpEqJfalse | Opcode::LoadCmpLtJfalse | Opcode::GetProp2Ic | Opcode::GetProp3Ic | Opcode::GetPropElem | Opcode::Call3 | Opcode::GetPropChainAcc | Opcode::Destructure | Opcode::Throw | Opcode::Try | Opcode::EndTry | Opcode::Catch | Opcode::Finally => (false, false, false),
    }
}

/// The instruction with the register fields that `renamed_fields` names
/// sent through `map`.
pub open spec fn renamed_with(x: Instruction, map: Seq<u8>) -> Instruction {
    let f = renamed_fields(x);
    Instruction {
        a: if f.0 { map[x.a as int] } else { x.a },
        b: if f.1 { map[x.b as int] } else { x.b },
        c: if f.2 { map[x.c as int] } else { x.c },
        ..x
    }
}

/// Rewrites the registers an instruction names through `map`.
pub fn rewrite_instruction_registers(inst: &mut Instruction, map: &Vec<u8>)
    requires
        map@.len() == REG_COUNT,
    ensures
        final(inst).opcode == old(inst).opcode,
        final(inst).bx == old(inst).bx,
        final(inst).sbx == old(inst).sbx,
        final(inst).target == old(inst).target,
        final(inst).removed == old(inst).removed,
        final(inst).a == old(inst).a || final(inst).a == map@[old(inst).a as int],
        final(inst).b == old(inst).b || final(inst).b == map@[old(inst).b as int],
        final(inst).c == old(inst).c || final(inst).c == map@[old(inst).c as int],
        *final(inst) == renamed_with(*old(inst), map@),
{
    match inst.opcode {
        Opcode::Mov => {
            inst.a = map[inst.a as usize];
            inst.b = map[inst.b as usize];
        }
        Opcode::LoadI
        | Opcode::LoadK
        | Opcode::LoadGlobalIc
        | Opcode::GetGlobal
        | Opcode::GetUpval
        | Opcode::GetScope
        | Opcode::ResolveScope
        | Opcode::NewObj
        | Opcode::NewArr
        | Opcode::NewFunc
        | Opcode::NewThis
        | Opcode::LoadClosure
        | Opcode::TypeofName
        | Opcode::CreateEnv
        | Opcode::LoadArg
        | Opcode::IteratorNext
        | Opcode::SetGlobalIc
        | Opcode::SetGlobal
        | Opcode::SetUpval
        | Opcode::SetScope
        | Opcode::StoreName
        | Opcode::InitName
        | Opcode::LoadAcc
        | Opcode::JmpTrue
        | Opcode::JmpFalse
        | Opcode::TestJmpTrue
        | Opcode::RetReg
        | Opcode::Yield
        | Opcode::Await
        | Opcode::ArrayPushAcc
        | Opcode::LoadKCmp
        | Opcode::LoadGetProp
        | Opcode::Call0
        | Opcode::CallMethod1
        | Opcode::CallMethod2
        | Opcode::CallMethodIc
        | Opcode::AddAccImm8Mov
        | Opcode::LoadArgCall
        | Opcode::IncJmpFalseLoop
        | Opcode::LoadKAdd => {
            inst.a = map[inst.a as usize];
        }
        Opcode::NewClass
        | Opcode::Typeof
        | Opcode::ToNum
        | Opcode::ToStr
        | Opcode::IsUndef
        | Opcode::IsNull
        | Opcode::DeleteProp
        | Opcode::HasProp
        | Opcode::Keys
        | Opcode::GetProp
        | Opcode::GetSuper
        | Opcode::GetPropIc
        | Opcode::GetPropMono
        | Opcode::GetPropIcMov
        | Opcode::NewObjInitProp => {
            inst.a = map[inst.a as usize];
            inst.b = map[inst.b as usize];
        }
        Opcode::ForIn => {
            inst.a = map[inst.a as usize];
            inst.b = map[inst.b as usize];
        }
        Opcode::Spread
        | Opcode::SetProp
        | Opcode::SetSuper
        | Opcode::SetPropIc
        | Opcode::GetIdxFast
        | Opcode::GetIdxIc
        | Opcode::GetElem
        | Opcode::SetIdxFast
        | Opcode::SetIdxIc
        | Opcode::SetElem
        | Opcode::Add
        | Opcode::Eq
        | Opcode::Lt
        | Opcode::Lte
        | Opcode::StrictEq
        | Opcode::StrictNeq
        | Opcode::BitAnd
        | Opcode::BitOr
        | Opcode::BitXor
        | Opcode::Shl
        | Opcode::Shr
        | Opcode::Ushr
        | Opcode::Pow
        | Opcode::LogicalAnd
        | Opcode::LogicalOr
        | Opcode::NullishCoalesce
        | Opcode::In
        | Opcode::Instanceof
        | Opcode::AddStr
        | Opcode::EqI32Fast
        | Opcode::LtI32Fast
        | Opcode::JmpEq
        | Opcode::JmpNeq
        | Opcode::JmpLt
        | Opcode::JmpLte
        | Opcode::JmpLteFalse
        | Opcode::JmpI32Fast
        | Opcode::EqJmpTrue
        | Opcode::LtJmp
        | Opcode::EqJmpFalse
        | Opcode::LteJmpLoop
        | Opcode::Call1
        | Opcode::LoadInc
        | Opcode::LoadDec
        | Opcode::CallMethod2Ic => {
            inst.a = map[inst.a as usize];
            inst.b = map[inst.b as usize];
            if !(inst.opcode == Opcode::LoadInc || inst.opcode == Opcode::LoadDec || inst.opcode == Opcode::CallMethodIc || inst.opcode == Opcode::CallMethod2Ic) {
                inst.c = map[inst.c as usize];
            }
        }
        Opcode::Call2
        | Opcode::GetPropAcc
        | Opcode::SetPropAcc
        | Opcode::AddMov
        | Opcode::LoadAdd
        | Opcode::LoadSub
        | Opcode::LoadMul
        | Opcode::LoadCmpEq
        | Opcode::LoadCmpLt
        | Opcode::LoadGetPropCmpEq
        | Opcode::RetIfLteI
        | Opcode::Call2Add
        | Opcode::AddAccReg => {
            inst.a = map[inst.a as usize];
            inst.b = map[inst.b as usize];
            inst.c = map[inst.c as usize];
        }
        Opcode::AddAcc
        | Opcode::SubAcc
        | Opcode::MulAcc
        | Opcode::DivAcc
        | Opcode::AddStrAcc
        | Opcode::Neg
        | Opcode::Inc
        | Opcode::Dec
        | Opcode::ToPrimitive
        | Opcode::BitNot
        | Opcode::GetLengthIc
        | Opcode::GetLengthIcCall
        | Opcode::GetPropAccCall
        | Opcode::AddStrAccMov
        | Opcode::MulAccMov
        | Opcode::ProfileHotCall => {
            inst.b = map[inst.b as usize];
            if (inst.opcode == Opcode::AddStrAccMov || inst.opcode == Opcode::MulAccMov) {
                inst.a = map[inst.a as usize];
            }
        }
        Opcode::AddI
        | Opcode::SubI
        | Opcode::MulI
        | Opcode::DivI
        | Opcode::ModI
        | Opcode::Mod
        | Opcode::AddI32
        | Opcode::AddF64
        | Opcode::SubI32
        | Opcode::SubF64
        | Opcode::MulI32
        | Opcode::MulF64
        | Opcode::AddI32Fast
        | Opcode::AddF64Fast
        | Opcode::SubI32Fast
        | Opcode::MulI32Fast => {
            inst.a = map[inst.a as usize];
            inst.b = map[inst.b as usize];
            if !(inst.opcode == Opcode::AddI || inst.opcode == Opcode::SubI || inst.opcode == Opcode::MulI || inst.opcode == Opcode::DivI || inst.opcode == Opcode::ModI) {
                inst.c = map[inst.c as usize];
            }
        }
        Opcode::LoopIncJmp
        | Opcode::Call1SubI
        | Opcode::GetPropIcCall
        | Opcode::GetPropCall
        | Opcode::Call1Add => {
            inst.a = map[inst.a as usize];
            inst.b = map[inst.b as usize];
        }
        Opcode::ProfileType | Opcode::ProfileCall | Opcode::CheckType | Opcode::CheckStruct => {
            if inst.b != 0 || inst.c != 0 {
                inst.b = map[inst.b as usize];
            }
        }
        Opcode::CheckIc | Opcode::IcInit | Opcode::IcUpdate => {
            if inst.b != 0 || inst.c != 0 {
                inst.b = map[inst.b as usize];
            }
        }
        Opcode::SafetyCheck => {
            if inst.a != 0 {
                inst.a = map[inst.a as usize];
            }
        }
        Opcode::Call
        | Opcode::TailCall
        | Opcode::Construct
        | Opcode::CallIc
        | Opcode::CallIcSuper
        | Opcode::CallMono
        | Opcode::CallRet
        | Opcode::CallVar
        | Opcode::CallIcVar => {
            inst.a = map[inst.a as usize];
        }
        Opcode::LoadThis
        | Opcode::Load0
        | Opcode::Load1
        | Opcode::LoadNull
        | Opcode::LoadTrue
        | Opcode::LoadFalse
        | Opcode::AddAccImm8
        | Opcode::SubAccImm8
        | Opcode::MulAccImm8
        | Opcode::DivAccImm8
        | Opcode::IncAcc
        | Opcode::Ret
        | Opcode::RetU
        | Opcode::Jmp
        | Opcode::Switch
        | Opcode::LoopHint
        | Opcode::ProfileRet
        | Opcode::IcMiss
        | Opcode::OsrEntry
        | Opcode::ProfileHotLoop
        | Opcode::OsrExit
        | Opcode::JitHint
        | Opcode::Enter
        | Opcode::Leave
        | Opcode::LoadKAddAcc
        | Opcode::LoadKMulAcc
        | Opcode::LoadKSubAcc
        | Opcode::GetPropAddImmSetPropIc
        | Opcode::LoadThisCall
        | Opcode::IncAccJmp
        | Opcode::AssertValue
        | Opcode::AssertOk
        | Opcode::AssertFail
        | Opcode::AssertThrows
        | Opcode::AssertDoesNotThrow
        | Opcode::AssertRejects
        | Opcode::AssertDoesNotReject
        | Opcode::AssertEqual
        | Opcode::AssertNotEqual
        | Opcode::AssertDeepEqual
        | Opcode::AssertNotDeepEqual
        | Opcode::AssertStrictEqual
        | Opcode::AssertNotStrictEqual
        | Opcode::AssertDeepStrictEqual
        | Opcode::AssertNotDeepStrictEqual => {}
        Opcode::LoadName => {
            inst.a = map[inst.a as usize];
        }
        Opcode::Reserved(_)
        | Opcode::CmpJmp
        | Opcode::LoadJfalse
        | Opcode::LoadCmpEqJfalse
        | Opcode::LoadCmpLtJfalse
        | Opcode::GetProp2Ic
        | Opcode::GetProp3Ic
        | Opcode::GetPropElem
        | Opcode::Call3
        | Opcode::GetPropChainAcc
        | Opcode::Destructure
        | Opcode::Throw
        | Opcode::Try
        | Opcode::EndTry
        | Opcode::Catch
        | Opcode::Finally => {}
    }
}


fn bool_row(value: bool) -> (r: Vec<bool>)
    ensures
        r@.len() == REG_COUNT,
        forall|k: int| 0 <= k < REG_COUNT ==> #[trigger] r@[k] == value,
{
    let mut v: Vec<bool> = Vec::new();
    let mut k: usize = 0;
    while k < REG_COUNT
        invariant
            k <= REG_COUNT,
            v@.len() == k,
            forall|j: int| 0 <= j < k ==> #[trigger] v@[j] == value,
        decreases REG_COUNT - k,
    {
        v.push(value);
        k = k + 1;
    }
    v
}

/// `dst |= src`, register by register.
pub fn union_live_sets(dst: &mut Vec<bool>, src: &Vec<bool>)
    requires
        old(dst)@.len() == REG_COUNT,
        src@.len() == REG_COUNT,
    ensures
        final(dst)@.len() == REG_COUNT,
        forall|k: int| 0 <= k < REG_COUNT ==> #[trigger] final(dst)@[k] == (old(dst)@[k] || src@[k]),
{
    let mut k: usize = 0;
    while k < REG_COUNT
        invariant
            dst@.len() == REG_COUNT,
            src@.len() == REG_COUNT,
            k <= REG_COUNT,
            forall|j: int| 0 <= j < k ==> #[trigger] dst@[j] == (old(dst)@[j] || src@[j]),
            forall|j: int| k <= j < REG_COUNT ==> #[trigger] dst@[j] == old(dst)@[j],
        decreases REG_COUNT - k,
    {
        let v = dst[k] || src[k];
        dst.set(k, v);
        k = k + 1;
    }
}

/// Widens the interval of `reg` to cover `pc`, creating it if needed.
pub fn extend_interval(intervals: &mut Vec<Option<LiveInterval>>, reg: usize, pc: usize)
    requires
        old(intervals)@.len() == REG_COUNT,
        reg < REG_COUNT,
    ensures
        final(intervals)@.len() == REG_COUNT,
        forall|k: int| 0 <= k < REG_COUNT && k != reg ==> #[trigger] final(intervals)@[k] == old(intervals)@[k],
        final(intervals)@[reg as int] == match old(intervals)@[reg as int] {
            Some(iv) => Some(
                LiveInterval {
                    reg: iv.reg,
                    start: if pc < iv.start {
                        pc
                    } else {
                        iv.start
                    },
                    end: if pc > iv.end {
                        pc
                    } else {
                        iv.end
                    },
                },
            ),
            None => Some(LiveInterval { reg: reg as u8, start: pc, end: pc }),
        },
{
    match intervals[reg] {
        Some(iv) => {
            let start = if pc < iv.start {
                pc
            } else {
                iv.start
            };
            let end = if pc > iv.end {
                pc
            } else {
                iv.end
            };
            intervals.set(reg, Some(LiveInterval { reg: iv.reg, start, end }));
        },
        None => {
            intervals.set(reg, Some(LiveInterval { reg: reg as u8, start: pc, end: pc }));
        },
    }
}

/// Intervals name their own register and lie inside the program.
pub open spec fn intervals_ok(intervals: Seq<Option<LiveInterval>>, len: nat) -> bool {
    &&& intervals.len() == REG_COUNT
    &&& forall|r: int|
        0 <= r < REG_COUNT ==> (#[trigger] intervals[r] matches Some(iv) ==> iv.reg == r && iv.start
            <= iv.end < len)
}

/// Every successor of every instruction lies inside the program.
pub open spec fn successors_in_range(insts: Seq<Instruction>, constants: Seq<Value>) -> bool {
    forall|q: int, k: int|
        0 <= q < insts.len() && 0 <= k < successors_of(insts[q], q as usize, insts.len() as usize, constants).len()
            ==> #[trigger] successors_of(insts[q], q as usize, insts.len() as usize, constants)[k] < insts.len()
}

/// Register `r` is live into or out of `pc`, or read or written there.
pub open spec fn touched(
    insts: Seq<Instruction>,
    live_in: Seq<Vec<bool>>,
    live_out: Seq<Vec<bool>>,
    pc: int,
    r: int,
) -> bool {
    live_in[pc]@[r] || live_out[pc]@[r] || reg_uses(insts[pc]).contains(r as u8) || reg_defs(insts[pc]).contains(
        r as u8,
    )
}

/// The interval widened to cover `pc`, or made at `pc`.
pub open spec fn widened(iv: Option<LiveInterval>, r: int, pc: int) -> LiveInterval {
    match iv {
        Some(iv) => LiveInterval {
            reg: iv.reg,
            start: if pc < iv.start {
                pc as usize
            } else {
                iv.start
            },
            end: if pc > iv.end {
                pc as usize
            } else {
                iv.end
            },
        },
        None => LiveInterval { reg: r as u8, start: pc as usize, end: pc as usize },
    }
}

proof fn lemma_widened_twice(iv: Option<LiveInterval>, r: int, pc: int)
    requires
        0 <= pc <= usize::MAX,
    ensures
        widened(Some(widened(iv, r, pc)), r, pc) == widened(iv, r, pc),
{
}

/// The live interval of `r` over the first `n` positions: from the first to
/// the last position where `r` is touched.
pub open spec fn interval_upto(
    insts: Seq<Instruction>,
    live_in: Seq<Vec<bool>>,
    live_out: Seq<Vec<bool>>,
    r: int,
    n: int,
) -> Option<LiveInterval>
    decreases n,
{
    if n <= 0 {
        None
    } else if touched(insts, live_in, live_out, n - 1, r) {
        Some(widened(interval_upto(insts, live_in, live_out, r, n - 1), r, n - 1))
    } else {
        interval_upto(insts, live_in, live_out, r, n - 1)
    }
}

/// The pinned flags of the registers of `insts` (see `pinned_in`).
pub open spec fn pinned_flags(insts: Seq<Instruction>) -> Seq<bool> {
    Seq::new(REG_COUNT as nat, |x: int| pinned_in(insts, insts.len() as int, x as u8))
}

/// The live intervals of every register.
pub open spec fn intervals_of(insts: Seq<Instruction>, live_in: Seq<Vec<bool>>, live_out: Seq<Vec<bool>>) -> Seq<Option<LiveInterval>> {
    Seq::new(REG_COUNT as nat, |r: int| interval_upto(insts, live_in, live_out, r, insts.len() as int))
}

/// What the analysis rests on: the semantics of every instruction and the
/// least rows of live registers that solve the liveness equations over
/// them.
pub open spec fn analysis_basis(
    insts: Seq<Instruction>,
    constants: Seq<Value>,
    sem: Seq<InstructionSemantics>,
    live_in: Seq<Vec<bool>>,
    live_out: Seq<Vec<bool>>,
) -> bool {
    &&& sem.len() == insts.len()
    &&& forall|q: int| 0 <= q < insts.len() ==> regs_described(#[trigger] sem[q], insts[q])
    &&& forall|q: int|
        0 <= q < insts.len() ==> (#[trigger] sem[q]).successors@ == successors_of(
            insts[q],
            q as usize,
            insts.len() as usize,
            constants,
        )
    &&& rows_ok(live_in, insts.len() as int)
    &&& rows_ok(live_out, insts.len() as int)
    &&& is_fixpoint(sem, live_in, live_out)
    &&& below_every_fixpoint(sem, live_in, live_out)
}

/// The registers `1..r` that are not pinned, in increasing order: those
/// the scan may hand out.
pub open spec fn available_upto(pinned: Seq<bool>, r: int) -> Seq<u8>
    decreases r,
{
    if r <= 1 {
        Seq::empty()
    } else if !pinned[r - 1] {
        available_upto(pinned, r - 1).push((r - 1) as u8)
    } else {
        available_upto(pinned, r - 1)
    }
}

/// The intervals of registers `0..n` that may be renumbered: present, not
/// register 0 or the accumulator, and not pinned; in register order.
pub open spec fn candidates_upto(intervals: Seq<Option<LiveInterval>>, pinned: Seq<bool>, n: int) -> Seq<LiveInterval>
    decreases n,
{
    if n <= 0 {
        Seq::empty()
    } else if intervals[n - 1] matches Some(iv) && iv.reg != 0 && iv.reg != ACC && !pinned[iv.reg as int] {
        candidates_upto(intervals, pinned, n - 1).push(intervals[n - 1]->Some_0)
    } else {
        candidates_upto(intervals, pinned, n - 1)
    }
}

/// The active entries (end, register) that still reach `start`, in order.
pub open spec fn still_active(active: Seq<(usize, u8)>, start: usize) -> Seq<(usize, u8)>
    decreases active.len(),
{
    if active.len() == 0 {
        active
    } else if active.last().0 >= start {
        still_active(active.drop_last(), start).push(active.last())
    } else {
        still_active(active.drop_last(), start)
    }
}

/// Register `p` is the number that `map` gives one of the first `n`
/// active entries.
pub open spec fn held(active: Seq<(usize, u8)>, map: Seq<u8>, n: int, p: u8) -> bool
    decreases n,
{
    n > 0 && (map[active[n - 1].1 as int] == p || held(active, map, n - 1, p))
}

/// The first of `avail` from position `c` on that no active entry holds,
/// else `own`.
pub open spec fn first_free(avail: Seq<u8>, active: Seq<(usize, u8)>, map: Seq<u8>, own: u8, c: int) -> u8
    decreases avail.len() - c,
{
    if c >= avail.len() || c < 0 {
        own
    } else if !held(active, map, active.len() as int, avail[c]) {
        avail[c]
    } else {
        first_free(avail, active, map, own, c + 1)
    }
}

/// The identity register map.
pub open spec fn identity_map() -> Seq<u8> {
    Seq::new(REG_COUNT as nat, |j: int| j as u8)
}

/// The map and the active entries after the scan has taken the first `k`
/// intervals of `ivs`: each drops the entries that end before it starts,
/// takes the first available register that no remaining entry holds (or
/// keeps its own), and becomes active.
pub open spec fn scan_state(ivs: Seq<LiveInterval>, avail: Seq<u8>, k: int) -> (Seq<u8>, Seq<(usize, u8)>)
    decreases k,
{
    if k <= 0 {
        (identity_map(), Seq::empty())
    } else {
        let prev = scan_state(ivs, avail, k - 1);
        let iv = ivs[k - 1];
        let act = still_active(prev.1, iv.start);
        let phys = first_free(avail, act, prev.0, iv.reg, 0);
        (prev.0.update(iv.reg as int, phys), act.push((iv.end, iv.reg)))
    }
}

/// The map the linear scan computes for `insts` over the analysis `sem`,
/// `live_in`, `live_out`, taking the candidate intervals in the order `ivs`
/// (by start, then end, then register).
pub open spec fn scan_map(
    insts: Seq<Instruction>,
    constants: Seq<Value>,
    sem: Seq<InstructionSemantics>,
    live_in: Seq<Vec<bool>>,
    live_out: Seq<Vec<bool>>,
    ivs: Seq<LiveInterval>,
    map: Seq<u8>,
) -> bool {
    let pinned = pinned_flags(insts);
    &&& analysis_basis(insts, constants, sem, live_in, live_out)
    &&& sorted_by_key(ivs)
    &&& ivs.to_multiset() == candidates_upto(intervals_of(insts, live_in, live_out), pinned, REG_COUNT as int).to_multiset()
    &&& map == scan_state(ivs, available_upto(pinned, ACC as int), ivs.len() as int).0
}

/// Register `r` is pinned by the first `n` instructions: register 0, the
/// accumulator, or a register that one of them pins (`reg_pinned`).
pub open spec fn pinned_in(insts: Seq<Instruction>, n: int, r: u8) -> bool {
    r == 0 || r == ACC || exists|q: int| 0 <= q < n && #[trigger] reg_pinned(insts[q]).contains(r)
}

/// Backward liveness to a fixed point (see `solve_liveness`), then one
/// interval per register from the first to the last position where it is
/// live, used or defined. `None` when the semantics cannot be built or a
/// successor lies outside the program.
pub fn analyze_liveness(insts: &Vec<Instruction>, constants: &Vec<Value>) -> (r: Option<
    LivenessAnalysis,
>)
    requires
        program_fits(insts@.len()),
    ensures
        r matches Some(a) ==> intervals_ok(a.intervals@, insts@.len()) && a.pinned@.len() == REG_COUNT
            && a.pinned@[0] && a.pinned@[ACC as int],
        r matches Some(a) ==> forall|x: u8| #[trigger] a.pinned@[x as int] == pinned_in(insts@, insts@.len() as int, x),
        r is Some <==> (forall|q: int| 0 <= q < insts@.len() ==> analysable(#[trigger] insts@[q]))
            && successors_in_range(insts@, constants@),
        r matches Some(a) ==> exists|sem: Seq<InstructionSemantics>, li: Seq<Vec<bool>>, lo: Seq<Vec<bool>>|
            #[trigger] analysis_basis(insts@, constants@, sem, li, lo) && a.intervals@ == intervals_of(insts@, li, lo),
{
    let semantics = match build_instruction_semantics(insts, constants) {
        Some(s) => s,
        None => {
            return None;
        },
    };
    let len = insts.len();
    let mut pc: usize = 0;
    while pc < len
        invariant
            len == insts@.len(),
            semantics@.len() == len,
            pc <= len,
            program_fits(len as nat),
            forall|q: int, k: int|
                0 <= q < pc && 0 <= k < semantics@[q].successors@.len() ==> #[trigger] semantics@[q].successors@[k]
                    < len,
            forall|q: int|
                0 <= q < len ==> (#[trigger] semantics@[q]).successors@ == successors_of(
                    insts@[q],
                    q as usize,
                    len,
                    constants@,
                ),
        decreases len - pc,
    {
        let succs = &semantics[pc].successors;
        let mut k: usize = 0;
        while k < succs.len()
            invariant
                pc < len == insts@.len(),
                succs@ == successors_of(insts@[pc as int], pc as usize, len, constants@),
                k <= succs@.len(),
                forall|j: int| 0 <= j < k ==> #[trigger] succs@[j] < len,
            decreases succs@.len() - k,
        {
            if succs[k] >= len {
                proof {
                    assert(successors_of(insts@[pc as int], pc, len, constants@)[k as int] >= len);
                    let q = pc as int;
                    assert(successors_of(insts@[q], q as usize, insts@.len() as usize, constants@)[k as int] >= insts@.len());
                    assert(!successors_in_range(insts@, constants@));
                }
                return None;
            }
            k = k + 1;
        }
        pc = pc + 1;
    }
    proof {
        assert(successors_ok(semantics@, len as int));
        assert forall|q: int, k: int|
            0 <= q < len && 0 <= k < successors_of(insts@[q], q as usize, len, constants@).len()
                implies #[trigger] successors_of(insts@[q], q as usize, len, constants@)[k] < len by {
            assert(semantics@[q].successors@[k] < len);
        }
    }
    let (live_in, live_out) = solve_liveness(&semantics);
    let mut intervals: Vec<Option<LiveInterval>> = Vec::new();
    let mut pinned: Vec<bool> = bool_row(false);
    let mut k: usize = 0;
    while k < REG_COUNT
        invariant
            k <= REG_COUNT,
            intervals@.len() == k,
            forall|j: int| 0 <= j < k ==> (#[trigger] intervals@[j]) is None,
        decreases REG_COUNT - k,
    {
        intervals.push(None);
        k = k + 1;
    }
    pinned.set(0, true);
    pinned.set(ACC as usize, true);
    proof {
        assert forall|x: u8| #[trigger] pinned@[x as int] == pinned_in(insts@, 0, x) by {}
    }
    proof {
        assert(analysis_basis(insts@, constants@, semantics@, live_in@, live_out@));
    }
    let mut pc: usize = 0;
    while pc < len
        invariant
            len == insts@.len(),
            pc <= len,
            semantics@.len() == len,
            analysis_basis(insts@, constants@, semantics@, live_in@, live_out@),
            intervals@.len() == REG_COUNT,
            forall|r: int| 0 <= r < REG_COUNT ==> #[trigger] intervals@[r] == interval_upto(
                insts@,
                live_in@,
                live_out@,
                r,
                pc as int,
            ),
            live_in@.len() == len,
            live_out@.len() == len,
            forall|q: int| 0 <= q < len ==> (#[trigger] live_in@[q])@.len() == REG_COUNT,
            forall|q: int| 0 <= q < len ==> (#[trigger] live_out@[q])@.len() == REG_COUNT,
            pinned@.len() == REG_COUNT,
            pinned@[0],
            pinned@[ACC as int],
            intervals_ok(intervals@, len as nat),
            forall|q: int| 0 <= q < len ==> regs_described(#[trigger] semantics@[q], insts@[q]),
            forall|x: u8| #[trigger] pinned@[x as int] == pinned_in(insts@, pc as int, x),
        decreases len - pc,
    {
        let info = &semantics[pc];
        let mut j: usize = 0;
        while j < info.pinned.len()
            invariant
                pc < len == insts@.len(),
                j <= info.pinned@.len(),
                pinned@.len() == REG_COUNT,
                pinned@[0],
                pinned@[ACC as int],
                forall|x: u8| #[trigger] pinned@[x as int] == (pinned_in(insts@, pc as int, x) || exists|jj: int|
                    0 <= jj < j && info.pinned@[jj] == x),
            decreases info.pinned@.len() - j,
        {
            let ghost before = pinned@;
            pinned.set(info.pinned[j] as usize, true);
            proof {
                assert forall|x: u8| #[trigger] pinned@[x as int] == (pinned_in(insts@, pc as int, x) || exists|
                    jj: int,
                | 0 <= jj < j + 1 && info.pinned@[jj] == x) by {
                    if x == info.pinned@[j as int] {
                        assert(info.pinned@[j as int] == x);
                    } else {
                        assert(pinned@[x as int] == before[x as int]);
                        if exists|jj: int| 0 <= jj < j + 1 && info.pinned@[jj] == x {
                            let jj = choose|jj: int| 0 <= jj < j + 1 && info.pinned@[jj] == x;
                            assert(jj < j);
                        }
                    }
                }
            }
            j = j + 1;
        }
        proof {
            assert(regs_described(semantics@[pc as int], insts@[pc as int]));
            assert forall|x: u8| #[trigger] pinned@[x as int] == pinned_in(insts@, pc + 1, x) by {
                if info.pinned@.contains(x) {
                    assert(reg_pinned(insts@[pc as int]).contains(x));
                    let jj = choose|jj: int| 0 <= jj < info.pinned@.len() && info.pinned@[jj] == x;
                    assert(0 <= jj < j && info.pinned@[jj] == x);
                } else {
                    assert(!reg_pinned(insts@[pc as int]).contains(x));
                    if exists|jj: int| 0 <= jj < j && info.pinned@[jj] == x {
                        let jj = choose|jj: int| 0 <= jj < j && info.pinned@[jj] == x;
                        assert(info.pinned@.contains(x));
                    }
                }
                if pinned_in(insts@, pc + 1, x) && !(x == 0 || x == ACC) {
                    let q = choose|q: int| 0 <= q < pc + 1 && #[trigger] reg_pinned(insts@[q]).contains(x);
                    if q < pc {
                        assert(pinned_in(insts@, pc as int, x));
                    }
                }
                if pinned_in(insts@, pc as int, x) && !(x == 0 || x == ACC) {
                    let q = choose|q: int| 0 <= q < pc && #[trigger] reg_pinned(insts@[q]).contains(x);
                    assert(0 <= q < pc + 1);
                }
            }
        }
        let mut reg: usize = 0;
        while reg < REG_COUNT
            invariant
                pc < len,
                reg <= REG_COUNT,
                live_in@.len() == len,
                live_out@.len() == len,
                forall|q: int| 0 <= q < len ==> (#[trigger] live_in@[q])@.len() == REG_COUNT,
                forall|q: int| 0 <= q < len ==> (#[trigger] live_out@[q])@.len() == REG_COUNT,
                intervals_ok(intervals@, len as nat),
                intervals@.len() == REG_COUNT,
                forall|r: int| 0 <= r < REG_COUNT ==> #[trigger] intervals@[r] == if r < reg && (
                live_in@[pc as int]@[r] || live_out@[pc as int]@[r]) {
                    Some(widened(interval_upto(insts@, live_in@, live_out@, r, pc as int), r, pc as int))
                } else {
                    interval_upto(insts@, live_in@, live_out@, r, pc as int)
                },
            decreases REG_COUNT - reg,
        {
            if live_in[pc][reg] || live_out[pc][reg] {
                extend_interval(&mut intervals, reg, pc);
            }
            reg = reg + 1;
        }
        let mut u: usize = 0;
        while u < info.uses.len()
            invariant
                pc < len,
                u <= info.uses@.len(),
                intervals_ok(intervals@, len as nat),
                intervals@.len() == REG_COUNT,
                forall|r: int| 0 <= r < REG_COUNT ==> #[trigger] intervals@[r] == if live_in@[pc as int]@[r]
                    || live_out@[pc as int]@[r] || info.uses@.take(u as int).contains(r as u8) {
                    Some(widened(interval_upto(insts@, live_in@, live_out@, r, pc as int), r, pc as int))
                } else {
                    interval_upto(insts@, live_in@, live_out@, r, pc as int)
                },
            decreases info.uses@.len() - u,
        {
            let ghost before = intervals@;
            let x = info.uses[u];
            extend_interval(&mut intervals, x as usize, pc);
            proof {
                assert(info.uses@.take(u + 1) =~= info.uses@.take(u as int).push(x));
                lemma_widened_twice(interval_upto(insts@, live_in@, live_out@, x as int, pc as int), x as int, pc as int);
                assert forall|r: int| 0 <= r < REG_COUNT implies #[trigger] intervals@[r] == if live_in@[pc as int]@[r]
                    || live_out@[pc as int]@[r] || info.uses@.take(u + 1).contains(r as u8) {
                    Some(widened(interval_upto(insts@, live_in@, live_out@, r, pc as int), r, pc as int))
                } else {
                    interval_upto(insts@, live_in@, live_out@, r, pc as int)
                } by {
                    if r != x as int {
                        assert(intervals@[r] == before[r]);
                        assert(info.uses@.take(u + 1).contains(r as u8) == info.uses@.take(u as int).contains(r as u8));
                    } else {
                        assert(info.uses@.take(u + 1)[u as int] == x);
                        assert(info.uses@.take(u + 1).contains(r as u8));
                    }
                }
            }
            u = u + 1;
        }
        proof {
            assert(info.uses@.take(info.uses@.len() as int) =~= info.uses@);
        }
        let mut d: usize = 0;
        while d < info.defs.len()
            invariant
                pc < len,
                d <= info.defs@.len(),
                intervals_ok(intervals@, len as nat),
                intervals@.len() == REG_COUNT,
                forall|r: int| 0 <= r < REG_COUNT ==> #[trigger] intervals@[r] == if live_in@[pc as int]@[r]
                    || live_out@[pc as int]@[r] || info.uses@.contains(r as u8) || info.defs@.take(d as int).contains(
                    r as u8,
                ) {
                    Some(widened(interval_upto(insts@, live_in@, live_out@, r, pc as int), r, pc as int))
                } else {
                    interval_upto(insts@, live_in@, live_out@, r, pc as int)
                },
            decreases info.defs@.len() - d,
        {
            let ghost before = intervals@;
            let x = info.defs[d];
            extend_interval(&mut intervals, x as usize, pc);
            proof {
                assert(info.defs@.take(d + 1) =~= info.defs@.take(d as int).push(x));
                lemma_widened_twice(interval_upto(insts@, live_in@, live_out@, x as int, pc as int), x as int, pc as int);
                assert forall|r: int| 0 <= r < REG_COUNT implies #[trigger] intervals@[r] == if live_in@[pc as int]@[r]
                    || live_out@[pc as int]@[r] || info.uses@.contains(r as u8) || info.defs@.take(d + 1).contains(
                    r as u8,
                ) {
                    Some(widened(interval_upto(insts@, live_in@, live_out@, r, pc as int), r, pc as int))
                } else {
                    interval_upto(insts@, live_in@, live_out@, r, pc as int)
                } by {
                    if r != x as int {
                        assert(intervals@[r] == before[r]);
                        assert(info.defs@.take(d + 1).contains(r as u8) == info.defs@.take(d as int).contains(r as u8));
                    } else {
                        assert(info.defs@.take(d + 1)[d as int] == x);
                        assert(info.defs@.take(d + 1).contains(r as u8));
                    }
                }
            }
            d = d + 1;
        }
        proof {
            assert(info.defs@.take(info.defs@.len() as int) =~= info.defs@);
            assert(regs_described(semantics@[pc as int], insts@[pc as int]));
            assert forall|r: int| 0 <= r < REG_COUNT implies #[trigger] intervals@[r] == interval_upto(
                insts@,
                live_in@,
                live_out@,
                r,
                pc + 1,
            ) by {
                assert(info.uses@.contains(r as u8) == reg_uses(insts@[pc as int]).contains(r as u8));
                assert(info.defs@.contains(r as u8) == reg_defs(insts@[pc as int]).contains(r as u8));
            }
        }
        pc = pc + 1;
    }
    proof {
        assert(intervals@ =~= intervals_of(insts@, live_in@, live_out@));
    }
    Some(LivenessAnalysis { intervals, pinned })
}


/// `after` is `before` with register fields possibly read through `map`.
pub open spec fn renamed_at(before: Instruction, after: Instruction, map: Seq<u8>) -> bool {
    &&& after.opcode == before.opcode
    &&& after.bx == before.bx
    &&& after.sbx == before.sbx
    &&& after.target == before.target
    &&& after.removed == before.removed
    &&& after.a == before.a || after.a == map[before.a as int]
    &&& after.b == before.b || after.b == map[before.b as int]
    &&& after.c == before.c || after.c == map[before.c as int]
}

/// Every instruction is renamed through `map`.
pub open spec fn renamed_by(before: Seq<Instruction>, after: Seq<Instruction>, map: Seq<u8>) -> bool {
    &&& after.len() == before.len()
    &&& forall|i: int| 0 <= i < before.len() ==> renamed_at(before[i], #[trigger] after[i], map)
}

/// A register map that fixes register 0 and the accumulator and sends no
/// other register to them.
pub open spec fn keeps_reserved(map: Seq<u8>) -> bool {
    &&& map.len() == REG_COUNT
    &&& forall|k: int|
        0 <= k < REG_COUNT ==> #[trigger] map[k] == k || (k != 0 && k != ACC && map[k] != 0 && map[k]
            != ACC)
}

/// Intervals ordered by start, then end, then register.
pub open spec fn key_lt(x: LiveInterval, y: LiveInterval) -> bool {
    x.start < y.start || (x.start == y.start && (x.end < y.end || (x.end == y.end && x.reg < y.reg)))
}

pub open spec fn sorted_by_key(s: Seq<LiveInterval>) -> bool {
    forall|i: int, j: int| 0 <= i < j < s.len() ==> !key_lt(#[trigger] s[j], #[trigger] s[i])
}

fn key_less(x: &LiveInterval, y: &LiveInterval) -> (r: bool)
    ensures
        r == key_lt(*x, *y),
{
    x.start < y.start || (x.start == y.start && (x.end < y.end || (x.end == y.end && x.reg < y.reg)))
}

/// Sorts intervals by (start, end, register), keeping equal keys in order.
pub fn sort_intervals(v: Vec<LiveInterval>) -> (r: Vec<LiveInterval>)
    ensures
        r@.len() == v@.len(),
        sorted_by_key(r@),
        r@.to_multiset() == v@.to_multiset(),
{
    let mut out: Vec<LiveInterval> = Vec::new();
    let mut i: usize = 0;
    proof {
        assert(v@.take(0) =~= Seq::<LiveInterval>::empty());
    }
    while i < v.len()
        invariant
            i <= v@.len(),
            out@.len() == i,
            sorted_by_key(out@),
            out@.to_multiset() == v@.take(i as int).to_multiset(),
        decreases v@.len() - i,
    {
        let x = v[i];
        let mut p: usize = 0;
        while p < out.len() && !key_less(&x, &out[p])
            invariant
                p <= out@.len(),
                forall|q: int| 0 <= q < p ==> !key_lt(x, #[trigger] out@[q]),
            decreases out@.len() - p,
        {
            p = p + 1;
        }
        let ghost before = out@;
        out.insert(p, x);
        proof {
            assert(out@ =~= before.subrange(0, p as int) + seq![x] + before.subrange(p as int, before.len() as int));
            assert forall|a: int, b: int| 0 <= a < b < out@.len() implies !key_lt(#[trigger] out@[b], #[trigger] out@[a]) by {
                if a < p && b == p {
                } else if a == p && b > p {
                    assert(key_lt(x, before[p as int]) || p == before.len());
                    assert(out@[b] == before[b - 1]);
                    if b - 1 > p {
                        assert(!key_lt(before[b - 1], before[p as int]));
                    }
                } else if a < p && b > p {
                    assert(out@[b] == before[b - 1]);
                } else if a > p {
                    assert(out@[a] == before[a - 1]);
                    assert(out@[b] == before[b - 1]);
                }
            }
            vstd::seq_lib::lemma_multiset_commutative(before.subrange(0, p as int) + seq![x], before.subrange(p as int, before.len() as int));
            vstd::seq_lib::lemma_multiset_commutative(before.subrange(0, p as int), seq![x]);
            vstd::seq_lib::lemma_multiset_commutative(before.subrange(0, p as int), before.subrange(p as int, before.len() as int));
            assert(before.subrange(0, p as int) + before.subrange(p as int, before.len() as int) =~= before);
            assert(v@.take(i + 1) =~= v@.take(i as int).push(x));
            vstd::seq_lib::lemma_multiset_commutative(v@.take(i as int), seq![x]);
            assert(v@.take(i as int).push(x) =~= v@.take(i as int) + seq![x]);
        }
        i = i + 1;
    }
    proof {
        assert(v@.take(v@.len() as int) =~= v@);
    }
    out
}

proof fn lemma_all_kept(s: Seq<Instruction>, n: int)
    requires
        0 <= n <= s.len(),
        forall|i: int| 0 <= i < s.len() ==> !(#[trigger] s[i]).removed,
    ensures
        live_before(s, n) == n,
    decreases n,
{
    if n > 0 {
        lemma_all_kept(s, n - 1);
    }
}

fn same_words(x: &Vec<u32>, y: &Vec<u32>) -> (r: bool)
    ensures
        r == (x@ == y@),
{
    if x.len() != y.len() {
        return false;
    }
    let mut k: usize = 0;
    while k < x.len()
        invariant
            x@.len() == y@.len(),
            k <= x@.len(),
            forall|j: int| 0 <= j < k ==> x@[j] == y@[j],
        decreases x@.len() - k,
    {
        if x[k] != y[k] {
            return false;
        }
        k = k + 1;
    }
    proof {
        assert(x@ =~= y@);
    }
    true
}

/// Every instruction of `after` is that of `before` renamed through `map`.
pub open spec fn renamed_all(before: Seq<Instruction>, after: Seq<Instruction>, map: Seq<u8>) -> bool {
    &&& after.len() == before.len()
    &&& forall|i: int| 0 <= i < before.len() ==> #[trigger] after[i] == renamed_with(before[i], map)
}

/// Liveness can be analysed: every instruction is analysable and every
/// successor lies inside the program.
pub open spec fn liveness_ok(insts: Seq<Instruction>, constants: Seq<Value>) -> bool {
    (forall|q: int| 0 <= q < insts.len() ==> analysable(#[trigger] insts[q])) && successors_in_range(insts, constants)
}

proof fn lemma_live_before_same(d: Seq<Instruction>, s: Seq<Instruction>, map: Seq<u8>, n: int)
    requires
        renamed_all(d, s, map),
        0 <= n <= d.len(),
    ensures
        live_before(s, n) == live_before(d, n),
    decreases n,
{
    if n > 0 {
        lemma_live_before_same(d, s, map, n - 1);
        assert(s[n - 1] == renamed_with(d[n - 1], map));
    }
}

/// Renaming registers moves no jump: the renamed program encodes exactly
/// when the program does.
pub proof fn lemma_renamed_encodable(d: Seq<Instruction>, s: Seq<Instruction>, map: Seq<u8>)
    requires
        renamed_all(d, s, map),
    ensures
        encodable(s) == encodable(d),
        boundary_of(s) == boundary_of(d),
{
    assert forall|i: int| 0 <= i <= d.len() implies #[trigger] live_before(s, i) == live_before(d, i) by {
        lemma_live_before_same(d, s, map, i);
    }
    assert(boundary_of(s) =~= boundary_of(d));
    assert forall|pc: int| 0 <= pc < d.len() implies (encoded(#[trigger] s[pc], pc as usize, boundary_of(s)) is Some)
        == (encoded(d[pc], pc as usize, boundary_of(d)) is Some) by {
        assert(s[pc] == renamed_with(d[pc], map));
    }
    if encodable(d) {
        assert forall|pc: int| 0 <= pc < s.len() && !(#[trigger] s[pc]).removed implies encoded(
            s[pc],
            pc as usize,
            boundary_of(s),
        ) is Some by {
            assert(s[pc] == renamed_with(d[pc], map));
            assert(!d[pc].removed);
        }
    }
    if encodable(s) {
        assert forall|pc: int| 0 <= pc < d.len() && !(#[trigger] d[pc]).removed implies encoded(
            d[pc],
            pc as usize,
            boundary_of(d),
        ) is Some by {
            assert(s[pc] == renamed_with(d[pc], map));
            assert(!s[pc].removed);
        }
    }
}

/// The map fixes every register that `d` pins (see `pinned_in`) and sends
/// no other register onto a pinned one.
pub open spec fn keeps_pinned(d: Seq<Instruction>, map: Seq<u8>) -> bool {
    &&& forall|x: u8| pinned_in(d, d.len() as int, x) ==> #[trigger] map[x as int] == x
    &&& forall|x: u8| !pinned_in(d, d.len() as int, x) ==> !pinned_in(d, d.len() as int, #[trigger] map[x as int])
}

/// The program with the register fields of every instruction sent
/// through `map` (see `renamed_with`).
pub open spec fn renamed_program(d: Seq<Instruction>, map: Seq<u8>) -> Seq<Instruction> {
    Seq::new(d.len(), |i: int| renamed_with(d[i], map))
}

/// What register reuse does with the map that the linear scan computes
/// (`scan_map`): the input comes back when the map renumbers nothing;
/// otherwise the renamed program, encoded with its switch tables
/// relocated, or `None` when it does not encode.
pub open spec fn reuse_by_scan(bytecode: Seq<u32>, constants: Seq<Value>, r: Option<(Vec<u32>, Vec<Value>)>) -> bool {
    let d = decoded_program(bytecode);
    liveness_ok(d, constants) ==> exists|
        sem: Seq<InstructionSemantics>,
        li: Seq<Vec<bool>>,
        lo: Seq<Vec<bool>>,
        ivs: Seq<LiveInterval>,
        map: Seq<u8>,
    |
        #[trigger] scan_map(d, constants, sem, li, lo, ivs, map) && if map == identity_map() {
            r matches Some((bc, cs)) && bc@ == bytecode && cs@ == constants
        } else {
            match r {
                Some((bc, cs)) => encodes(renamed_program(d, map), bc@) && tables_relocated(
                    renamed_program(d, map),
                    constants,
                    cs@,
                ),
                None => !encodable(renamed_program(d, map)),
            }
        }
}

/// What register reuse gives: the input when the analysis gives up or
/// nothing is renumbered; otherwise the program renamed through a map
/// that keeps register 0 and the accumulator, encoded, or `None` when that
/// program cannot be encoded.
pub open spec fn reuse_result(bytecode: Seq<u32>, constants: Seq<Value>, r: Option<(Vec<u32>, Vec<Value>)>) -> bool {
    let d = decoded_program(bytecode);
    &&& r matches Some((bc, cs)) ==> bc@.len() == bytecode.len() && cs@.len() == constants.len()
    &&& !liveness_ok(d, constants) ==> (r matches Some((bc, cs)) && bc@ == bytecode && cs@ == constants)
    &&& match r {
        Some((bc, cs)) => (bc@ == bytecode && cs@ == constants) || exists|s: Seq<Instruction>, map: Seq<u8>|
            #[trigger] renamed_all(d, s, map) && renamed_by(d, s, map) && keeps_reserved(map) && keeps_pinned(d, map)
                && encodes(s, bc@) && tables_relocated(s, constants, cs@),
        None => exists|s: Seq<Instruction>, map: Seq<u8>|
            #[trigger] renamed_all(d, s, map) && keeps_reserved(map) && keeps_pinned(d, map) && !encodable(s),
    }
    &&& r is None ==> !encodable(d)
}

/// Renumbers registers so that registers whose live intervals do not
/// overlap share a number: intervals are taken by start; each gets the
/// lowest free register that is not pinned, or keeps its own. Register 0,
/// the accumulator and pinned registers keep their numbers. The program is
/// returned unchanged when the analysis gives up or nothing is renumbered;
/// `None` when a relocated jump no longer fits its field.
#[verifier::rlimit(80)]
pub fn reuse_registers_linear_scan(bytecode: Vec<u32>, constants: Vec<Value>) -> (r: Option<
    (Vec<u32>, Vec<Value>),
>)
    requires
        program_fits(bytecode@.len()),
    ensures
        reuse_result(bytecode@, constants@, r),
        reuse_by_scan(bytecode@, constants@, r),
        jumps_in_range(bytecode@) ==> r is Some,
{
    proof {
        if jumps_in_range(bytecode@) {
            law_in_range_encodable(bytecode@);
        }
    }
    let mut insts = decode_program(&bytecode);
    let liveness = match analyze_liveness(&insts, &constants) {
        Some(l) => l,
        None => {
            return Some((bytecode, constants));
        },
    };
    let ghost d = insts@;
    let ghost (sem, li, lo) = choose|sem: Seq<InstructionSemantics>, li: Seq<Vec<bool>>, lo: Seq<Vec<bool>>|
        #[trigger] analysis_basis(insts@, constants@, sem, li, lo) && liveness.intervals@ == intervals_of(insts@, li, lo);
    proof {
        assert(liveness.pinned@ =~= pinned_flags(d)) by {
            assert forall|k: int| 0 <= k < REG_COUNT implies #[trigger] liveness.pinned@[k] == pinned_flags(d)[k] by {
                let x = k as u8;
                assert(liveness.pinned@[x as int] == pinned_in(d, d.len() as int, x));
            }
        }
    }
    let mut map: Vec<u8> = Vec::new();
    let mut k: usize = 0;
    while k < REG_COUNT
        invariant
            k <= REG_COUNT,
            map@.len() == k,
            forall|j: int| 0 <= j < k ==> #[trigger] map@[j] == j,
        decreases REG_COUNT - k,
    {
        map.push(k as u8);
        k = k + 1;
    }
    proof {
        assert(map@ =~= identity_map());
    }
    let mut available_regs: Vec<u8> = Vec::new();
    let mut reg: u8 = 1;
    while reg < ACC
        invariant
            1 <= reg <= ACC,
            liveness.pinned@.len() == REG_COUNT,
            forall|j: int| 0 <= j < available_regs@.len() ==> 1 <= #[trigger] available_regs@[j] < ACC,
            forall|j: int| 0 <= j < available_regs@.len() ==> !liveness.pinned@[#[trigger] available_regs@[j] as int],
            available_regs@ == available_upto(liveness.pinned@, reg as int),
        decreases ACC - reg,
    {
        if !liveness.pinned[reg as usize] {
            available_regs.push(reg);
        }
        reg = reg + 1;
    }
    let mut candidates: Vec<LiveInterval> = Vec::new();
    let mut r: usize = 0;
    while r < REG_COUNT
        invariant
            r <= REG_COUNT,
            intervals_ok(liveness.intervals@, insts@.len()),
            liveness.pinned@.len() == REG_COUNT,
            forall|j: int| 0 <= j < candidates@.len() ==> (#[trigger] candidates@[j]).reg != 0 && candidates@[j].reg != ACC
                && !liveness.pinned@[candidates@[j].reg as int],
            candidates@ == candidates_upto(liveness.intervals@, liveness.pinned@, r as int),
        decreases REG_COUNT - r,
    {
        if let Some(iv) = liveness.intervals[r] {
            if iv.reg != 0 && iv.reg != ACC && !liveness.pinned[iv.reg as usize] {
                candidates.push(iv);
            }
        }
        r = r + 1;
    }
    let intervals = sort_intervals(candidates);
    proof {
        broadcast use vstd::seq_lib::group_to_multiset_ensures;
        assert forall|j: int| 0 <= j < intervals@.len() implies (#[trigger] intervals@[j]).reg != 0 && intervals@[j].reg != ACC
            && !liveness.pinned@[intervals@[j].reg as int] by {
            let x = intervals@[j];
            assert(intervals@.contains(x));
            assert(intervals@.to_multiset().count(x) > 0);
            assert(candidates@.to_multiset().count(x) > 0);
            assert(candidates@.contains(x));
            let w = choose|w: int| 0 <= w < candidates@.len() && candidates@[w] == x;
            assert(candidates@[w].reg != 0);
        }
    }
    let mut active: Vec<(usize, u8)> = Vec::new();
    let mut n: usize = 0;
    proof {
        assert(map@ =~= scan_state(intervals@, available_regs@, 0).0);
        assert(active@ =~= scan_state(intervals@, available_regs@, 0).1);
    }
    while n < intervals.len()
        invariant
            n <= intervals@.len(),
            map@ == scan_state(intervals@, available_regs@, n as int).0,
            active@ == scan_state(intervals@, available_regs@, n as int).1,
            map@.len() == REG_COUNT,
            keeps_reserved(map@),
            forall|j: int| 0 <= j < intervals@.len() ==> (#[trigger] intervals@[j]).reg != 0 && intervals@[j].reg != ACC
                && !liveness.pinned@[intervals@[j].reg as int],
            forall|j: int| 0 <= j < available_regs@.len() ==> 1 <= #[trigger] available_regs@[j] < ACC,
            forall|j: int| 0 <= j < available_regs@.len() ==> !liveness.pinned@[#[trigger] available_regs@[j] as int],
            liveness.pinned@.len() == REG_COUNT,
            forall|x: u8| liveness.pinned@[x as int] ==> #[trigger] map@[x as int] == x,
            forall|x: u8| !liveness.pinned@[x as int] ==> !liveness.pinned@[#[trigger] map@[x as int] as int],
        decreases intervals@.len() - n,
    {
        let interval = intervals[n];
        let ghost active0 = active@;
        let mut kept: Vec<(usize, u8)> = Vec::new();
        let mut a: usize = 0;
        while a < active.len()
            invariant
                a <= active@.len(),
                kept@ == still_active(active@.take(a as int), interval.start),
            decreases active@.len() - a,
        {
            proof {
                assert(active@.take(a + 1).drop_last() =~= active@.take(a as int));
                assert(active@.take(a + 1).last() == active@[a as int]);
            }
            if active[a].0 >= interval.start {
                kept.push(active[a]);
            }
            a = a + 1;
        }
        proof {
            assert(active@.take(active@.len() as int) =~= active@);
        }
        active = kept;
        let mut occupied: Vec<bool> = bool_row(false);
        let mut a: usize = 0;
        while a < active.len()
            invariant
                a <= active@.len(),
                map@.len() == REG_COUNT,
                occupied@.len() == REG_COUNT,
                forall|p: u8| #[trigger] occupied@[p as int] == held(active@, map@, a as int, p),
            decreases active@.len() - a,
        {
            let phys = map[active[a].1 as usize];
            occupied.set(phys as usize, true);
            a = a + 1;
        }
        let mut physical: u8 = interval.reg;
        let mut c: usize = 0;
        while c < available_regs.len()
            invariant_except_break
                physical == interval.reg,
                first_free(available_regs@, active@, map@, interval.reg, c as int) == first_free(
                    available_regs@,
                    active@,
                    map@,
                    interval.reg,
                    0,
                ),
            invariant
                c <= available_regs@.len(),
                occupied@.len() == REG_COUNT,
                physical != 0 && physical != ACC,
                forall|j: int| 0 <= j < available_regs@.len() ==> 1 <= #[trigger] available_regs@[j] < ACC,
                liveness.pinned@.len() == REG_COUNT,
                !liveness.pinned@[physical as int],
                forall|j: int| 0 <= j < available_regs@.len() ==> !liveness.pinned@[#[trigger] available_regs@[j] as int],
                forall|p: u8| #[trigger] occupied@[p as int] == held(active@, map@, active@.len() as int, p),
            ensures
                occupied@.len() == REG_COUNT,
                physical != 0 && physical != ACC,
                !liveness.pinned@[physical as int],
                physical == first_free(available_regs@, active@, map@, interval.reg, 0),
            decreases available_regs@.len() - c,
        {
            let candidate = available_regs[c];
            if !occupied[candidate as usize] {
                physical = candidate;
                break;
            }
            c = c + 1;
        }
        let ghost map0 = map@;
        map.set(interval.reg as usize, physical);
        proof {
            assert(still_active(active0, interval.start) == active@);
        }
        proof {
            assert(!liveness.pinned@[interval.reg as int]);
            assert forall|x: u8| liveness.pinned@[x as int] implies #[trigger] map@[x as int] == x by {
                assert(x != interval.reg);
                assert(map0[x as int] == x);
            }
            assert forall|x: u8| !liveness.pinned@[x as int] implies !liveness.pinned@[#[trigger] map@[x as int] as int] by {
                if x != interval.reg {
                    assert(map@[x as int] == map0[x as int]);
                }
            }
        }
        active.push((interval.end, interval.reg));
        proof {
            assert(map@ == scan_state(intervals@, available_regs@, n + 1).0);
            assert(active@ == scan_state(intervals@, available_regs@, n + 1).1);
        }
        n = n + 1;
    }
    let mut identity = true;
    let mut k: usize = 0;
    while k < REG_COUNT
        invariant
            k <= REG_COUNT,
            map@.len() == REG_COUNT,
            identity == (forall|j: int| 0 <= j < k ==> map@[j] == j),
        decreases REG_COUNT - k,
    {
        if map[k] as usize != k {
            identity = false;
        }
        k = k + 1;
    }
    proof {
        assert(scan_map(d, constants@, sem, li, lo, intervals@, map@));
        if identity {
            assert(map@ =~= identity_map());
        } else {
            let j = choose|j: int| 0 <= j < REG_COUNT && map@[j] != j;
            assert(map@[j] != identity_map()[j]);
        }
    }
    if identity {
        return Some((bytecode, constants));
    }
    let ghost decoded = insts@;
    let mut i: usize = 0;
    while i < insts.len()
        invariant
            i <= insts@.len(),
            insts@.len() == bytecode@.len(),
            decoded.len() == insts@.len(),
            map@.len() == REG_COUNT,
            program_fits(bytecode@.len()),
            forall|q: int| 0 <= q < insts@.len() ==> !(#[trigger] insts@[q]).removed,
            forall|q: int| i <= q < insts@.len() ==> #[trigger] insts@[q] == decoded[q],
            forall|q: int| 0 <= q < i ==> renamed_at(decoded[q], #[trigger] insts@[q], map@),
            forall|q: int| 0 <= q < i ==> #[trigger] insts@[q] == renamed_with(decoded[q], map@),
        decreases insts@.len() - i,
    {
        let mut inst = insts[i];
        rewrite_instruction_registers(&mut inst, &map);
        insts.set(i, inst);
        i = i + 1;
    }
    proof {
        lemma_all_kept(insts@, insts@.len() as int);
        assert(renamed_by(decoded, insts@, map@));
        assert(renamed_all(decoded, insts@, map@));
        assert(insts@ =~= renamed_program(d, map@));
    }
    match encode_program(&insts, constants) {
        Some((rewritten, constants)) => {
            if same_words(&rewritten, &bytecode) {
                Some((bytecode, constants))
            } else {
                Some((rewritten, constants))
            }
        },
        None => {
            proof {
                let pc = choose|pc: int|
                    0 <= pc < insts@.len() && !insts@[pc].removed && crate::opt::inst::encoded(
                        #[trigger] insts@[pc],
                        pc as usize,
                        crate::opt::inst::boundary_of(insts@),
                    ) is None;
                assert(!insts@[pc].removed);
                assert(!encodable(insts@));
                lemma_renamed_encodable(decoded, insts@, map@);
            }
            None
        },
    }
}

} // verus!
