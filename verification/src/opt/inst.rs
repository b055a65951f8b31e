//! Decoded instructions and their re-encoding with relocated jumps.
use vstd::prelude::*;

use crate::float_bits::{int_to_f64_bits, is_finite_bits, saturating_cast, saturating_cast_bits};
use crate::opcode::{byte_of_opcode, law_byte_roundtrip, opcode_of_byte, Opcode};
use crate::value::{Value, ValueView};

verus! {

/// The accumulator register.
pub const ACC: u8 = 255u8;

/// Number of registers.
pub const REG_COUNT: usize = 256usize;

/// A decoded instruction: its operation, operand fields, resolved branch
/// target and whether a pass removed it.
#[derive(Clone, Copy, PartialEq, Eq, Structural, Debug)]
pub struct Instruction {
    pub opcode: Opcode,
    pub a: u8,
    pub b: u8,
    pub c: u8,
    pub bx: u16,
    pub sbx: i16,
    pub target: Option<usize>,
    pub removed: bool,
}

/// Jumps whose offset is the signed 16-bit B/C field.
pub open spec fn is_wide_jump(op: Opcode) -> bool {
    op == Opcode::Jmp || op == Opcode::JmpTrue || op == Opcode::JmpFalse || op == Opcode::LoopIncJmp
        || op == Opcode::Try || op == Opcode::IncJmpFalseLoop || op == Opcode::IncAccJmp || op
        == Opcode::TestJmpTrue
}

/// Compare-and-jump on A and B whose signed 8-bit offset is in C.
pub open spec fn is_c_offset_jump(op: Opcode) -> bool {
    op == Opcode::JmpEq || op == Opcode::JmpNeq || op == Opcode::JmpLt || op == Opcode::JmpLte || op
        == Opcode::JmpLteFalse
}

/// Compare-and-jump on B and C whose signed 8-bit offset is in A.
pub open spec fn is_a_offset_jump(op: Opcode) -> bool {
    op == Opcode::EqJmpTrue || op == Opcode::LtJmp || op == Opcode::EqJmpFalse || op
        == Opcode::LteJmpLoop
}

/// Operations whose B/C field is an unsigned 16-bit index.
pub open spec fn is_wide_index(op: Opcode) -> bool {
    op == Opcode::LoadK || op == Opcode::LoadGlobalIc || op == Opcode::SetGlobalIc || op
        == Opcode::NewFunc || op == Opcode::GetGlobal || op == Opcode::SetGlobal || op
        == Opcode::ResolveScope || op == Opcode::LoadName || op == Opcode::StoreName || op
        == Opcode::TypeofName || op == Opcode::LoadKAddAcc || op == Opcode::LoadKMulAcc || op
        == Opcode::LoadKSubAcc || op == Opcode::CallMethod1 || op == Opcode::CallMethod2 || op
        == Opcode::Enter
}

pub fn wide_jump(op: Opcode) -> (r: bool)
    ensures
        r == is_wide_jump(op),
{
    op == Opcode::Jmp || op == Opcode::JmpTrue || op == Opcode::JmpFalse || op == Opcode::LoopIncJmp
        || op == Opcode::Try || op == Opcode::IncJmpFalseLoop || op == Opcode::IncAccJmp || op
        == Opcode::TestJmpTrue
}

pub fn c_offset_jump(op: Opcode) -> (r: bool)
    ensures
        r == is_c_offset_jump(op),
{
    op == Opcode::JmpEq || op == Opcode::JmpNeq || op == Opcode::JmpLt || op == Opcode::JmpLte || op
        == Opcode::JmpLteFalse
}

pub fn a_offset_jump(op: Opcode) -> (r: bool)
    ensures
        r == is_a_offset_jump(op),
{
    op == Opcode::EqJmpTrue || op == Opcode::LtJmp || op == Opcode::EqJmpFalse || op
        == Opcode::LteJmpLoop
}

fn wide_index(op: Opcode) -> (r: bool)
    ensures
        r == is_wide_index(op),
{
    op == Opcode::LoadK || op == Opcode::LoadGlobalIc || op == Opcode::SetGlobalIc || op
        == Opcode::NewFunc || op == Opcode::GetGlobal || op == Opcode::SetGlobal || op
        == Opcode::ResolveScope || op == Opcode::LoadName || op == Opcode::StoreName || op
        == Opcode::TypeofName || op == Opcode::LoadKAddAcc || op == Opcode::LoadKMulAcc || op
        == Opcode::LoadKSubAcc || op == Opcode::CallMethod1 || op == Opcode::CallMethod2 || op
        == Opcode::Enter
}

/// A position, negative ones moved to 0.
pub open spec fn clamp0(x: int) -> usize {
    if x < 0 {
        0
    } else {
        x as usize
    }
}

/// Programs this optimizer takes: short enough that positions and offsets
/// are exact in every arithmetic it does.
pub open spec fn program_fits(len: nat) -> bool {
    len < 0x10_0000_0000_0000 && len + 0x1_0000 <= usize::MAX
}

/// The branch target of a jump at `pc`: `pc + 1 + offset`, clamped at 0.
pub open spec fn branch_target(op: Opcode, pc: int, a: u8, c: u8, sbx: i16) -> Option<usize> {
    if is_wide_jump(op) {
        Some(clamp0(pc + 1 + sbx))
    } else if is_c_offset_jump(op) {
        Some(clamp0(pc + 1 + (c as i8)))
    } else if is_a_offset_jump(op) {
        Some(clamp0(pc + 1 + (a as i8)))
    } else {
        None
    }
}

pub fn decode_branch_target(opcode: Opcode, pc: usize, a: u8, _b: u8, c: u8, sbx: i16) -> (r:
    Option<usize>)
    requires
        program_fits(pc as nat),
    ensures
        r == branch_target(opcode, pc as int, a, c, sbx),
{
    let next: i64 = pc as i64 + 1;
    let target: i64 = if wide_jump(opcode) {
        next + sbx as i64
    } else if c_offset_jump(opcode) {
        next + (c as i8) as i64
    } else if a_offset_jump(opcode) {
        next + (a as i8) as i64
    } else {
        return None;
    };
    Some(
        if target < 0 {
            0
        } else {
            target as usize
        },
    )
}

/// The instruction that the word `raw` at `pc` decodes to.
pub open spec fn decoded(pc: usize, raw: u32) -> Instruction {
    let op = opcode_of_byte((raw & 0xffu32) as u8);
    let a = ((raw >> 8u32) & 0xffu32) as u8;
    let b = ((raw >> 16u32) & 0xffu32) as u8;
    let c = ((raw >> 24u32) & 0xffu32) as u8;
    let bx = ((raw >> 16u32) & 0xffffu32) as u16;
    Instruction {
        opcode: op,
        a,
        b,
        c,
        bx,
        sbx: bx as i16,
        target: branch_target(op, pc as int, a, c, bx as i16),
        removed: false,
    }
}

/// The word of an operation with fields C, B, A.
pub open spec fn word(c: u32, b: u32, a: u32, op: Opcode) -> u32 {
    (c << 24u32) | (b << 16u32) | (a << 8u32) | (byte_of_opcode(op) as u32)
}

/// The word of an operation with a 16-bit field and A.
pub open spec fn wide_word(x: u16, a: u8, op: Opcode) -> u32 {
    ((x as u32) << 16u32) | ((a as u32) << 8u32) | (byte_of_opcode(op) as u32)
}

/// The relocated offset of a jump at `pc`: from the new position of `pc`
/// to the new position of its target (the next instruction when it has
/// none), the target clamped to the end.
pub open spec fn relocated_offset(i: Instruction, pc: usize, boundary: Seq<usize>) -> int {
    let t = match i.target {
        Some(t) => t as int,
        None => pc + 1,
    };
    let t2 = if t > boundary.len() - 1 {
        boundary.len() - 1
    } else {
        t
    };
    boundary[t2] - (boundary[pc as int] + 1)
}

/// The word an instruction at `pc` encodes to once removed instructions
/// are dropped, or `None` when its relocated offset does not fit its field.
pub open spec fn encoded(i: Instruction, pc: usize, boundary: Seq<usize>) -> Option<u32> {
    let off = relocated_offset(i, pc, boundary);
    if is_wide_jump(i.opcode) {
        if i16::MIN <= off <= i16::MAX {
            Some(wide_word((off as i16) as u16, i.a, i.opcode))
        } else {
            None
        }
    } else if is_c_offset_jump(i.opcode) {
        if i8::MIN <= off <= i8::MAX {
            Some(word(((off as i8) as u8) as u32, i.b as u32, i.a as u32, i.opcode))
        } else {
            None
        }
    } else if is_a_offset_jump(i.opcode) {
        if i8::MIN <= off <= i8::MAX {
            Some(word(i.c as u32, i.b as u32, ((off as i8) as u8) as u32, i.opcode))
        } else {
            None
        }
    } else if i.opcode == Opcode::LoadI {
        Some(wide_word(i.sbx as u16, i.a, i.opcode))
    } else if is_wide_index(i.opcode) {
        Some(wide_word(i.bx, i.a, i.opcode))
    } else {
        Some(word(i.c as u32, i.b as u32, i.a as u32, i.opcode))
    }
}

impl Instruction {
    pub fn decode(pc: usize, raw: u32) -> (r: Self)
        requires
            program_fits(pc as nat),
        ensures
            r == decoded(pc, raw),
    {
        let opcode = Opcode::from_u8((raw & 0xff) as u8);
        let a = ((raw >> 8) & 0xff) as u8;
        let b = ((raw >> 16) & 0xff) as u8;
        let c = ((raw >> 24) & 0xff) as u8;
        let bx = ((raw >> 16) & 0xffff) as u16;
        let sbx = bx as i16;
        let target = decode_branch_target(opcode, pc, a, b, c, sbx);
        Instruction { opcode, a, b, c, bx, sbx, target, removed: false }
    }

    /// The word of the instruction at `pc` with jumps relocated through
    /// `boundary`; `None` when a relocated offset does not fit its field.
    pub fn encode(&self, pc: usize, boundary: &Vec<usize>) -> (r: Option<u32>)
        requires
            pc + 1 < boundary@.len(),
            boundary@.len() <= 0x10_0000_0000_0000,
            forall|k: int| 0 <= k < boundary@.len() ==> #[trigger] boundary@[k] < 0x10_0000_0000_0000,
        ensures
            r == encoded(*self, pc, boundary@),
    {
        let blen: usize = boundary.len();
        let op_byte: u32 = self.opcode.as_u8() as u32;
        let wide = wide_jump(self.opcode);
        let cj = c_offset_jump(self.opcode);
        let aj = a_offset_jump(self.opcode);
        if wide || cj || aj {
            let t: usize = match self.target {
                Some(t) => t,
                None => pc + 1,
            };
            let last: usize = blen - 1;
            let t2: usize = if t > last {
                last
            } else {
                t
            };
            let offset: i64 = boundary[t2] as i64 - (boundary[pc] as i64 + 1);
            if wide {
                if offset < -32768 || offset > 32767 {
                    return None;
                }
                let sbx = offset as i16;
                return Some((((sbx as u16) as u32) << 16) | ((self.a as u32) << 8) | op_byte);
            }
            if offset < -128 || offset > 127 {
                return None;
            }
            let o = (offset as i8) as u8;
            if cj {
                return Some(((o as u32) << 24) | ((self.b as u32) << 16) | ((self.a as u32) << 8)
                    | op_byte);
            }
            return Some(((self.c as u32) << 24) | ((self.b as u32) << 16) | ((o as u32) << 8)
                | op_byte);
        }
        if self.opcode == Opcode::LoadI {
            return Some((((self.sbx as u16) as u32) << 16) | ((self.a as u32) << 8) | op_byte);
        }
        if wide_index(self.opcode) {
            return Some(((self.bx as u32) << 16) | ((self.a as u32) << 8) | op_byte);
        }
        Some(((self.c as u32) << 24) | ((self.b as u32) << 16) | ((self.a as u32) << 8) | op_byte)
    }

    /// The instruction `LoadI dst, value`.
    pub open spec fn load_i_spec(dst: u8, value: i16) -> Instruction {
        Instruction {
            opcode: Opcode::LoadI,
            a: dst,
            b: 0,
            c: 0,
            bx: value as u16,
            sbx: value,
            target: None,
            removed: false,
        }
    }

    /// `LoadI dst, value`.
    pub fn new_load_i(dst: u8, value: i16) -> (r: Self)
        ensures
            r == (Instruction {
                opcode: Opcode::LoadI,
                a: dst,
                b: 0,
                c: 0,
                bx: value as u16,
                sbx: value,
                target: None,
                removed: false,
            }),
    {
        Instruction {
            opcode: Opcode::LoadI,
            a: dst,
            b: 0,
            c: 0,
            bx: value as u16,
            sbx: value,
            target: None,
            removed: false,
        }
    }

    /// `Mov dst, src`.
    pub fn new_mov(dst: u8, src: u8) -> (r: Self)
        ensures
            r == (Instruction {
                opcode: Opcode::Mov,
                a: dst,
                b: src,
                c: 0,
                bx: src as u16,
                sbx: src as i16,
                target: None,
                removed: false,
            }),
    {
        Instruction {
            opcode: Opcode::Mov,
            a: dst,
            b: src,
            c: 0,
            bx: src as u16,
            sbx: src as i16,
            target: None,
            removed: false,
        }
    }

    /// `LoadK dst, index`.
    pub fn new_load_k(dst: u8, index: u16) -> (r: Self)
        ensures
            r == (Instruction {
                opcode: Opcode::LoadK,
                a: dst,
                b: 0,
                c: 0,
                bx: index,
                sbx: index as i16,
                target: None,
                removed: false,
            }),
    {
        Instruction {
            opcode: Opcode::LoadK,
            a: dst,
            b: 0,
            c: 0,
            bx: index,
            sbx: index as i16,
            target: None,
            removed: false,
        }
    }
}

/// The instructions of a program, decoded in order.
pub open spec fn decoded_program(bytecode: Seq<u32>) -> Seq<Instruction> {
    Seq::new(bytecode.len(), |pc: int| decoded(pc as usize, bytecode[pc]))
}

pub fn decode_program(bytecode: &Vec<u32>) -> (r: Vec<Instruction>)
    requires
        program_fits(bytecode@.len()),
    ensures
        r@ == decoded_program(bytecode@),
{
    let mut out: Vec<Instruction> = Vec::new();
    let mut pc: usize = 0;
    while pc < bytecode.len()
        invariant
            pc <= bytecode@.len(),
            program_fits(bytecode@.len()),
            out@ == decoded_program(bytecode@).take(pc as int),
        decreases bytecode@.len() - pc,
    {
        out.push(Instruction::decode(pc, bytecode[pc]));
        proof {
            assert(decoded_program(bytecode@).take(pc + 1) =~= decoded_program(bytecode@).take(
                pc as int,
            ).push(decoded(pc, bytecode@[pc as int])));
        }
        pc = pc + 1;
    }
    proof {
        assert(decoded_program(bytecode@).take(bytecode@.len() as int) =~= decoded_program(
            bytecode@,
        ));
    }
    out
}

/// Number of instructions before position `n` that were not removed.
pub open spec fn live_before(s: Seq<Instruction>, n: int) -> nat
    decreases n,
{
    if n <= 0 {
        0
    } else {
        live_before(s, n - 1) + if s[n - 1].removed {
            0nat
        } else {
            1nat
        }
    }
}

pub proof fn lemma_live_before_mono(s: Seq<Instruction>, i: int, j: int)
    requires
        0 <= i <= j,
    ensures
        live_before(s, i) <= live_before(s, j),
        live_before(s, j) <= live_before(s, i) + (j - i),
    decreases j - i,
{
    if i < j {
        lemma_live_before_mono(s, i, j - 1);
    }
}

/// Some instruction was removed.
pub fn has_removed_instructions(insts: &Vec<Instruction>) -> (r: bool)
    ensures
        r == exists|i: int| 0 <= i < insts@.len() && (#[trigger] insts@[i]).removed,
{
    let mut i: usize = 0;
    while i < insts.len()
        invariant
            i <= insts@.len(),
            forall|k: int| 0 <= k < i ==> !(#[trigger] insts@[k]).removed,
        decreases insts@.len() - i,
    {
        if insts[i].removed {
            return true;
        }
        i = i + 1;
    }
    false
}

/// Where each position lands once removed instructions are dropped: the
/// number of kept instructions before it (the last entry is the new
/// length).
pub fn build_boundary_map(insts: &Vec<Instruction>) -> (r: Vec<usize>)
    requires
        insts@.len() < usize::MAX,
    ensures
        r@.len() == insts@.len() + 1,
        forall|i: int| 0 <= i <= insts@.len() ==> #[trigger] r@[i] == live_before(insts@, i),
{
    let n = insts.len();
    let mut total: usize = 0;
    let mut i: usize = 0;
    while i < n
        invariant
            n == insts@.len(),
            i <= n,
            total == live_before(insts@, i as int),
            total <= i,
        decreases n - i,
    {
        if !insts[i].removed {
            total = total + 1;
        }
        i = i + 1;
    }
    let mut boundary: Vec<usize> = Vec::new();
    let mut k: usize = 0;
    while k < n + 1
        invariant
            n == insts@.len(),
            n < usize::MAX,
            k <= n + 1,
            boundary@.len() == k,
            forall|j: int| 0 <= j < k ==> #[trigger] boundary@[j] == 0,
        decreases n + 1 - k,
    {
        boundary.push(0);
        k = k + 1;
    }
    let mut next: usize = total;
    boundary.set(n, next);
    let mut index: usize = n;
    while index > 0
        invariant
            n == insts@.len(),
            index <= n,
            boundary@.len() == n + 1,
            next == live_before(insts@, index as int),
            forall|j: int| index <= j <= n ==> #[trigger] boundary@[j] == live_before(insts@, j),
        decreases index,
    {
        index = index - 1;
        if !insts[index].removed {
            next = next - 1;
        }
        boundary.set(index, next);
    }
    boundary
}


/// A constant read as a number and cast to an integer range `lo..=hi` the
/// way a double is cast: integers clamp, doubles saturate (NaN gives 0);
/// other values are not numbers.
pub open spec fn const_int(v: ValueView, lo: int, hi: int) -> Option<int> {
    match v {
        ValueView::Int(i) => Some(crate::float_bits::clamp(i as int, lo, hi)),
        ValueView::Number(b) => Some(saturating_cast(b, lo, hi)),
        _ => None,
    }
}

pub fn constant_int(v: Value, lo: i128, hi: i128) -> (r: Option<i128>)
    requires
        -0x1_0000_0000_0000_0000 < lo <= 0 <= hi < 0x1_0000_0000_0000_0000,
    ensures
        r == match const_int(v@, lo as int, hi as int) {
            Some(x) => Some(x as i128),
            None => None::<i128>,
        },
{
    if let Some(i) = v.as_i32() {
        let x: i128 = i as i128;
        return Some(
            if x < lo {
                lo
            } else if x > hi {
                hi
            } else {
                x
            },
        );
    }
    match v.as_f64() {
        Some(bits) => Some(saturating_cast_bits(bits, lo, hi)),
        None => None,
    }
}

/// The constant at `k`, if the pool has one.
pub open spec fn const_at(cs: Seq<Value>, k: int, lo: int, hi: int) -> Option<int> {
    if 0 <= k < cs.len() {
        const_int(cs[k]@, lo, hi)
    } else {
        None
    }
}

/// The targets of the first `n` cases of the switch table at `table`.
pub open spec fn case_targets(pc: usize, table: int, cs: Seq<Value>, n: nat) -> Seq<usize>
    decreases n,
{
    if n == 0 {
        Seq::empty()
    } else {
        let prev = case_targets(pc, table, cs, (n - 1) as nat);
        match const_at(cs, table + 2 + (n - 1) * 2 + 1, i16::MIN as int, i16::MAX as int) {
            Some(off) => prev.push(clamp0(pc + 1 + off)),
            None => prev,
        }
    }
}

/// The targets of the switch at `pc` whose table starts at `table`: the
/// default target, then one per case whose offset is a number.
pub open spec fn switch_targets_of(pc: usize, table: int, cs: Seq<Value>) -> Seq<usize> {
    match const_at(cs, table, 0, usize::MAX as int) {
        None => Seq::empty(),
        Some(count) => {
            let d = match const_at(cs, table + 1, i16::MIN as int, i16::MAX as int) {
                Some(off) => seq![clamp0(pc + 1 + off)],
                None => Seq::empty(),
            };
            d + case_targets(pc, table, cs, count as nat)
        },
    }
}

proof fn lemma_case_targets_past_end(pc: usize, table: int, cs: Seq<Value>, k: nat, n: nat)
    requires
        k <= n,
        table >= 0,
        table + 2 + k * 2 + 1 >= cs.len(),
    ensures
        case_targets(pc, table, cs, n) == case_targets(pc, table, cs, k),
    decreases n - k,
{
    if n > k {
        lemma_case_targets_past_end(pc, table, cs, k, (n - 1) as nat);
        assert(table + 2 + (n - 1) * 2 + 1 >= cs.len()) by (nonlinear_arith)
            requires
                n - 1 >= k,
                table + 2 + k * 2 + 1 >= cs.len(),
        ;
    }
}

/// The branch targets of a switch: the default and each case that has a
/// numeric offset, each `pc + 1 + offset` clamped at 0.
pub fn switch_targets(pc: usize, table_index: usize, constants: &Vec<Value>) -> (r: Vec<usize>)
    requires
        program_fits(pc as nat),
        table_index <= 255,
    ensures
        r@ == switch_targets_of(pc, table_index as int, constants@),
{
    let n = constants.len();
    if table_index >= n {
        return Vec::new();
    }
    let count = match constant_int(constants[table_index], 0, usize::MAX as i128) {
        Some(c) => c as usize,
        None => {
            return Vec::new();
        },
    };
    let mut targets: Vec<usize> = Vec::new();
    if table_index + 1 < n {
        if let Some(off) = constant_int(constants[table_index + 1], -32768, 32767) {
            let t: i128 = pc as i128 + 1 + off;
            targets.push(
                if t < 0 {
                    0
                } else {
                    t as usize
                },
            );
        }
    }
    let ghost d = targets@;
    proof {
        assert(targets@ =~= d + case_targets(pc, table_index as int, constants@, 0));
    }
    let mut case_index: usize = 0;
    while case_index < count
        invariant
            n == constants@.len(),
            program_fits(pc as nat),
            table_index < n,
            case_index <= count,
            targets@ == d + case_targets(pc, table_index as int, constants@, case_index as nat),
            d == match const_at(constants@, table_index + 1, i16::MIN as int, i16::MAX as int) {
                Some(off) => seq![clamp0(pc + 1 + off)],
                None => Seq::<usize>::empty(),
            },
            const_at(constants@, table_index as int, 0, usize::MAX as int) == Some(count as int),
        ensures
            targets@ == d + case_targets(pc, table_index as int, constants@, count as nat),
        decreases count - case_index,
    {
        let wide_index: u128 = table_index as u128 + 2 + case_index as u128 * 2 + 1;
        if wide_index >= n as u128 {
            proof {
                lemma_case_targets_past_end(pc, table_index as int, constants@, case_index as nat, count as nat);
            }
            break;
        }
        let offset_index: usize = wide_index as usize;
        if let Some(off) = constant_int(constants[offset_index], -32768, 32767) {
            let t: i128 = pc as i128 + 1 + off;
            targets.push(
                if t < 0 {
                    0
                } else {
                    t as usize
                },
            );
        }
        proof {
            assert(targets@ =~= d + case_targets(pc, table_index as int, constants@, (case_index + 1) as nat));
        }
        case_index = case_index + 1;
    }
    targets
}


proof fn lemma_finite_unboxed(b: u64)
    requires
        is_finite_bits(b),
    ensures
        !crate::value::is_boxed(b),
{
    assert(((b >> 52u64) & 0x7ffu64) != 0x7ffu64 ==> (b & 0x7ffc_0000_0000_0000u64)
        != 0x7ffc_0000_0000_0000u64) by (bit_vector);
}

/// A double value holding the integer `x`.
pub fn number_value(x: i64) -> (r: Value)
    requires
        -0x20_0000_0000_0000 < x < 0x20_0000_0000_0000,
    ensures
        r@ is Number,
        is_finite_bits(r@->Number_0),
        crate::float_bits::is_integral_bits(r@->Number_0),
        crate::float_bits::trunc_value(r@->Number_0) == x,
{
    let bits = int_to_f64_bits(x);
    proof {
        lemma_finite_unboxed(bits);
    }
    Value::from_f64_bits(bits)
}

/// Where each position lands once removed instructions are dropped.
pub open spec fn boundary_of(s: Seq<Instruction>) -> Seq<usize> {
    Seq::new(s.len() + 1, |i: int| live_before(s, i) as usize)
}

/// The boundary map describes `s`.
pub open spec fn is_boundary(b: Seq<usize>, s: Seq<Instruction>) -> bool {
    &&& b.len() == s.len() + 1
    &&& forall|i: int| 0 <= i <= s.len() ==> #[trigger] b[i] == live_before(s, i)
}

proof fn lemma_boundary_bounds(b: Seq<usize>, s: Seq<Instruction>)
    requires
        is_boundary(b, s),
    ensures
        forall|i: int| 0 <= i <= s.len() ==> #[trigger] b[i] <= i,
{
    assert forall|i: int| 0 <= i <= s.len() implies #[trigger] b[i] <= i by {
        lemma_live_before_mono(s, 0, i);
    }
}

/// `v` is a double that holds the integer `x`.
pub open spec fn holds_number(v: Value, x: int) -> bool {
    &&& v@ is Number
    &&& is_finite_bits(v@->Number_0)
    &&& crate::float_bits::is_integral_bits(v@->Number_0)
    &&& crate::float_bits::trunc_value(v@->Number_0) == x
}

/// The new position of the target `off` words past the instruction after
/// `pc`, the old target clamped to the program.
pub open spec fn slot_target(off: int, pc: int, boundary: Seq<usize>, ninsts: int) -> int {
    let t = pc + 1 + off;
    let old_target = if t < 0 {
        0
    } else {
        t
    };
    let clamped = if old_target > ninsts {
        ninsts
    } else {
        old_target
    };
    boundary[clamped] as int
}

/// A switch-table offset relocated: a slot that holds a number gets the
/// offset from `base` of its target's new position; any other slot stays.
pub open spec fn slot_moved(before: Value, after: Value, pc: int, base: int, boundary: Seq<usize>, ninsts: int) -> bool {
    match const_int(before@, -32768, 32767) {
        Some(off) => holds_number(after, slot_target(off, pc, boundary, ninsts) - base),
        None => after == before,
    }
}

/// Moves the target of a switch-table slot through `boundary`.
fn relocate_slot(
    constants: &mut Vec<Value>,
    slot: usize,
    pc: usize,
    base: i64,
    boundary: &Vec<usize>,
    ninsts: usize,
)
    requires
        program_fits(ninsts as nat),
        pc < ninsts,
        0 < base <= ninsts + 1,
        boundary@.len() == ninsts + 1,
        forall|i: int| 0 <= i <= ninsts ==> #[trigger] boundary@[i] <= i,
    ensures
        final(constants)@.len() == old(constants)@.len(),
        forall|k: int|
            0 <= k < old(constants)@.len() ==> #[trigger] final(constants)@[k] == old(constants)@[k]
                || final(constants)@[k]@ is Number,
        forall|k: int| 0 <= k < old(constants)@.len() && k != slot ==> #[trigger] final(constants)@[k] == old(constants)@[k],
        slot < old(constants)@.len() ==> slot_moved(
            old(constants)@[slot as int],
            final(constants)@[slot as int],
            pc as int,
            base as int,
            boundary@,
            ninsts as int,
        ),
{
    if slot < constants.len() {
        if let Some(off) = constant_int(constants[slot], -32768, 32767) {
            let t: i128 = pc as i128 + 1 + off;
            let old_target: usize = if t < 0 {
                0
            } else {
                t as usize
            };
            let clamped: usize = if old_target > ninsts {
                ninsts
            } else {
                old_target
            };
            let new_target: i64 = boundary[clamped] as i64;
            constants.set(slot, number_value(new_target - base));
        }
    }
}

/// Slot `k` is one that a switch with its table at `table` and `count`
/// cases relocates: the default offset, or the offset of a case.
pub open spec fn switch_slot(table: int, count: int, k: int) -> bool {
    k == table + 1 || (table + 3 <= k && (k - table - 3) % 2 == 0 && (k - table - 3) / 2 < count)
}

/// What rewriting the table of the instruction at `pc` does to the pool: a
/// kept switch whose table starts with a count relocates each of its
/// slots (`slot_moved`, from the switch's new position plus one); the
/// pool is otherwise unchanged.
pub open spec fn switch_step(
    insts: Seq<Instruction>,
    pc: int,
    before: Seq<Value>,
    after: Seq<Value>,
    boundary: Seq<usize>,
) -> bool {
    let inst = insts[pc];
    let table = inst.b as int;
    &&& after.len() == before.len()
    &&& if !inst.removed && inst.opcode == Opcode::Switch && table < before.len() && const_int(
        before[table]@,
        0,
        usize::MAX as int,
    ) is Some {
        let count = const_int(before[table]@, 0, usize::MAX as int)->Some_0;
        forall|k: int|
            0 <= k < before.len() ==> if switch_slot(table, count, k) {
                slot_moved(before[k], #[trigger] after[k], pc, boundary[pc] + 1, boundary, insts.len() as int)
            } else {
                after[k] == before[k]
            }
    } else {
        after == before
    }
}

/// `trace` holds the pool before each instruction's table is rewritten,
/// and after the last.
pub open spec fn switch_trace(
    insts: Seq<Instruction>,
    boundary: Seq<usize>,
    trace: Seq<Seq<Value>>,
) -> bool {
    &&& trace.len() == insts.len() + 1
    &&& forall|pc: int| 0 <= pc < insts.len() ==> switch_step(insts, pc, trace[pc], #[trigger] trace[pc + 1], boundary)
}

/// The pool after the tables of the switches are rewritten in program
/// order.
pub open spec fn tables_rewritten(
    insts: Seq<Instruction>,
    boundary: Seq<usize>,
    before: Seq<Value>,
    after: Seq<Value>,
) -> bool {
    exists|trace: Seq<Seq<Value>>|
        #[trigger] switch_trace(insts, boundary, trace) && trace[0] == before && trace.last() == after
}

/// Without a kept switch the pool comes back unchanged.
pub proof fn lemma_no_switch_keeps_pool(
    insts: Seq<Instruction>,
    boundary: Seq<usize>,
    before: Seq<Value>,
    after: Seq<Value>,
)
    requires
        tables_rewritten(insts, boundary, before, after),
        forall|pc: int| 0 <= pc < insts.len() ==> (#[trigger] insts[pc]).opcode != Opcode::Switch,
    ensures
        after == before,
{
    let trace = choose|trace: Seq<Seq<Value>>|
        #[trigger] switch_trace(insts, boundary, trace) && trace[0] == before && trace.last() == after;
    lemma_trace_keeps_pool(insts, boundary, trace, insts.len() as int);
}

proof fn lemma_trace_keeps_pool(insts: Seq<Instruction>, boundary: Seq<usize>, trace: Seq<Seq<Value>>, k: int)
    requires
        switch_trace(insts, boundary, trace),
        forall|pc: int| 0 <= pc < insts.len() ==> (#[trigger] insts[pc]).opcode != Opcode::Switch,
        0 <= k <= insts.len(),
    ensures
        trace[k] == trace[0],
    decreases k,
{
    if k > 0 {
        lemma_trace_keeps_pool(insts, boundary, trace, k - 1);
        assert(switch_step(insts, k - 1, trace[k - 1], trace[(k - 1) + 1], boundary));
        assert(insts[k - 1].opcode != Opcode::Switch);
    }
}

/// Rewrites the offsets of every kept switch's table so that they point at
/// the new positions of their targets.
pub fn rewrite_switch_tables(
    insts: &Vec<Instruction>,
    constants: &mut Vec<Value>,
    boundary: &Vec<usize>,
)
    requires
        program_fits(insts@.len()),
        is_boundary(boundary@, insts@),
    ensures
        final(constants)@.len() == old(constants)@.len(),
        forall|k: int|
            0 <= k < old(constants)@.len() ==> #[trigger] final(constants)@[k] == old(constants)@[k]
                || final(constants)@[k]@ is Number,
        tables_rewritten(insts@, boundary@, old(constants)@, final(constants)@),
{
    proof {
        lemma_boundary_bounds(boundary@, insts@);
    }
    let ninsts = insts.len();
    let mut pc: usize = 0;
    let ghost mut trace: Seq<Seq<Value>> = seq![constants@];
    while pc < ninsts
        invariant
            ninsts == insts@.len(),
            program_fits(ninsts as nat),
            boundary@.len() == ninsts + 1,
            forall|i: int| 0 <= i <= ninsts ==> #[trigger] boundary@[i] <= i,
            pc <= ninsts,
            constants@.len() == old(constants)@.len(),
            forall|k: int|
                0 <= k < old(constants)@.len() ==> #[trigger] constants@[k] == old(constants)@[k]
                    || constants@[k]@ is Number,
            trace.len() == pc + 1,
            trace[0] == old(constants)@,
            trace.last() == constants@,
            forall|q: int| 0 <= q < pc ==> switch_step(insts@, q, trace[q], #[trigger] trace[q + 1], boundary@),
        decreases ninsts - pc,
    {
        let ghost sw0 = constants@;
        let inst = insts[pc];
        if !inst.removed && inst.opcode == Opcode::Switch {
            let table: usize = inst.b as usize;
            let n = constants.len();
            if table < n {
                if let Some(c) = constant_int(constants[table], 0, usize::MAX as i128) {
                    let count: usize = c as usize;
                    let base: i64 = boundary[pc] as i64 + 1;
                    relocate_slot(constants, table + 1, pc, base, boundary, ninsts);
                    let mut case_index: usize = 0;
                    while case_index < count
                        invariant
                            ninsts == insts@.len(),
                            program_fits(ninsts as nat),
                            boundary@.len() == ninsts + 1,
                            forall|i: int| 0 <= i <= ninsts ==> #[trigger] boundary@[i] <= i,
                            pc < ninsts,
                            0 < base <= ninsts + 1,
                            base == boundary@[pc as int] + 1,
                            case_index <= count,
                            table <= 255,
                            n == constants@.len(),
                            n == sw0.len(),
                            constants@.len() == old(constants)@.len(),
                            forall|k: int|
                                0 <= k < old(constants)@.len() ==> #[trigger] constants@[k] == old(
                                    constants,
                                )@[k] || constants@[k]@ is Number,
                            forall|k: int|
                                0 <= k < n ==> if switch_slot(table as int, case_index as int, k) {
                                    slot_moved(sw0[k], #[trigger] constants@[k], pc as int, base as int, boundary@, ninsts as int)
                                } else {
                                    constants@[k] == sw0[k]
                                },
                        ensures
                            n == constants@.len(),
                            constants@.len() == old(constants)@.len(),
                            forall|k: int|
                                0 <= k < old(constants)@.len() ==> #[trigger] constants@[k] == old(
                                    constants,
                                )@[k] || constants@[k]@ is Number,
                            forall|k: int|
                                0 <= k < n ==> if switch_slot(table as int, count as int, k) {
                                    slot_moved(sw0[k], #[trigger] constants@[k], pc as int, base as int, boundary@, ninsts as int)
                                } else {
                                    constants@[k] == sw0[k]
                                },
                        decreases count - case_index,
                    {
                        let wide_index: u128 = table as u128 + 2 + case_index as u128 * 2 + 1;
                        if wide_index >= n as u128 {
                            proof {
                                assert forall|k: int| 0 <= k < n implies (switch_slot(table as int, count as int, k)
                                    == switch_slot(table as int, case_index as int, k)) by {
                                    if table + 3 <= k && (k - table - 3) % 2 == 0 && (k - table - 3) / 2 < count {
                                        assert((k - table - 3) / 2 < case_index);
                                    }
                                }
                            }
                            break;
                        }
                        let ghost mid = constants@;
                        relocate_slot(constants, wide_index as usize, pc, base, boundary, ninsts);
                        proof {
                            let w = wide_index as int;
                            assert((w - table - 3) % 2 == 0 && (w - table - 3) / 2 == case_index);
                            assert forall|k: int| 0 <= k < n implies if switch_slot(table as int, case_index + 1, k) {
                                slot_moved(sw0[k], #[trigger] constants@[k], pc as int, base as int, boundary@, ninsts as int)
                            } else {
                                constants@[k] == sw0[k]
                            } by {
                                if k != w {
                                    assert(constants@[k] == mid[k]);
                                    if table + 3 <= k && (k - table - 3) % 2 == 0 {
                                        assert((k - table - 3) / 2 != case_index);
                                    }
                                } else {
                                    assert(!switch_slot(table as int, case_index as int, k));
                                }
                            }
                        }
                        case_index = case_index + 1;
                    }
                }
            }
        }
        proof {
            assert(switch_step(insts@, pc as int, sw0, constants@, boundary@));
            let before = trace;
            trace = trace.push(constants@);
            assert forall|q: int| 0 <= q < pc + 1 implies switch_step(insts@, q, trace[q], #[trigger] trace[q + 1], boundary@) by {
                if q < pc {
                    assert(trace[q] == before[q] && trace[q + 1] == before[q + 1]);
                }
            }
        }
        pc = pc + 1;
    }
    proof {
        assert(switch_trace(insts@, boundary@, trace));
    }
}

/// Encodes the kept instructions with relocated jumps and switch tables;
/// `None` when some relocated offset does not fit its field.
pub fn encode_program(insts: &Vec<Instruction>, constants: Vec<Value>) -> (r: Option<
    (Vec<u32>, Vec<Value>),
>)
    requires
        program_fits(insts@.len()),
    ensures
        match r {
            Some((bytecode, cs)) => {
                &&& bytecode@.len() == live_before(insts@, insts@.len() as int)
                &&& forall|pc: int|
                    0 <= pc < insts@.len() && !insts@[pc].removed ==> encoded(
                        insts@[pc],
                        pc as usize,
                        boundary_of(insts@),
                    ) == Some(#[trigger] bytecode@[live_before(insts@, pc) as int])
                &&& cs@.len() == constants@.len()
                &&& forall|k: int|
                    0 <= k < constants@.len() ==> #[trigger] cs@[k] == constants@[k] || cs@[k]@ is Number
                &&& tables_rewritten(insts@, boundary_of(insts@), constants@, cs@)
            },
            None => exists|pc: int|
                0 <= pc < insts@.len() && !insts@[pc].removed && encoded(
                    #[trigger] insts@[pc],
                    pc as usize,
                    boundary_of(insts@),
                ) is None,
        },
{
    let boundary = build_boundary_map(insts);
    proof {
        lemma_boundary_bounds(boundary@, insts@);
        assert(boundary@ =~= boundary_of(insts@));
    }
    let ninsts = insts.len();
    let mut bytecode: Vec<u32> = Vec::new();
    let mut pc: usize = 0;
    while pc < ninsts
        invariant
            ninsts == insts@.len(),
            program_fits(ninsts as nat),
            boundary@ == boundary_of(insts@),
            forall|i: int| 0 <= i <= ninsts ==> #[trigger] boundary@[i] <= i,
            pc <= ninsts,
            bytecode@.len() == live_before(insts@, pc as int),
            forall|q: int|
                0 <= q < pc && !insts@[q].removed ==> encoded(
                    insts@[q],
                    q as usize,
                    boundary_of(insts@),
                ) == Some(#[trigger] bytecode@[live_before(insts@, q) as int]),
        decreases ninsts - pc,
    {
        proof {
            lemma_live_before_mono(insts@, pc as int, pc + 1);
        }
        if !insts[pc].removed {
            match insts[pc].encode(pc, &boundary) {
                Some(w) => {
                    bytecode.push(w);
                },
                None => {
                    return None;
                },
            }
        }
        proof {
            assert forall|q: int|
                0 <= q < pc + 1 && !insts@[q].removed implies encoded(
                insts@[q],
                q as usize,
                boundary_of(insts@),
            ) == Some(#[trigger] bytecode@[live_before(insts@, q) as int]) by {
                if q < pc {
                    lemma_live_before_mono(insts@, q + 1, pc as int);
                }
            }
        }
        pc = pc + 1;
    }
    let mut constants = constants;
    rewrite_switch_tables(insts, &mut constants, &boundary);
    Some((bytecode, constants))
}


/// Every jump of the program, read at its position, lands inside the
/// program (at most one past its end) without clamping.
pub open spec fn jumps_in_range(bytecode: Seq<u32>) -> bool {
    forall|pc: int|
        0 <= pc < bytecode.len() ==> {
            let i = #[trigger] decoded(pc as usize, bytecode[pc]);
            &&& is_wide_jump(i.opcode) ==> 0 <= pc + 1 + i.sbx <= bytecode.len()
            &&& is_c_offset_jump(i.opcode) ==> 0 <= pc + 1 + (i.c as i8) <= bytecode.len()
            &&& is_a_offset_jump(i.opcode) ==> 0 <= pc + 1 + (i.a as i8) <= bytecode.len()
        }
}

pub proof fn lemma_all_kept(s: Seq<Instruction>, n: int)
    requires
        0 <= n <= s.len(),
        forall|i: int| 0 <= i < s.len() ==> !(#[trigger] s[i]).removed,
    ensures
        live_before(s, n) == n,
    decreases n,
{
    if n > 0 {
        lemma_all_kept(s, n - 1);
    }
}

proof fn lemma_word_fields(raw: u32)
    ensures
        ((((raw >> 16u32) & 0xffffu32) as u16) as u32) << 16u32 | ((((raw >> 8u32) & 0xffu32) as u8) as u32)
            << 8u32 | (raw & 0xffu32) == raw,
        ((((raw >> 24u32) & 0xffu32) as u8) as u32) << 24u32 | ((((raw >> 16u32) & 0xffu32) as u8) as u32)
            << 16u32 | ((((raw >> 8u32) & 0xffu32) as u8) as u32) << 8u32 | (raw & 0xffu32) == raw,
{
    assert(((((raw >> 16u32) & 0xffffu32) as u16) as u32) << 16u32 | ((((raw >> 8u32) & 0xffu32) as u8) as u32)
        << 8u32 | (raw & 0xffu32) == raw) by (bit_vector);
    assert(((((raw >> 24u32) & 0xffu32) as u8) as u32) << 24u32 | ((((raw >> 16u32) & 0xffu32) as u8) as u32)
        << 16u32 | ((((raw >> 8u32) & 0xffu32) as u8) as u32) << 8u32 | (raw & 0xffu32) == raw) by (bit_vector);
}

proof fn lemma_small_casts(x: u8, y: u16)
    ensures
        ((x as i8) as u8) == x,
        ((y as i16) as u16) == y,
{
    assert(((x as i8) as u8) == x) by (bit_vector);
    assert(((y as i16) as u16) == y) by (bit_vector);
}

/// With nothing removed, an instruction whose jump lands inside the
/// program encodes back to the word it was decoded from.
pub proof fn law_encode_decoded(bytecode: Seq<u32>, pc: int)
    requires
        program_fits(bytecode.len()),
        0 <= pc < bytecode.len(),
        jumps_in_range(bytecode),
    ensures
        encoded(
            decoded(pc as usize, bytecode[pc]),
            pc as usize,
            boundary_of(decoded_program(bytecode)),
        ) == Some(bytecode[pc]),
{
    let s = decoded_program(bytecode);
    let raw = bytecode[pc];
    let i = decoded(pc as usize, raw);
    assert(s[pc] == i);
    let b = boundary_of(s);
    assert forall|k: int| 0 <= k <= s.len() implies #[trigger] b[k] == k by {
        lemma_all_kept(s, k);
    }
    lemma_word_fields(raw);
    lemma_small_casts(i.c, i.bx);
    lemma_small_casts(i.a, i.bx);
    law_byte_roundtrip((raw & 0xffu32) as u8);
    assert((raw & 0xffu32) as u8 as u32 == raw & 0xffu32) by (bit_vector);
    assert(i.sbx as int == (i.bx as i16) as int);
}

/// With nothing removed and every jump inside the program, encoding the
/// decoded program gives back the same words.
/// A program whose jumps all land inside it encodes.
pub proof fn law_in_range_encodable(bytecode: Seq<u32>)
    requires
        program_fits(bytecode.len()),
        jumps_in_range(bytecode),
    ensures
        crate::opt::encodable(decoded_program(bytecode)),
{
    law_reencode_identity(bytecode);
    let s = decoded_program(bytecode);
    assert forall|pc: int| 0 <= pc < s.len() && !(#[trigger] s[pc]).removed implies encoded(
        s[pc],
        pc as usize,
        boundary_of(s),
    ) is Some by {
        assert(encoded(decoded_program(bytecode)[pc], pc as usize, boundary_of(decoded_program(bytecode))) == Some(bytecode[pc]));
    }
}

pub proof fn law_reencode_identity(bytecode: Seq<u32>)
    requires
        program_fits(bytecode.len()),
        jumps_in_range(bytecode),
    ensures
        live_before(decoded_program(bytecode), bytecode.len() as int) == bytecode.len(),
        forall|pc: int|
            0 <= pc < bytecode.len() ==> live_before(decoded_program(bytecode), pc) == pc && encoded(
                #[trigger] decoded_program(bytecode)[pc],
                pc as usize,
                boundary_of(decoded_program(bytecode)),
            ) == Some(bytecode[pc]),
{
    let s = decoded_program(bytecode);
    lemma_all_kept(s, bytecode.len() as int);
    assert forall|pc: int| 0 <= pc < bytecode.len() implies live_before(s, pc) == pc && encoded(
        #[trigger] s[pc],
        pc as usize,
        boundary_of(s),
    ) == Some(bytecode[pc]) by {
        lemma_all_kept(s, pc);
        law_encode_decoded(bytecode, pc);
    }
}

} // verus!
