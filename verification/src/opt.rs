//! The bytecode optimizer: decoding into instructions, block-local passes
//! (constant folding, peephole fusion, copy propagation, register
//! coalescing, dead-definition removal, nullish-check folding), jump
//! threading, register reuse by linear scan, and re-encoding with relocated
//! jumps.

pub mod inst;
pub mod dead;
pub mod peephole;
pub mod values;
pub mod liveness;
pub mod dataflow;
pub mod blocks;

use vstd::prelude::*;

use crate::codegen::CompiledBytecode;
use crate::float_bits::{bits_is_infinite, bits_is_integral, bits_is_nan, bits_is_zero, saturating_cast_bits};
use crate::opt::blocks::{
    block_end, blocks_ok, collect_block_leaders, leaders_exact, only_jumps_threaded, pass_rel, run_block_pass,
    thread_jumps, thread_walk, BlockPass,
};
use crate::opt::inst::{
    boundary_of, decode_program, decoded_program, encode_program, encoded, has_removed_instructions,
    holds_number, jumps_in_range, law_reencode_identity, lemma_live_before_mono, live_before,
    lemma_no_switch_keeps_pool, number_value, program_fits, tables_rewritten, Instruction,
};
use crate::opt::values::{
    check_folded_at, extends_with_bools, fold_temporary_checks_block, fresh_bools, known_at,
    lemma_check_folded_frame, lemma_fresh_bools_len, lemma_fresh_bools_trans, lemma_known_at_pool, load_k_of,
    loads_in_pool,
};
use crate::opt::liveness::reuse_result;
use crate::opcode::Opcode;
use crate::value::Value;

verus! {

/// What every pass guarantees of its result: no more instruction words
/// than it was given, and a constant pool that kept its size.
pub open spec fn pass_ok(bytecode: Seq<u32>, constants: Seq<Value>, r: Option<(Vec<u32>, Vec<Value>)>) -> bool {
    r matches Some((bc, cs)) ==> bc@.len() <= bytecode.len() && cs@.len() == constants.len()
}

/// Like `pass_ok`, with a constant pool that may have grown.
pub open spec fn pass_grows_ok(
    bytecode: Seq<u32>,
    constants: Seq<Value>,
    r: Option<(Vec<u32>, Vec<Value>)>,
) -> bool {
    r matches Some((bc, cs)) ==> bc@.len() <= bytecode.len() && cs@.len() >= constants.len()
}

/// `bc` is the encoding of the kept instructions of `s`, in order, with
/// every jump relocated past the removed ones.
pub open spec fn encodes(s: Seq<Instruction>, bc: Seq<u32>) -> bool {
    &&& bc.len() == live_before(s, s.len() as int)
    &&& forall|pc: int|
        0 <= pc < s.len() && !s[pc].removed ==> encoded(s[pc], pc as usize, boundary_of(s)) == Some(
            #[trigger] bc[live_before(s, pc) as int],
        )
}

/// Every kept instruction of `s` has an encoding at its relocated
/// position: no relocated offset overflows its field.
pub open spec fn encodable(s: Seq<Instruction>) -> bool {
    forall|pc: int|
        0 <= pc < s.len() && !(#[trigger] s[pc]).removed ==> encoded(s[pc], pc as usize, boundary_of(s)) is Some
}

/// The constant pool after the switch tables of `s` are relocated
/// (`tables_rewritten`, through the positions that the kept instructions
/// of `s` move to): relocated slots hold numbers, every other slot is
/// unchanged.
pub open spec fn tables_relocated(s: Seq<Instruction>, before: Seq<Value>, after: Seq<Value>) -> bool {
    &&& after.len() == before.len()
    &&& forall|k: int| 0 <= k < before.len() ==> #[trigger] after[k] == before[k] || after[k]@ is Number
    &&& tables_rewritten(s, boundary_of(s), before, after)
}

/// What a block pass gives: a program `s` that `pass_rel` relates to the
/// decoded input and in which every block is what the pass leaves of it
/// (`blocks_ok`, with the input's leaders); the input itself when `s` is
/// the decoded input, else the encoding of `s` with relocated switch
/// tables.
pub open spec fn block_pass_result(
    pass: BlockPass,
    bytecode: Seq<u32>,
    constants: Seq<Value>,
    r: Option<(Vec<u32>, Vec<Value>)>,
) -> bool {
    exists|s: Seq<Instruction>, l: Seq<usize>|
        {
            &&& leaders_exact(decoded_program(bytecode), constants, l)
            &&& #[trigger] blocks_ok(pass, decoded_program(bytecode), s, l)
            &&& pass_rel(pass, decoded_program(bytecode), s)
            &&& match r {
                Some((bc, cs)) => (s == decoded_program(bytecode) && bc@ == bytecode && cs@ == constants)
                    || (encodes(s, bc@) && tables_relocated(s, constants, cs@)),
                None => !encodable(s),
            }
        }
}

/// Encodes the instructions of a pass.
fn finish(insts: &Vec<Instruction>, constants: Vec<Value>) -> (r: Option<(Vec<u32>, Vec<Value>)>)
    requires
        program_fits(insts@.len()),
    ensures
        r matches Some((bc, cs)) ==> bc@.len() <= insts@.len() && cs@.len() == constants@.len(),
        r matches Some((bc, cs)) ==> encodes(insts@, bc@) && tables_relocated(insts@, constants@, cs@),
        r is Some <==> encodable(insts@),
{
    proof {
        lemma_live_before_mono(insts@, 0, insts@.len() as int);
    }
    let r = encode_program(insts, constants);
    proof {
        if r is None {
            let pc = choose|pc: int|
                0 <= pc < insts@.len() && !insts@[pc].removed && encoded(
                    #[trigger] insts@[pc],
                    pc as usize,
                    boundary_of(insts@),
                ) is None;
            assert(!insts@[pc].removed);
        } else {
            let bc = r->Some_0.0;
            assert forall|pc: int| 0 <= pc < insts@.len() && !(#[trigger] insts@[pc]).removed implies encoded(
                insts@[pc],
                pc as usize,
                boundary_of(insts@),
            ) is Some by {
                assert(encoded(insts@[pc], pc as usize, boundary_of(insts@)) == Some(bc@[live_before(insts@, pc) as int]));
            }
        }
    }
    r
}

/// Runs a block pass over the decoded program; the input comes back
/// unchanged when no block changed.
fn block_pass(bytecode: Vec<u32>, constants: Vec<Value>, pass: BlockPass) -> (r: Option<
    (Vec<u32>, Vec<Value>),
>)
    requires
        program_fits(bytecode@.len()),
    ensures
        pass_ok(bytecode@, constants@, r),
        block_pass_result(pass, bytecode@, constants@, r),
{
    let mut insts = decode_program(&bytecode);
    let ghost decoded = insts@;
    let changed = run_block_pass(&mut insts, &constants, pass);
    let ghost l = choose|l: Seq<usize>| leaders_exact(decoded, constants@, l) && #[trigger] blocks_ok(
        pass,
        decoded,
        insts@,
        l,
    );
    if !changed {
        proof {
            assert(blocks_ok(pass, decoded_program(bytecode@), insts@, l));
        }
        return Some((bytecode, constants));
    }
    let ghost cs0 = constants@;
    let r = finish(&insts, constants);
    proof {
        assert(blocks_ok(pass, decoded_program(bytecode@), insts@, l));
        assert(pass_rel(pass, decoded_program(bytecode@), insts@));
    }
    r
}

/// What jump threading gives: `thread_walk` of the decoded program, the
/// input itself when nothing changed, else its encoding with relocated
/// switch tables; `None` exactly when the threaded program changed and
/// does not encode.
pub open spec fn branches_result(bytecode: Seq<u32>, constants: Seq<Value>, r: Option<(Vec<u32>, Vec<Value>)>) -> bool {
    let s = thread_walk(decoded_program(bytecode), bytecode.len() as int);
    &&& r matches Some((bc, cs)) ==> {
        &&& only_jumps_threaded(decoded_program(bytecode), s)
        &&& (s == decoded_program(bytecode) && bc@ == bytecode && cs@ == constants) || (encodes(s, bc@)
            && tables_relocated(s, constants, cs@))
    }
    &&& r is None <==> (s != decoded_program(bytecode) && !encodable(s))
}

/// Threads jumps through chains of jumps and removes jumps to the next
/// instruction (`thread_walk` over the decoded program); the input comes
/// back when nothing changed. `None` when a relocated jump no longer fits
/// its field.
pub fn simplify_branches(bytecode: Vec<u32>, constants: Vec<Value>) -> (r: Option<
    (Vec<u32>, Vec<Value>),
>)
    requires
        program_fits(bytecode@.len()),
    ensures
        pass_ok(bytecode@, constants@, r),
        branches_result(bytecode@, constants@, r),
{
    let mut insts = decode_program(&bytecode);
    if !thread_jumps(&mut insts) {
        return Some((bytecode, constants));
    }
    finish(&insts, constants)
}

/// Folds additions of two immediates in each block.
fn constant_fold(bytecode: Vec<u32>, constants: Vec<Value>) -> (r: Option<(Vec<u32>, Vec<Value>)>)
    requires
        program_fits(bytecode@.len()),
    ensures
        pass_ok(bytecode@, constants@, r),
        block_pass_result(BlockPass::ConstantFold, bytecode@, constants@, r),
{
    block_pass(bytecode, constants, BlockPass::ConstantFold)
}

/// Removes copies and constant loads into registers that are dead within
/// their block.
pub fn eliminate_dead_code(bytecode: Vec<u32>, constants: Vec<Value>) -> (r: Option<
    (Vec<u32>, Vec<Value>),
>)
    requires
        program_fits(bytecode@.len()),
    ensures
        pass_ok(bytecode@, constants@, r),
        block_pass_result(BlockPass::DeadDefs, bytecode@, constants@, r),
{
    block_pass(bytecode, constants, BlockPass::DeadDefs)
}

/// Rewrites register reads through earlier copies in each block.
pub fn copy_propagation(bytecode: Vec<u32>, constants: Vec<Value>) -> (r: Option<
    (Vec<u32>, Vec<Value>),
>)
    requires
        program_fits(bytecode@.len()),
    ensures
        pass_ok(bytecode@, constants@, r),
        block_pass_result(BlockPass::CopyPropagation, bytecode@, constants@, r),
{
    block_pass(bytecode, constants, BlockPass::CopyPropagation)
}

/// Turns reloads of a constant already held in a register into copies.
pub fn coalesce_registers(bytecode: Vec<u32>, constants: Vec<Value>) -> (r: Option<
    (Vec<u32>, Vec<Value>),
>)
    requires
        program_fits(bytecode@.len()),
    ensures
        pass_ok(bytecode@, constants@, r),
        block_pass_result(BlockPass::Coalesce, bytecode@, constants@, r),
{
    block_pass(bytecode, constants, BlockPass::Coalesce)
}

/// Every change turns a kept null or undefined test into a load of a
/// boolean constant of `pool` into the same register.
pub open spec fn checks_folded(before: Seq<Instruction>, after: Seq<Instruction>, pool: Seq<Value>) -> bool {
    &&& after.len() == before.len()
    &&& forall|i: int|
        0 <= i < before.len() ==> #[trigger] after[i] == before[i] || (!before[i].removed && (
        before[i].opcode == Opcode::IsUndef || before[i].opcode == Opcode::IsNull) && after[i]
            == load_k_of(before[i].a, after[i].bx) && (after[i].bx as int) < pool.len()
            && pool[after[i].bx as int]@ is Bool)
}

/// A strictly increasing sequence of positions at most `n` has at most
/// `n + 1` entries.
proof fn lemma_increasing_len(l: Seq<usize>, n: int)
    requires
        forall|k: int, j: int| 0 <= k < j < l.len() ==> #[trigger] l[k] < #[trigger] l[j],
        forall|k: int| 0 <= k < l.len() ==> #[trigger] l[k] <= n,
        0 <= n,
    ensures
        l.len() <= n + 1,
    decreases l.len(),
{
    if l.len() > 0 {
        let t = l.drop_last();
        assert forall|k: int| 0 <= k < t.len() implies #[trigger] t[k] <= n - 1 by {
            assert(l[k] < l[l.len() - 1]);
        }
        if n >= 1 {
            assert forall|k: int, j: int| 0 <= k < j < t.len() implies #[trigger] t[k] < #[trigger] t[j] by {
                assert(t[k] == l[k] && t[j] == l[j]);
            }
            lemma_increasing_len(t, n - 1);
        } else {
            if l.len() > 1 {
                assert(l[0] < l[1]);
            }
        }
    }
}

/// In every block (as the leaders `l` cut it) whose constant loads all
/// name slots of `pool0`, each position is what `check_folded_at` says.
pub open spec fn checks_blocks_ok(
    before: Seq<Instruction>,
    after: Seq<Instruction>,
    pool0: Seq<Value>,
    pool: Seq<Value>,
    l: Seq<usize>,
) -> bool {
    forall|k: int|
        0 <= k < l.len() && (#[trigger] l[k]) < before.len() && loads_in_pool(
            before,
            pool0.len() as int,
            l[k] as int,
            block_end(l, k, before.len() as int),
        ) ==> forall|i: int|
            l[k] <= i < block_end(l, k, before.len() as int) ==> #[trigger] check_folded_at(
                before,
                after,
                pool0,
                pool,
                l[k] as int,
                i,
            )
}

/// What folding the null and undefined tests gives: a program `s` whose
/// blocks are folded against a pool that extends the constants with
/// booleans; the input itself when nothing changed, else the encoding of
/// `s` with that pool. `None` only when the pool outgrew 16-bit indices or
/// `s` does not encode. At most the two boolean constants are appended.
pub open spec fn checks_result(bytecode: Seq<u32>, constants: Seq<Value>, r: Option<(Vec<u32>, Vec<Value>)>) -> bool {
    &&& r matches Some((bc, cs)) ==> exists|s: Seq<Instruction>, pool: Seq<Value>, l: Seq<usize>|
        {
            &&& checks_folded(decoded_program(bytecode), s, pool)
            &&& extends_with_bools(constants, pool)
            &&& fresh_bools(constants, pool)
            &&& leaders_exact(decoded_program(bytecode), constants, l)
            &&& #[trigger] checks_blocks_ok(decoded_program(bytecode), s, constants, pool, l)
            &&& (s == decoded_program(bytecode) && pool == constants && bc@ == bytecode && cs@ == constants)
                || (encodes(s, bc@) && tables_relocated(s, pool, cs@))
        }
    &&& r is None ==> exists|s: Seq<Instruction>, pool: Seq<Value>|
        {
            &&& #[trigger] checks_folded(decoded_program(bytecode), s, pool)
            &&& extends_with_bools(constants, pool)
            &&& fresh_bools(constants, pool)
            &&& pool.len() > 65535 || !encodable(s)
        }
    &&& r matches Some((bc, cs)) ==> bc@.len() == bytecode.len() && cs@.len() <= constants.len() + 2
}

/// Folding tests into constant loads moves no jump: the folded program
/// encodes when the program does.
proof fn lemma_checks_folded_encodable(d: Seq<Instruction>, s: Seq<Instruction>, pool: Seq<Value>)
    requires
        checks_folded(d, s, pool),
        encodable(d),
    ensures
        encodable(s),
{
    assert forall|i: int| 0 <= i <= d.len() implies #[trigger] live_before(s, i) == live_before(d, i) by {
        lemma_checks_live_before(d, s, pool, i);
    }
    assert(boundary_of(s) =~= boundary_of(d));
    assert forall|pc: int| 0 <= pc < s.len() && !(#[trigger] s[pc]).removed implies encoded(
        s[pc],
        pc as usize,
        boundary_of(s),
    ) is Some by {
        if s[pc] != d[pc] {
            assert(s[pc] == load_k_of(d[pc].a, s[pc].bx));
        } else {
            assert(!d[pc].removed);
        }
    }
}

proof fn lemma_checks_live_before(d: Seq<Instruction>, s: Seq<Instruction>, pool: Seq<Value>, n: int)
    requires
        checks_folded(d, s, pool),
        0 <= n <= d.len(),
    ensures
        live_before(s, n) == live_before(d, n),
    decreases n,
{
    if n > 0 {
        lemma_checks_live_before(d, s, pool, n - 1);
        assert(s[n - 1] == d[n - 1] || s[n - 1] == load_k_of(d[n - 1].a, s[n - 1].bx));
    }
}

/// Replaces null and undefined tests of values known within their block by
/// boolean constants, which may be appended to the pool. `None` when a new
/// constant would not have a 16-bit index, or a relocated jump no longer
/// fits.
pub fn fold_temporary_checks(bytecode: Vec<u32>, constants: Vec<Value>) -> (r: Option<
    (Vec<u32>, Vec<Value>),
>)
    requires
        program_fits(bytecode@.len()),
    ensures
        pass_grows_ok(bytecode@, constants@, r),
        checks_result(bytecode@, constants@, r),
        jumps_in_range(bytecode@) && constants@.len() < 65534 ==> r is Some,
{
    proof {
        if jumps_in_range(bytecode@) {
            crate::opt::inst::law_in_range_encodable(bytecode@);
        }
    }
    let mut insts = decode_program(&bytecode);
    let mut pool_v = constants;
    let ghost original = pool_v@;
    let ghost decoded = insts@;
    let leaders = collect_block_leaders(&insts, &pool_v);
    let len = insts.len();
    let mut changed = false;
    let mut block_index: usize = 0;
    while block_index < leaders.len()
        invariant
            len == insts@.len(),
            len == bytecode@.len(),
            program_fits(len as nat),
            block_index <= leaders@.len(),
            crate::opt::blocks::leaders_ok(leaders@, len as nat),
            pool_v@.len() >= original.len(),
            !changed ==> pool_v@ == original,
            !changed ==> insts@ == decoded,
            decoded == decoded_program(bytecode@),
            extends_with_bools(original, pool_v@),
            fresh_bools(original, pool_v@),
            checks_folded(decoded, insts@, pool_v@),
            pool_v@.len() <= original.len() + 2 * block_index,
            original == constants@,
            leaders_exact(decoded, original, leaders@),
            forall|i: int|
                (if block_index < leaders@.len() {
                    leaders@[block_index as int] as int
                } else {
                    len as int
                }) <= i < len ==> #[trigger] insts@[i] == decoded[i],
            forall|k: int|
                0 <= k < block_index && (#[trigger] leaders@[k]) < len && loads_in_pool(
                    decoded,
                    original.len() as int,
                    leaders@[k] as int,
                    block_end(leaders@, k, len as int),
                ) ==> forall|i: int|
                    leaders@[k] <= i < block_end(leaders@, k, len as int) ==> #[trigger] check_folded_at(
                        decoded,
                        insts@,
                        original,
                        pool_v@,
                        leaders@[k] as int,
                        i,
                    ),
        decreases leaders@.len() - block_index,
    {
        let start = leaders[block_index];
        if start >= len {
            proof {
                if block_index + 1 < leaders@.len() {
                    assert(leaders@[block_index as int] < leaders@[block_index + 1]);
                }
            }
            block_index = block_index + 1;
            continue;
        }
        let mut end = if block_index + 1 < leaders.len() {
            leaders[block_index + 1]
        } else {
            len
        };
        if end > len {
            end = len;
        }
        let ghost prev = insts@;
        let ghost prev_pool = pool_v@;
        proof {
            if block_index + 1 < leaders@.len() {
                assert(leaders@[block_index as int] < leaders@[block_index + 1]);
            }
            assert(end as int == block_end(leaders@, block_index as int, len as int));
        }
        let r = fold_temporary_checks_block(&mut insts, &mut pool_v, start, end);
        proof {
            lemma_fresh_bools_trans(original, prev_pool, pool_v@);
            lemma_fresh_bools_len(original, pool_v@);
            assert forall|k: int| 0 <= k < original.len() implies #[trigger] pool_v@[k] == original[k] by {
                assert(prev_pool[k] == original[k]);
            }
            assert forall|i: int| 0 <= i < decoded.len() implies #[trigger] insts@[i] == decoded[i] || (
            !decoded[i].removed && (decoded[i].opcode == Opcode::IsUndef || decoded[i].opcode
                == Opcode::IsNull) && insts@[i] == load_k_of(decoded[i].a, insts@[i].bx) && (
            insts@[i].bx as int) < pool_v@.len() && pool_v@[insts@[i].bx as int]@ is Bool) by {
                assert(prev[i] == decoded[i] || prev[i] == load_k_of(decoded[i].a, prev[i].bx));
                if prev[i] != decoded[i] {
                    assert(pool_v@[prev[i].bx as int] == prev_pool[prev[i].bx as int]);
                }
            }
        }
        match r {
            Some(true) => {
                changed = true;
            },
            Some(false) => {},
            None => {
                proof {
                    lemma_increasing_len(leaders@, len as int);
                    assert(pool_v@.len() <= original.len() + 2 * (block_index + 1));
                    assert(checks_folded(decoded_program(bytecode@), insts@, pool_v@));
                    assert forall|k: int| original.len() <= k < pool_v@.len() implies (#[trigger] pool_v@[k])@ is Bool by {
                        if k < prev_pool.len() {
                            assert(pool_v@[k] == prev_pool[k]);
                        }
                    }
                    assert(extends_with_bools(original, pool_v@));
                    assert(pool_v@.len() > 65535);
                }
                return None;
            },
        }
        proof {
            assert forall|k: int|
                0 <= k < block_index + 1 && (#[trigger] leaders@[k]) < len && loads_in_pool(
                    decoded,
                    original.len() as int,
                    leaders@[k] as int,
                    block_end(leaders@, k, len as int),
                ) implies forall|i: int|
                leaders@[k] <= i < block_end(leaders@, k, len as int) ==> #[trigger] check_folded_at(
                    decoded,
                    insts@,
                    original,
                    pool_v@,
                    leaders@[k] as int,
                    i,
                ) by {
                if k < block_index {
                    assert(leaders@[k] < leaders@[k + 1]);
                    if k + 1 < block_index {
                        assert(leaders@[k + 1] < leaders@[block_index as int]);
                    }
                    assert forall|i: int| leaders@[k] <= i < block_end(leaders@, k, len as int) implies #[trigger] check_folded_at(
                        decoded,
                        insts@,
                        original,
                        pool_v@,
                        leaders@[k] as int,
                        i,
                    ) by {
                        assert(check_folded_at(decoded, prev, original, prev_pool, leaders@[k] as int, i));
                        lemma_check_folded_frame(decoded, prev, insts@, original, prev_pool, pool_v@, leaders@[k] as int, i);
                    }
                } else {
                    assert(k == block_index);
                    assert forall|i: int| leaders@[k] <= i < block_end(leaders@, k, len as int) implies #[trigger] check_folded_at(
                        decoded,
                        insts@,
                        original,
                        pool_v@,
                        leaders@[k] as int,
                        i,
                    ) by {
                        assert(loads_in_pool(prev, prev_pool.len() as int, start as int, end as int)) by {
                            assert forall|j: int| start <= j < end && !prev[j].removed && (#[trigger] prev[j]).opcode == Opcode::LoadK
                                implies (prev[j].bx as int) < prev_pool.len() by {
                                assert(prev[j] == decoded[j]);
                            }
                        }
                        assert(check_folded_at(prev, insts@, prev_pool, pool_v@, start as int, i));
                        lemma_known_at_pool(decoded, original, prev_pool, start as int, i);
                        assert forall|j: int| start <= j < i implies #[trigger] prev[j] == decoded[j] by {}
                        assert(prev[i] == decoded[i]);
                        crate::opt::values::lemma_known_at_frame(prev, decoded, prev_pool, start as int, i);
                    }
                }
            }
            if block_index + 1 < leaders@.len() {
                assert(leaders@[block_index as int] < leaders@[block_index + 1]);
            }
        }
        block_index = block_index + 1;
    }
    proof {
        assert(checks_blocks_ok(decoded, insts@, original, pool_v@, leaders@));
    }
    if !changed {
        proof {
            assert(checks_blocks_ok(decoded_program(bytecode@), decoded_program(bytecode@), pool_v@, pool_v@, leaders@));
        }
        return Some((bytecode, pool_v));
    }
    proof {
        assert(leaders@.len() <= len + 1) by {
            assert(leaders@[leaders@.len() - 1] <= len);
            lemma_increasing_len(leaders@, len as int);
        }
    }
    let ghost pool = pool_v@;
    let r = finish(&insts, pool_v);
    proof {
        if jumps_in_range(bytecode@) {
            lemma_checks_folded_encodable(decoded, insts@, pool);
        }
        lemma_checks_live_before(decoded, insts@, pool, len as int);
        crate::opt::inst::lemma_all_kept(decoded, len as int);
        lemma_fresh_bools_len(original, pool);
        if r is Some {
            assert(checks_folded(decoded_program(bytecode@), insts@, pool));
            assert(checks_blocks_ok(decoded_program(bytecode@), insts@, original, pool, leaders@));
        } else {
            assert(checks_folded(decoded_program(bytecode@), insts@, pool));
        }
    }
    r
}

/// Fuses instruction sequences into superinstructions in each block.
pub fn optimize_peephole(bytecode: Vec<u32>, constants: Vec<Value>) -> (r: Option<
    (Vec<u32>, Vec<Value>),
>)
    requires
        program_fits(bytecode@.len()),
    ensures
        pass_ok(bytecode@, constants@, r),
        block_pass_result(BlockPass::Peephole, bytecode@, constants@, r),
{
    block_pass(bytecode, constants, BlockPass::Peephole)
}

/// Removes redundant copies in each block.
fn optimize_basic_peephole(bytecode: Vec<u32>, constants: Vec<Value>) -> (r: Option<
    (Vec<u32>, Vec<Value>),
>)
    requires
        program_fits(bytecode@.len()),
    ensures
        pass_ok(bytecode@, constants@, r),
        block_pass_result(BlockPass::BasicPeephole, bytecode@, constants@, r),
{
    block_pass(bytecode, constants, BlockPass::BasicPeephole)
}

/// Superinstruction selection is the peephole pass.
fn optimize_superinstructions(bytecode: Vec<u32>, constants: Vec<Value>) -> (r: Option<
    (Vec<u32>, Vec<Value>),
>)
    requires
        program_fits(bytecode@.len()),
    ensures
        pass_ok(bytecode@, constants@, r),
        block_pass_result(BlockPass::Peephole, bytecode@, constants@, r),
{
    optimize_peephole(bytecode, constants)
}

/// What relocation gives: the encoding of the decoded program with
/// relocated switch tables, `None` exactly when it does not encode.
pub open spec fn relocate_result(bytecode: Seq<u32>, constants: Seq<Value>, r: Option<(Vec<u32>, Vec<Value>)>) -> bool {
    &&& r is Some <==> encodable(decoded_program(bytecode))
    &&& r matches Some((bc, cs)) ==> encodes(decoded_program(bytecode), bc@) && tables_relocated(decoded_program(bytecode), constants, cs@)
}

/// Re-encodes the program, relocating every jump and switch table.
pub fn relocate_jumps(bytecode: Vec<u32>, constants: Vec<Value>) -> (r: Option<
    (Vec<u32>, Vec<Value>),
>)
    requires
        program_fits(bytecode@.len()),
    ensures
        pass_ok(bytecode@, constants@, r),
        relocate_result(bytecode@, constants@, r),
        jumps_in_range(bytecode@) ==> (r matches Some((bc, cs)) && bc@ == bytecode@),
        (forall|pc: int| 0 <= pc < bytecode@.len() ==> (#[trigger] decoded_program(bytecode@)[pc]).opcode
            != Opcode::Switch) ==> (r matches Some((bc, cs)) ==> cs@ == constants@),
{
    let insts = decode_program(&bytecode);
    proof {
        lemma_live_before_mono(insts@, 0, insts@.len() as int);
        if jumps_in_range(bytecode@) {
            law_reencode_identity(bytecode@);
        }
    }
    let r = if !has_removed_instructions(&insts) {
        encode_program(&insts, constants)
    } else {
        encode_program(&insts, constants)
    };
    proof {
        if r is None {
            let pc = choose|pc: int|
                0 <= pc < insts@.len() && !insts@[pc].removed && encoded(
                    #[trigger] insts@[pc],
                    pc as usize,
                    boundary_of(insts@),
                ) is None;
            assert(!insts@[pc].removed);
        } else {
            let bc = r->Some_0.0;
            assert forall|pc: int| 0 <= pc < insts@.len() && !(#[trigger] insts@[pc]).removed implies encoded(
                insts@[pc],
                pc as usize,
                boundary_of(insts@),
            ) is Some by {
                assert(encoded(insts@[pc], pc as usize, boundary_of(insts@)) == Some(bc@[live_before(insts@, pc) as int]));
            }
        }
        if r is Some && forall|pc: int| 0 <= pc < bytecode@.len() ==> (#[trigger] decoded_program(
            bytecode@,
        )[pc]).opcode != Opcode::Switch {
            let s = decoded_program(bytecode@);
            assert(s.len() == bytecode@.len());
            assert forall|pc: int| 0 <= pc < s.len() implies (#[trigger] s[pc]).opcode != Opcode::Switch by {
                assert(decoded_program(bytecode@)[pc] == s[pc]);
            }
            lemma_no_switch_keeps_pool(s, boundary_of(s), constants@, r->Some_0.1@);
        }
        if jumps_in_range(bytecode@) {
            let s = decoded_program(bytecode@);
            assert(s.len() == bytecode@.len());
            assert forall|pc: int| 0 <= pc < s.len() implies !(#[trigger] s[pc]).removed by {
                assert(decoded_program(bytecode@)[pc] == s[pc]);
            }
            if r is Some {
                let pair = r->0;
                let bc = pair.0;
                assert forall|pc: int| 0 <= pc < bytecode@.len() implies bc@[pc] == bytecode@[pc] by {
                    assert(encoded(s[pc], pc as usize, boundary_of(s)) == Some(bytecode@[pc]));
                    assert(live_before(s, pc) == pc);
                }
                assert(bc@ =~= bytecode@);
            } else {
                let pc = choose|pc: int|
                    0 <= pc < s.len() && !s[pc].removed && encoded(
                        #[trigger] s[pc],
                        pc as usize,
                        boundary_of(s),
                    ) is None;
                assert(encoded(s[pc], pc as usize, boundary_of(s)) == Some(bytecode@[pc]));
            }
        }
    }
    r
}

/// The passes that the pipeline chains.
pub enum Stage {
    ConstantFold,
    FoldChecks,
    Coalesce,
    CopyPropagation,
    DeadCode,
    BasicPeephole,
    Branches,
    Reuse,
    Superinstructions,
    Relocate,
}

/// What each pass gives on a program and its constants.
#[verifier::opaque]
pub open spec fn stage_result(
    stage: Stage,
    bytecode: Seq<u32>,
    constants: Seq<Value>,
    r: Option<(Vec<u32>, Vec<Value>)>,
) -> bool {
    match stage {
        Stage::ConstantFold => pass_ok(bytecode, constants, r) && block_pass_result(
            BlockPass::ConstantFold,
            bytecode,
            constants,
            r,
        ),
        Stage::FoldChecks => pass_grows_ok(bytecode, constants, r) && checks_result(bytecode, constants, r),
        Stage::Coalesce => pass_ok(bytecode, constants, r) && block_pass_result(
            BlockPass::Coalesce,
            bytecode,
            constants,
            r,
        ),
        Stage::CopyPropagation => pass_ok(bytecode, constants, r) && block_pass_result(
            BlockPass::CopyPropagation,
            bytecode,
            constants,
            r,
        ),
        Stage::DeadCode => pass_ok(bytecode, constants, r) && block_pass_result(
            BlockPass::DeadDefs,
            bytecode,
            constants,
            r,
        ),
        Stage::BasicPeephole => pass_ok(bytecode, constants, r) && block_pass_result(
            BlockPass::BasicPeephole,
            bytecode,
            constants,
            r,
        ),
        Stage::Branches => pass_ok(bytecode, constants, r) && branches_result(bytecode, constants, r),
        Stage::Reuse => reuse_result(bytecode, constants, r),
        Stage::Superinstructions => pass_ok(bytecode, constants, r) && block_pass_result(
            BlockPass::Peephole,
            bytecode,
            constants,
            r,
        ),
        Stage::Relocate => pass_ok(bytecode, constants, r) && relocate_result(bytecode, constants, r),
    }
}

/// A pass applied to what the pass before it gave: `None` stays `None`.
pub open spec fn step_ok(stage: Stage, p: Option<(Vec<u32>, Vec<Value>)>, r: Option<(Vec<u32>, Vec<Value>)>) -> bool {
    match p {
        Some((bc, cs)) => stage_result(stage, bc@, cs@, r),
        None => r is None,
    }
}

/// `trace` holds the input and what each of `stages` gave, in order.
pub open spec fn run_of(
    stages: Seq<Stage>,
    bytecode: Seq<u32>,
    constants: Seq<Value>,
    trace: Seq<Option<(Vec<u32>, Vec<Value>)>>,
) -> bool {
    &&& trace.len() == stages.len() + 1
    &&& trace[0] matches Some((bc, cs)) && bc@ == bytecode && cs@ == constants
    &&& forall|i: int| 0 <= i < stages.len() ==> step_ok(stages[i], trace[i], #[trigger] trace[i + 1])
}

/// What running `stages` in order gives: each pass takes what the one
/// before it gave, and the first `None` ends the run with `None`.
pub open spec fn reached(
    stages: Seq<Stage>,
    bytecode: Seq<u32>,
    constants: Seq<Value>,
    r: Option<(Vec<u32>, Vec<Value>)>,
) -> bool {
    exists|trace: Seq<Option<(Vec<u32>, Vec<Value>)>>|
        #[trigger] run_of(stages, bytecode, constants, trace) && trace.last() == r
}

proof fn lemma_run_step(
    stages: Seq<Stage>,
    k: int,
    bytecode: Seq<u32>,
    constants: Seq<Value>,
    trace: Seq<Option<(Vec<u32>, Vec<Value>)>>,
    r: Option<(Vec<u32>, Vec<Value>)>,
)
    requires
        0 < k <= stages.len(),
        run_of(stages.take(k - 1), bytecode, constants, trace),
        step_ok(stages[k - 1], trace.last(), r),
    ensures
        run_of(stages.take(k), bytecode, constants, trace.push(r)),
{
    let t = stages.take(k);
    let u = trace.push(r);
    assert forall|i: int| 0 <= i < t.len() implies step_ok(t[i], u[i], #[trigger] u[i + 1]) by {
        if i < k - 1 {
            assert(stages.take(k - 1)[i] == t[i]);
        }
    }
}

proof fn lemma_run_none(
    stages: Seq<Stage>,
    k: int,
    bytecode: Seq<u32>,
    constants: Seq<Value>,
    trace: Seq<Option<(Vec<u32>, Vec<Value>)>>,
)
    requires
        0 <= k <= stages.len(),
        run_of(stages.take(k), bytecode, constants, trace),
        trace.last() is None,
    ensures
        reached(stages, bytecode, constants, None),
    decreases stages.len() - k,
{
    if k < stages.len() {
        lemma_run_step(stages, k + 1, bytecode, constants, trace, None);
        lemma_run_none(stages, k + 1, bytecode, constants, trace.push(None));
    } else {
        assert(stages.take(k) =~= stages);
        assert(run_of(stages, bytecode, constants, trace));
    }
}

/// The passes of one round.
pub open spec fn round_stages() -> Seq<Stage> {
    seq![
        Stage::ConstantFold,
        Stage::FoldChecks,
        Stage::Coalesce,
        Stage::CopyPropagation,
        Stage::DeadCode,
        Stage::BasicPeephole,
        Stage::Branches,
    ]
}

/// One round of the block passes and jump threading.
#[verifier::rlimit(40)]
fn run_fixed_point_round(bytecode: Vec<u32>, constants: Vec<Value>) -> (r: Option<
    (Vec<u32>, Vec<Value>),
>)
    requires
        program_fits(bytecode@.len()),
    ensures
        pass_grows_ok(bytecode@, constants@, r),
        reached(round_stages(), bytecode@, constants@, r),
{
    let ghost b0 = bytecode@;
    let ghost c0 = constants@;
    let ghost mut trace: Seq<Option<(Vec<u32>, Vec<Value>)>> = seq![Some((bytecode, constants))];
    let ghost p1 = (bytecode@, constants@);
    let r1 = constant_fold(bytecode, constants);
    proof {
        assert(stage_result(Stage::ConstantFold, p1.0, p1.1, r1)) by {
            reveal(stage_result);
        }
        lemma_run_step(round_stages(), 1, b0, c0, trace, r1);
        trace = trace.push(r1);
    }
    let (bytecode, constants) = match r1 {
        Some(x) => x,
        None => {
            proof {
                lemma_run_none(round_stages(), 1, b0, c0, trace);
            }
            return None;
        },
    };
    let ghost p2 = (bytecode@, constants@);
    let r2 = fold_temporary_checks(bytecode, constants);
    proof {
        assert(stage_result(Stage::FoldChecks, p2.0, p2.1, r2)) by {
            reveal(stage_result);
        }
        lemma_run_step(round_stages(), 2, b0, c0, trace, r2);
        trace = trace.push(r2);
    }
    let (bytecode, constants) = match r2 {
        Some(x) => x,
        None => {
            proof {
                lemma_run_none(round_stages(), 2, b0, c0, trace);
            }
            return None;
        },
    };
    let ghost p3 = (bytecode@, constants@);
    let r3 = coalesce_registers(bytecode, constants);
    proof {
        assert(stage_result(Stage::Coalesce, p3.0, p3.1, r3)) by {
            reveal(stage_result);
        }
        lemma_run_step(round_stages(), 3, b0, c0, trace, r3);
        trace = trace.push(r3);
    }
    let (bytecode, constants) = match r3 {
        Some(x) => x,
        None => {
            proof {
                lemma_run_none(round_stages(), 3, b0, c0, trace);
            }
            return None;
        },
    };
    let ghost p4 = (bytecode@, constants@);
    let r4 = copy_propagation(bytecode, constants);
    proof {
        assert(stage_result(Stage::CopyPropagation, p4.0, p4.1, r4)) by {
            reveal(stage_result);
        }
        lemma_run_step(round_stages(), 4, b0, c0, trace, r4);
        trace = trace.push(r4);
    }
    let (bytecode, constants) = match r4 {
        Some(x) => x,
        None => {
            proof {
                lemma_run_none(round_stages(), 4, b0, c0, trace);
            }
            return None;
        },
    };
    let ghost p5 = (bytecode@, constants@);
    let r5 = eliminate_dead_code(bytecode, constants);
    proof {
        assert(stage_result(Stage::DeadCode, p5.0, p5.1, r5)) by {
            reveal(stage_result);
        }
        lemma_run_step(round_stages(), 5, b0, c0, trace, r5);
        trace = trace.push(r5);
    }
    let (bytecode, constants) = match r5 {
        Some(x) => x,
        None => {
            proof {
                lemma_run_none(round_stages(), 5, b0, c0, trace);
            }
            return None;
        },
    };
    let ghost p6 = (bytecode@, constants@);
    let r6 = optimize_basic_peephole(bytecode, constants);
    proof {
        assert(stage_result(Stage::BasicPeephole, p6.0, p6.1, r6)) by {
            reveal(stage_result);
        }
        lemma_run_step(round_stages(), 6, b0, c0, trace, r6);
        trace = trace.push(r6);
    }
    let (bytecode, constants) = match r6 {
        Some(x) => x,
        None => {
            proof {
                lemma_run_none(round_stages(), 6, b0, c0, trace);
            }
            return None;
        },
    };
    let ghost p7 = (bytecode@, constants@);
    let r = simplify_branches(bytecode, constants);
    proof {
        assert(stage_result(Stage::Branches, p7.0, p7.1, r)) by {
            reveal(stage_result);
        }
        lemma_run_step(round_stages(), 7, b0, c0, trace, r);
        trace = trace.push(r);
        assert(round_stages().take(7) =~= round_stages());
        assert(run_of(round_stages(), b0, c0, trace));
    }
    r
}

fn same_values(x: &Vec<Value>, y: &Vec<Value>) -> (r: bool)
    ensures
        r == (x@ == y@),
{
    if x.len() != y.len() {
        return false;
    }
    let mut k: usize = 0;
    while k < x.len()
        invariant
            x@.len() == y@.len(),
            k <= x@.len(),
            forall|j: int| 0 <= j < k ==> x@[j] == y@[j],
        decreases x@.len() - k,
    {
        if x[k].0 != y[k].0 {
            return false;
        }
        k = k + 1;
    }
    proof {
        assert(x@ =~= y@);
    }
    true
}

fn copy_words(v: &Vec<u32>, from: usize, to: usize) -> (r: Vec<u32>)
    requires
        from <= to <= v@.len(),
    ensures
        r@ == v@.subrange(from as int, to as int),
{
    let mut out: Vec<u32> = Vec::new();
    let mut i: usize = from;
    while i < to
        invariant
            from <= i <= to <= v@.len(),
            out@ == v@.subrange(from as int, i as int),
        decreases to - i,
    {
        out.push(v[i]);
        proof {
            assert(v@.subrange(from as int, i + 1) =~= v@.subrange(from as int, i as int).push(v@[i as int]));
        }
        i = i + 1;
    }
    out
}

fn copy_values(v: &Vec<Value>) -> (r: Vec<Value>)
    ensures
        r@ == v@,
{
    let mut out: Vec<Value> = Vec::new();
    let mut i: usize = 0;
    while i < v.len()
        invariant
            i <= v@.len(),
            out@ == v@.take(i as int),
        decreases v@.len() - i,
    {
        out.push(v[i]);
        proof {
            assert(v@.take(i + 1) =~= v@.take(i as int).push(v@[i as int]));
        }
        i = i + 1;
    }
    proof {
        assert(v@.take(v@.len() as int) =~= v@);
    }
    out
}

/// `q` holds views other than those of `p`; both hold a program.
pub open spec fn changed(p: Option<(Vec<u32>, Vec<Value>)>, q: Option<(Vec<u32>, Vec<Value>)>) -> bool {
    p matches Some((bc, cs)) && q matches Some((bc2, cs2)) && !(bc2@ == bc@ && cs2@ == cs@)
}

/// `q` is what one round gives on the program that `p` holds.
pub open spec fn round_step(p: Option<(Vec<u32>, Vec<Value>)>, q: Option<(Vec<u32>, Vec<Value>)>) -> bool {
    p matches Some((bc, cs)) && reached(round_stages(), bc@, cs@, q)
}

/// `trace` holds the input and what each round gave, each round taking
/// what the one before it gave, with every round but the last changing
/// the program.
pub open spec fn rounds_prefix(
    max_rounds: nat,
    bytecode: Seq<u32>,
    constants: Seq<Value>,
    trace: Seq<Option<(Vec<u32>, Vec<Value>)>>,
) -> bool {
    &&& 1 <= trace.len() <= max_rounds + 1
    &&& trace[0] matches Some((bc, cs)) && bc@ == bytecode && cs@ == constants
    &&& forall|i: int| 0 <= i < trace.len() - 1 ==> round_step(trace[i], #[trigger] trace[i + 1])
    &&& forall|i: int| 0 < i < trace.len() - 1 ==> changed(trace[i - 1], #[trigger] trace[i])
}

/// A whole run of rounds: it ends at the first `None`, after
/// `max_rounds` rounds, or at the first round that changed nothing.
pub open spec fn rounds_of(
    max_rounds: nat,
    bytecode: Seq<u32>,
    constants: Seq<Value>,
    trace: Seq<Option<(Vec<u32>, Vec<Value>)>>,
) -> bool {
    &&& rounds_prefix(max_rounds, bytecode, constants, trace)
    &&& trace.last() is None || trace.len() == max_rounds + 1 || (trace.len() >= 2 && !changed(
        trace[trace.len() - 2],
        trace.last(),
    ))
}

/// What repeating the round gives: the end of the run of rounds.
pub open spec fn stable_result(
    max_rounds: nat,
    bytecode: Seq<u32>,
    constants: Seq<Value>,
    r: Option<(Vec<u32>, Vec<Value>)>,
) -> bool {
    exists|trace: Seq<Option<(Vec<u32>, Vec<Value>)>>|
        #[trigger] rounds_of(max_rounds, bytecode, constants, trace) && trace.last() == r
}

/// Repeats the round until it changes nothing, at most `max_rounds` times.
fn run_until_stable(bytecode: Vec<u32>, constants: Vec<Value>, max_rounds: usize) -> (r: Option<
    (Vec<u32>, Vec<Value>),
>)
    requires
        program_fits(bytecode@.len()),
    ensures
        pass_grows_ok(bytecode@, constants@, r),
        stable_result(max_rounds as nat, bytecode@, constants@, r),
{
    let ghost b0 = bytecode@;
    let ghost c0 = constants@;
    let ghost mut trace: Seq<Option<(Vec<u32>, Vec<Value>)>> = seq![Some((bytecode, constants))];
    let mut current = bytecode;
    let mut pool = constants;
    let mut round: usize = 0;
    while round < max_rounds
        invariant
            bytecode@ == b0,
            constants@ == c0,
            current@.len() <= b0.len(),
            pool@.len() >= c0.len(),
            program_fits(b0.len()),
            round <= max_rounds,
            trace.len() == round + 1,
            rounds_prefix(max_rounds as nat, b0, c0, trace),
            trace.last() == Some((current, pool)),
            trace.len() >= 2 ==> changed(trace[trace.len() - 2], trace.last()),
        decreases max_rounds - round,
    {
        let prev_bytecode = copy_words(&current, 0, current.len());
        let prev_constants = copy_values(&pool);
        proof {
            assert(prev_bytecode@ =~= current@);
        }
        let ghost before = trace;
        let next = run_fixed_point_round(current, pool);
        proof {
            trace = trace.push(next);
            assert(trace[0] == before[0]);
            assert(round_step(before.last(), next));
            assert forall|i: int| 0 <= i < trace.len() - 1 implies round_step(trace[i], #[trigger] trace[i + 1]) by {
                if i < trace.len() - 2 {
                    assert(before[i] == trace[i] && before[i + 1] == trace[i + 1]);
                }
            }
            assert forall|i: int| 0 < i < trace.len() - 1 implies changed(trace[i - 1], #[trigger] trace[i]) by {
                assert(before[i - 1] == trace[i - 1] && before[i] == trace[i]);
            }
        }
        match next {
            Some((b, c)) => {
                current = b;
                pool = c;
            },
            None => {
                proof {
                    assert(trace.last() is None);
                    assert(rounds_of(max_rounds as nat, b0, c0, trace));
                    assert(stable_result(max_rounds as nat, b0, c0, None));
                }
                return None;
            },
        }
        if same_words(&current, &prev_bytecode) && same_values(&pool, &prev_constants) {
            proof {
                assert(current@.len() <= b0.len());
                assert(rounds_of(max_rounds as nat, b0, c0, trace));
            }
            return Some((current, pool));
        }
        round = round + 1;
    }
    proof {
        assert(rounds_of(max_rounds as nat, b0, c0, trace));
    }
    Some((current, pool))
}

fn same_words(x: &Vec<u32>, y: &Vec<u32>) -> (r: bool)
    ensures
        r == (x@ == y@),
{
    if x.len() != y.len() {
        return false;
    }
    let mut k: usize = 0;
    while k < x.len()
        invariant
            x@.len() == y@.len(),
            k <= x@.len(),
            forall|j: int| 0 <= j < k ==> x@[j] == y@[j],
        decreases x@.len() - k,
    {
        if x[k] != y[k] {
            return false;
        }
        k = k + 1;
    }
    proof {
        assert(x@ =~= y@);
    }
    true
}

/// The passes that follow the rounds.
pub open spec fn pipeline_stages() -> Seq<Stage> {
    seq![Stage::Reuse, Stage::BasicPeephole, Stage::Superinstructions, Stage::Branches, Stage::Relocate]
}

/// What the whole pipeline gives: rounds until stable (at most eight),
/// then the passes of `pipeline_stages` on what they gave.
pub open spec fn optimized_result(bytecode: Seq<u32>, constants: Seq<Value>, r: Option<(Vec<u32>, Vec<Value>)>) -> bool {
    exists|p: Option<(Vec<u32>, Vec<Value>)>|
        #[trigger] stable_result(8, bytecode, constants, p) && match p {
            Some((bc, cs)) => reached(pipeline_stages(), bc@, cs@, r),
            None => r is None,
        }
}

/// The whole pipeline: rounds of the block passes until stable (at most
/// eight), register reuse, copy cleanup, superinstructions, jump threading
/// and a final relocation. `None` when a relocated jump no longer fits its
/// field or a new constant would not have a 16-bit index.
pub fn optimize_bytecode(bytecode: Vec<u32>, constants: Vec<Value>) -> (r: Option<
    (Vec<u32>, Vec<Value>),
>)
    requires
        program_fits(bytecode@.len()),
    ensures
        pass_grows_ok(bytecode@, constants@, r),
        optimized_result(bytecode@, constants@, r),
{
    let ghost b0 = bytecode@;
    let ghost c0 = constants@;
    let r0 = run_until_stable(bytecode, constants, 8);
    let ghost g0 = r0;
    let (bytecode, constants) = match r0 {
        Some(x) => x,
        None => {
            proof {
                assert(stable_result(8, b0, c0, g0));
            }
            return None;
        },
    };
    let ghost b1 = bytecode@;
    let ghost c1 = constants@;
    let ghost mut trace: Seq<Option<(Vec<u32>, Vec<Value>)>> = seq![Some((bytecode, constants))];
    let ghost p1 = (bytecode@, constants@);
    let r1 = crate::opt::liveness::reuse_registers_linear_scan(bytecode, constants);
    proof {
        assert(stage_result(Stage::Reuse, p1.0, p1.1, r1)) by {
            reveal(stage_result);
        }
        lemma_run_step(pipeline_stages(), 1, b1, c1, trace, r1);
        trace = trace.push(r1);
    }
    let (bytecode, constants) = match r1 {
        Some(x) => x,
        None => {
            proof {
                lemma_run_none(pipeline_stages(), 1, b1, c1, trace);
                assert(stable_result(8, b0, c0, g0));
            }
            return None;
        },
    };
    let ghost p2 = (bytecode@, constants@);
    let r2 = optimize_basic_peephole(bytecode, constants);
    proof {
        assert(stage_result(Stage::BasicPeephole, p2.0, p2.1, r2)) by {
            reveal(stage_result);
        }
        lemma_run_step(pipeline_stages(), 2, b1, c1, trace, r2);
        trace = trace.push(r2);
    }
    let (bytecode, constants) = match r2 {
        Some(x) => x,
        None => {
            proof {
                lemma_run_none(pipeline_stages(), 2, b1, c1, trace);
                assert(stable_result(8, b0, c0, g0));
            }
            return None;
        },
    };
    let ghost p3 = (bytecode@, constants@);
    let r3 = optimize_superinstructions(bytecode, constants);
    proof {
        assert(stage_result(Stage::Superinstructions, p3.0, p3.1, r3)) by {
            reveal(stage_result);
        }
        lemma_run_step(pipeline_stages(), 3, b1, c1, trace, r3);
        trace = trace.push(r3);
    }
    let (bytecode, constants) = match r3 {
        Some(x) => x,
        None => {
            proof {
                lemma_run_none(pipeline_stages(), 3, b1, c1, trace);
                assert(stable_result(8, b0, c0, g0));
            }
            return None;
        },
    };
    let ghost p4 = (bytecode@, constants@);
    let r4 = simplify_branches(bytecode, constants);
    proof {
        assert(stage_result(Stage::Branches, p4.0, p4.1, r4)) by {
            reveal(stage_result);
        }
        lemma_run_step(pipeline_stages(), 4, b1, c1, trace, r4);
        trace = trace.push(r4);
    }
    let (bytecode, constants) = match r4 {
        Some(x) => x,
        None => {
            proof {
                lemma_run_none(pipeline_stages(), 4, b1, c1, trace);
                assert(stable_result(8, b0, c0, g0));
            }
            return None;
        },
    };
    let ghost p5 = (bytecode@, constants@);
    let r = relocate_jumps(bytecode, constants);
    proof {
        assert(stage_result(Stage::Relocate, p5.0, p5.1, r)) by {
            reveal(stage_result);
        }
        lemma_run_step(pipeline_stages(), 5, b1, c1, trace, r);
        trace = trace.push(r);
        assert(pipeline_stages().take(5) =~= pipeline_stages());
        assert(run_of(pipeline_stages(), b1, c1, trace));
        assert(stable_result(8, b0, c0, g0));
    }
    r
}


/// The entry position a function-constant slot holds: a non-negative
/// integral number, saturated to the range of positions.
pub open spec fn entry_of(v: crate::value::ValueView) -> Option<int> {
    match v {
        crate::value::ValueView::Int(i) => if i >= 0 {
            Some(i as int)
        } else {
            None
        },
        crate::value::ValueView::Number(b) => if crate::float_bits::is_finite_bits(b) && (
        !crate::float_bits::sign_negative(b) || crate::float_bits::is_zero_bits(b))
            && crate::float_bits::is_integral_bits(b) {
            Some(crate::float_bits::saturating_cast(b, 0, usize::MAX as int))
        } else {
            None
        },
        _ => None,
    }
}

fn entry_value(v: Value) -> (r: Option<usize>)
    ensures
        r == match entry_of(v@) {
            Some(e) => Some(e as usize),
            None => None::<usize>,
        },
{
    if let Some(i) = v.as_i32() {
        if i >= 0 {
            return Some(i as usize);
        }
        return None;
    }
    match v.as_f64() {
        Some(bits) => {
            let finite = !bits_is_nan(bits) && !bits_is_infinite(bits);
            assert((bits >> 63u64) == 0u64 || (bits >> 63u64) == 1u64) by (bit_vector);
            let non_negative = (bits >> 63) == 0 || bits_is_zero(bits);
            if finite && non_negative && bits_is_integral(bits) {
                Some(saturating_cast_bits(bits, 0, usize::MAX as i128) as usize)
            } else {
                None
            }
        },
        None => None,
    }
}

/// Sorts function entries by position, keeping equal positions in order.
fn sort_entries(v: Vec<(u16, usize)>) -> (r: Vec<(u16, usize)>)
    ensures
        r@.len() == v@.len(),
        forall|i: int, j: int| 0 <= i < j < r@.len() ==> (#[trigger] r@[i]).1 <= (#[trigger] r@[j]).1,
        r@.to_multiset() == v@.to_multiset(),
{
    let mut out: Vec<(u16, usize)> = Vec::new();
    let mut i: usize = 0;
    proof {
        assert(v@.take(0) =~= Seq::<(u16, usize)>::empty());
    }
    while i < v.len()
        invariant
            i <= v@.len(),
            out@.len() == i,
            forall|a: int, b: int| 0 <= a < b < out@.len() ==> (#[trigger] out@[a]).1 <= (#[trigger] out@[b]).1,
            out@.to_multiset() == v@.take(i as int).to_multiset(),
        decreases v@.len() - i,
    {
        let x = v[i];
        let mut p: usize = 0;
        while p < out.len() && out[p].1 <= x.1
            invariant
                p <= out@.len(),
                forall|q: int| 0 <= q < p ==> (#[trigger] out@[q]).1 <= x.1,
            decreases out@.len() - p,
        {
            p = p + 1;
        }
        let ghost before = out@;
        out.insert(p, x);
        proof {
            assert(out@ =~= before.subrange(0, p as int) + seq![x] + before.subrange(p as int, before.len() as int));
            assert forall|a: int, b: int| 0 <= a < b < out@.len() implies (#[trigger] out@[a]).1 <= (#[trigger] out@[b]).1 by {
                if a < p && b == p {
                } else if a == p && b > p {
                    assert(out@[b] == before[b - 1]);
                    assert(before[p as int].1 > x.1);
                } else if a < p && b > p {
                    assert(out@[b] == before[b - 1]);
                } else if a > p {
                    assert(out@[a] == before[a - 1]);
                    assert(out@[b] == before[b - 1]);
                }
            }
            vstd::seq_lib::lemma_multiset_commutative(before.subrange(0, p as int) + seq![x], before.subrange(p as int, before.len() as int));
            vstd::seq_lib::lemma_multiset_commutative(before.subrange(0, p as int), seq![x]);
            vstd::seq_lib::lemma_multiset_commutative(before.subrange(0, p as int), before.subrange(p as int, before.len() as int));
            assert(before.subrange(0, p as int) + before.subrange(p as int, before.len() as int) =~= before);
            assert(v@.take(i + 1) =~= v@.take(i as int).push(x));
            vstd::seq_lib::lemma_multiset_commutative(v@.take(i as int), seq![x]);
            assert(v@.take(i as int).push(x) =~= v@.take(i as int) + seq![x]);
        }
        i = i + 1;
    }
    proof {
        assert(v@.take(v@.len() as int) =~= v@);
    }
    out
}

fn append_words(dst: &mut Vec<u32>, src: Vec<u32>)
    ensures
        final(dst)@ == old(dst)@ + src@,
{
    let mut i: usize = 0;
    let ghost start = dst@;
    while i < src.len()
        invariant
            i <= src@.len(),
            dst@ == start + src@.take(i as int),
        decreases src@.len() - i,
    {
        dst.push(src[i]);
        proof {
            assert(src@.take(i + 1) =~= src@.take(i as int).push(src@[i as int]));
        }
        i = i + 1;
    }
    proof {
        assert(src@.take(src@.len() as int) =~= src@);
    }
}

/// The function entries of the slots in `slots`, in order: each slot that
/// lies in the pool and holds an entry position (`entry_of`).
pub open spec fn entries_of(slots: Seq<u16>, constants: Seq<Value>) -> Seq<(u16, usize)>
    decreases slots.len(),
{
    if slots.len() == 0 {
        Seq::empty()
    } else {
        let prev = entries_of(slots.drop_last(), constants);
        let slot = slots.last();
        if (slot as int) < constants.len() && entry_of(constants[slot as int]@) is Some {
            prev.push((slot, entry_of(constants[slot as int]@)->Some_0 as usize))
        } else {
            prev
        }
    }
}

/// `e` holds the entries of `entries`, ordered by position.
pub open spec fn sorted_entries(e: Seq<(u16, usize)>, entries: Seq<(u16, usize)>) -> bool {
    &&& e.len() == entries.len()
    &&& e.to_multiset() == entries.to_multiset()
    &&& forall|i: int, j: int| 0 <= i < j < e.len() ==> (#[trigger] e[i]).1 <= (#[trigger] e[j]).1
}

/// What optimizing the segment `code` with `pool` appends to `optimized`.
pub open spec fn segment_step(
    code: Seq<u32>,
    optimized: Seq<u32>,
    pool: Seq<Value>,
    after: Option<(Seq<u32>, Seq<Value>)>,
) -> bool {
    exists|q: Option<(Vec<u32>, Vec<Value>)>|
        #[trigger] optimized_result(code, pool, q) && match q {
            Some((bc, cs)) => after == Some((optimized + bc@, cs@)),
            None => after is None,
        }
}

/// The pool with `slot`, where it lies in the pool, set to the number `pos`.
pub open spec fn entry_set(pool: Seq<Value>, slot: int, pos: int, after: Seq<Value>) -> bool {
    &&& after.len() == pool.len()
    &&& forall|k: int| 0 <= k < pool.len() && k != slot ==> #[trigger] after[k] == pool[k]
    &&& 0 <= slot < pool.len() ==> holds_number(after[slot], pos)
}

/// What the entry `i` of `e` does, from the optimized code `optimized`
/// and the pool `pool`: its slot gets the position that its function
/// starts at in the optimized code, then the code from its entry to the
/// next one (or the end) is optimized and appended.
pub open spec fn entry_from(
    original: Seq<u32>,
    e: Seq<(u16, usize)>,
    i: int,
    optimized: Seq<u32>,
    pool: Seq<Value>,
    after: Option<(Seq<u32>, Seq<Value>)>,
) -> bool {
    let next = if i + 1 < e.len() {
        e[i + 1].1 as int
    } else {
        original.len() as int
    };
    exists|pool2: Seq<Value>|
        #[trigger] entry_set(pool, e[i].0 as int, optimized.len() as int, pool2) && segment_step(
            original.subrange(e[i].1 as int, next),
            optimized,
            pool2,
            after,
        )
}

/// The step of entry `i`; after a `None` everything is `None`.
pub open spec fn entry_step(
    original: Seq<u32>,
    e: Seq<(u16, usize)>,
    i: int,
    before: Option<(Seq<u32>, Seq<Value>)>,
    after: Option<(Seq<u32>, Seq<Value>)>,
) -> bool {
    match before {
        None => after is None,
        Some((optimized, pool)) => entry_from(original, e, i, optimized, pool, after),
    }
}

/// `trace` starts with the optimized code before the first entry and
/// follows the entries of `e` in order.
pub open spec fn entries_prefix(
    original: Seq<u32>,
    e: Seq<(u16, usize)>,
    pool: Seq<Value>,
    trace: Seq<Option<(Seq<u32>, Seq<Value>)>>,
) -> bool {
    &&& 1 <= trace.len() <= e.len() + 1
    &&& if e[0].1 > 0 {
        segment_step(original.take(e[0].1 as int), Seq::empty(), pool, trace[0])
    } else {
        trace[0] == Some((Seq::<u32>::empty(), pool))
    }
    &&& forall|i: int| 0 <= i < trace.len() - 1 ==> entry_step(original, e, i, trace[i], #[trigger] trace[i + 1])
}

/// What optimizing a compiled program gives: the whole code at once when
/// no slot holds an entry; else, with the entries ordered by position,
/// `None` when one lies past the end, and otherwise the end of a run over
/// the entries (`entries_prefix`). Only the code and the pool change.
pub open spec fn compiled_result(compiled: CompiledBytecode, r: Option<CompiledBytecode>) -> bool {
    let bc0 = compiled.bytecode@;
    let cs0 = compiled.constants@;
    let entries = entries_of(compiled.function_constants@, cs0);
    &&& r matches Some(c) ==> {
        &&& c.string_constants == compiled.string_constants
        &&& c.function_constants == compiled.function_constants
        &&& c.names == compiled.names
        &&& c.properties == compiled.properties
    }
    &&& if entries.len() == 0 {
        exists|q: Option<(Vec<u32>, Vec<Value>)>|
            #[trigger] optimized_result(bc0, cs0, q) && match q {
                Some((bc, cs)) => r matches Some(c) && c.bytecode@ == bc@ && c.constants@ == cs@,
                None => r is None,
            }
    } else {
        exists|e: Seq<(u16, usize)>| #[trigger] sorted_entries(e, entries) && entries_result(bc0, cs0, e, r)
    }
}

/// The result over the ordered entries `e`: `None` when one lies past the
/// end, else the end of a run over the entries.
pub open spec fn entries_result(
    bc0: Seq<u32>,
    cs0: Seq<Value>,
    e: Seq<(u16, usize)>,
    r: Option<CompiledBytecode>,
) -> bool {
    if e.last().1 > bc0.len() {
        r is None
    } else {
        exists|trace: Seq<Option<(Seq<u32>, Seq<Value>)>>|
            #[trigger] entries_prefix(bc0, e, cs0, trace) && trace.len() == e.len() + 1 && match trace.last() {
                Some((bc, cs)) => r matches Some(c) && c.bytecode@ == bc && c.constants@ == cs,
                None => r is None,
            }
    }
}

proof fn lemma_entry_step_intro(
    original: Seq<u32>,
    e: Seq<(u16, usize)>,
    i: int,
    optimized: Seq<u32>,
    pool: Seq<Value>,
    pool2: Seq<Value>,
    after: Option<(Seq<u32>, Seq<Value>)>,
)
    requires
        entry_set(pool, e[i].0 as int, optimized.len() as int, pool2),
        segment_step(
            original.subrange(
                e[i].1 as int,
                if i + 1 < e.len() {
                    e[i + 1].1 as int
                } else {
                    original.len() as int
                },
            ),
            optimized,
            pool2,
            after,
        ),
    ensures
        entry_step(original, e, i, Some((optimized, pool)), after),
{
    assert(entry_from(original, e, i, optimized, pool, after));
}

proof fn lemma_entries_push(
    original: Seq<u32>,
    e: Seq<(u16, usize)>,
    pool: Seq<Value>,
    trace: Seq<Option<(Seq<u32>, Seq<Value>)>>,
    after: Option<(Seq<u32>, Seq<Value>)>,
)
    requires
        entries_prefix(original, e, pool, trace),
        trace.len() <= e.len(),
        entry_step(original, e, trace.len() - 1, trace.last(), after),
    ensures
        entries_prefix(original, e, pool, trace.push(after)),
{
    let t = trace.push(after);
    assert forall|i: int| 0 <= i < t.len() - 1 implies entry_step(original, e, i, t[i], #[trigger] t[i + 1]) by {
        if i < trace.len() - 1 {
            assert(t[i] == trace[i] && t[i + 1] == trace[i + 1]);
        }
    }
    assert(t[0] == trace[0]);
}

proof fn lemma_entries_none(
    original: Seq<u32>,
    e: Seq<(u16, usize)>,
    pool: Seq<Value>,
    trace: Seq<Option<(Seq<u32>, Seq<Value>)>>,
)
    requires
        entries_prefix(original, e, pool, trace),
        trace.last() is None,
    ensures
        exists|t: Seq<Option<(Seq<u32>, Seq<Value>)>>|
            #[trigger] entries_prefix(original, e, pool, t) && t.len() == e.len() + 1 && t.last() is None,
    decreases e.len() + 1 - trace.len(),
{
    if trace.len() == e.len() + 1 {
        assert(entries_prefix(original, e, pool, trace));
    } else {
        let t = trace.push(None);
        assert forall|i: int| 0 <= i < t.len() - 1 implies entry_step(original, e, i, t[i], #[trigger] t[i + 1]) by {
            if i < trace.len() - 1 {
                assert(t[i] == trace[i] && t[i + 1] == trace[i + 1]);
            }
        }
        assert(t[0] == trace[0]);
        lemma_entries_none(original, e, pool, t);
    }
}

/// Optimizes a compiled program function by function: the code before the
/// first function, each function up to the next, and the rest are
/// optimized separately, and each function-constant slot is updated to the
/// new position of its entry. Slots that do not hold a non-negative integral
/// number are ignored. `None` when an entry lies past the end of the
/// bytecode, or a segment cannot be optimized (see `optimize_bytecode`).
pub fn optimize_compiled(compiled: CompiledBytecode) -> (r: Option<CompiledBytecode>)
    requires
        program_fits(compiled.bytecode@.len()),
    ensures
        r matches Some(c) ==> {
            &&& c.bytecode@.len() <= compiled.bytecode@.len()
            &&& c.constants@.len() >= compiled.constants@.len()
            &&& c.string_constants == compiled.string_constants
            &&& c.function_constants == compiled.function_constants
            &&& c.names == compiled.names
            &&& c.properties == compiled.properties
        },
        compiled_result(compiled, r),
{
    let ghost bc0 = compiled.bytecode@;
    let ghost cs0 = compiled.constants@;
    let CompiledBytecode { bytecode, constants, string_constants, function_constants, names, properties } = compiled;
    if function_constants.len() == 0 {
        let q = optimize_bytecode(bytecode, constants);
        proof {
            assert(entries_of(function_constants@, cs0) =~= Seq::<(u16, usize)>::empty());
            assert(optimized_result(bc0, cs0, q));
        }
        return match q {
            Some((bytecode, constants)) => Some(
                CompiledBytecode { bytecode, constants, string_constants, function_constants, names, properties },
            ),
            None => None,
        };
    }
    let mut entries: Vec<(u16, usize)> = Vec::new();
    let mut k: usize = 0;
    while k < function_constants.len()
        invariant
            k <= function_constants@.len(),
            constants@ == cs0,
            entries@ == entries_of(function_constants@.take(k as int), cs0),
        decreases function_constants@.len() - k,
    {
        let slot = function_constants[k];
        proof {
            assert(function_constants@.take(k + 1).drop_last() =~= function_constants@.take(k as int));
            assert(function_constants@.take(k + 1).last() == slot);
        }
        if (slot as usize) < constants.len() {
            if let Some(entry) = entry_value(constants[slot as usize]) {
                entries.push((slot, entry));
            }
        }
        k = k + 1;
    }
    proof {
        assert(function_constants@.take(function_constants@.len() as int) =~= function_constants@);
    }
    let ghost unsorted = entries@;
    let entries = sort_entries(entries);
    let ghost e = entries@;
    if entries.len() == 0 {
        let q = optimize_bytecode(bytecode, constants);
        proof {
            assert(optimized_result(bc0, cs0, q));
        }
        return match q {
            Some((bytecode, constants)) => Some(
                CompiledBytecode { bytecode, constants, string_constants, function_constants, names, properties },
            ),
            None => None,
        };
    }
    proof {
        assert(sorted_entries(e, unsorted));
    }
    let original = bytecode;
    let n = original.len();
    let ghost c0 = constants@.len();
    let mut constants = constants;
    let mut optimized: Vec<u32> = Vec::new();
    let mut cursor: usize = 0;
    let mut index: usize = 0;
    let ghost mut trace: Seq<Option<(Seq<u32>, Seq<Value>)>> = Seq::empty();
    while index < entries.len()
        invariant
            n == original@.len(),
            original@ == bc0,
            program_fits(n as nat),
            entries@ == e,
            e.len() > 0,
            index <= entries@.len(),
            forall|i: int, j: int| 0 <= i < j < entries@.len() ==> (#[trigger] entries@[i]).1 <= (#[trigger] entries@[j]).1,
            optimized@.len() <= cursor <= n,
            index == 0 ==> cursor == 0 && optimized@ == Seq::<u32>::empty() && constants@ == cs0,
            index > 0 ==> cursor == (if index < entries@.len() { entries@[index as int].1 as int } else { n as int }),
            index > 0 ==> trace.len() == index + 1 && entries_prefix(bc0, e, cs0, trace) && trace.last() == Some(
                (optimized@, constants@),
            ),
            sorted_entries(e, entries_of(function_constants@, cs0)),
            function_constants == compiled.function_constants,
            index > 0 ==> e[index - 1].1 <= n,
            bc0 == compiled.bytecode@,
            cs0 == compiled.constants@,
            constants@.len() >= c0,
        decreases entries@.len() - index,
    {
        let (slot, entry_pc) = entries[index];
        if entry_pc > n {
            proof {
                assert(e[e.len() - 1].1 >= e[index as int].1);
                assert(entries_result(bc0, cs0, e, None));
                assert(sorted_entries(e, entries_of(compiled.function_constants@, compiled.constants@)));
            }
            return None;
        }
        assert(cursor <= entry_pc);
        if entry_pc > cursor {
            let q = optimize_bytecode(copy_words(&original, cursor, entry_pc), constants);
            let ghost gq = q;
            match q {
                Some((segment, next_constants)) => {
                    append_words(&mut optimized, segment);
                    constants = next_constants;
                },
                None => {
                    proof {
                        assert(bc0.take(entry_pc as int) =~= bc0.subrange(0, entry_pc as int));
                        assert(optimized_result(bc0.take(entry_pc as int), cs0, gq));
                        let t = seq![None::<(Seq<u32>, Seq<Value>)>];
                        assert(entries_prefix(bc0, e, cs0, t));
                        lemma_entries_none(bc0, e, cs0, t);
                        assert(entries_result(bc0, cs0, e, None));
                        assert(sorted_entries(e, entries_of(compiled.function_constants@, compiled.constants@)));
                    }
                    return None;
                },
            }
            proof {
                assert(bc0.take(entry_pc as int) =~= bc0.subrange(0, entry_pc as int));
                assert(optimized_result(bc0.take(entry_pc as int), cs0, gq));
                assert(Seq::<u32>::empty() + gq->Some_0.0@ =~= optimized@);
            }
        }
        proof {
            if index == 0 {
                trace = seq![Some((optimized@, constants@))];
                assert(entries_prefix(bc0, e, cs0, trace));
            }
        }
        let next_entry = if index + 1 < entries.len() {
            entries[index + 1].1
        } else {
            n
        };
        if next_entry > n {
            proof {
                assert(e[e.len() - 1].1 >= e[index + 1].1);
                assert(entries_result(bc0, cs0, e, None));
                assert(sorted_entries(e, entries_of(compiled.function_constants@, compiled.constants@)));
            }
            return None;
        }
        assert(optimized@.len() <= entry_pc);
        assert(entry_pc <= next_entry);
        let ghost state = (optimized@, constants@);
        let new_entry = optimized.len();
        if (slot as usize) < constants.len() {
            constants.set(slot as usize, number_value(new_entry as i64));
        }
        let ghost pool2 = constants@;
        proof {
            assert(entry_set(state.1, slot as int, state.0.len() as int, pool2));
        }
        let q = optimize_bytecode(copy_words(&original, entry_pc, next_entry), constants);
        let ghost gq = q;
        let ghost before = trace;
        proof {
            assert(optimized_result(bc0.subrange(entry_pc as int, next_entry as int), pool2, gq));
        }
        match q {
            Some((segment, next_constants)) => {
                append_words(&mut optimized, segment);
                constants = next_constants;
                proof {
                    assert(segment_step(bc0.subrange(entry_pc as int, next_entry as int), state.0, pool2, Some((optimized@, constants@))));
                    assert(before.len() == index + 1);
                    assert(before.last() == Some(state));
                    assert(e[index as int].0 == slot && e[index as int].1 == entry_pc);
                    lemma_entry_step_intro(bc0, e, index as int, state.0, state.1, pool2, Some((optimized@, constants@)));
                    lemma_entries_push(bc0, e, cs0, before, Some((optimized@, constants@)));
                    trace = before.push(Some((optimized@, constants@)));
                }
            },
            None => {
                proof {
                    assert(segment_step(bc0.subrange(entry_pc as int, next_entry as int), state.0, pool2, None));
                    assert(before.len() == index + 1);
                    assert(before.last() == Some(state));
                    assert(e[index as int].0 == slot && e[index as int].1 == entry_pc);
                    lemma_entry_step_intro(bc0, e, index as int, state.0, state.1, pool2, None);
                    lemma_entries_push(bc0, e, cs0, before, None);
                    lemma_entries_none(bc0, e, cs0, before.push(None));
                    assert(entries_result(bc0, cs0, e, None));
                    assert(sorted_entries(e, entries_of(compiled.function_constants@, compiled.constants@)));
                }
                return None;
            },
        }
        cursor = next_entry;
        index = index + 1;
    }
    if cursor < n {
        match optimize_bytecode(copy_words(&original, cursor, n), constants) {
            Some((segment, next_constants)) => {
                append_words(&mut optimized, segment);
                constants = next_constants;
            },
            None => {
                return None;
            },
        }
    }
    let res = Some(
        CompiledBytecode {
            bytecode: optimized,
            constants,
            string_constants,
            function_constants,
            names,
            properties,
        },
    );
    proof {
        assert(sorted_entries(e, entries_of(compiled.function_constants@, compiled.constants@)));
        assert(entries_prefix(bc0, e, cs0, trace));
        assert(entries_result(bc0, cs0, e, res));
    }
    res
}

} // verus!
