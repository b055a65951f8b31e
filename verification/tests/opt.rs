use lib::codegen::{encode_asbx, offset_to, CompiledBytecode};
use lib::opcode::Opcode;
use lib::opt::inst::Instruction;
use lib::opt::{
    coalesce_registers, copy_propagation, eliminate_dead_code, fold_temporary_checks, optimize_bytecode,
    optimize_compiled, optimize_peephole, relocate_jumps, simplify_branches,
};
use lib::value::Value;

fn word(op: u8, a: u8, b: u8, c: u8) -> u32 {
    (op as u32) | ((a as u32) << 8) | ((b as u32) << 16) | ((c as u32) << 24)
}

fn word_bx(op: u8, a: u8, bx: u16) -> u32 {
    (op as u32) | ((a as u32) << 8) | ((bx as u32) << 16)
}

const MOV: u8 = 0;
const JMP: u8 = 5;
const LOAD_I: u8 = 6;
const ADD_I: u8 = 36;
const RET: u8 = 108;
const RET_REG: u8 = 110;
const LOAD_ADD: u8 = 211;

#[test]
fn encode_asbx_packs_the_fields() {
    assert_eq!(encode_asbx(Opcode::LoadI, 3, -1), word_bx(LOAD_I, 3, 0xFFFF));
    assert_eq!(encode_asbx(Opcode::Jmp, 0, 2), word_bx(JMP, 0, 2));
}

#[test]
fn decode_then_encode_gives_the_word() {
    let boundary: Vec<usize> = vec![0, 1, 2, 3];
    for w in [word_bx(LOAD_I, 1, 7), word(MOV, 2, 1, 0), word(RET, 0, 0, 0)] {
        let i = Instruction::decode(1, w);
        assert!(!i.removed);
        assert_eq!(i.encode(1, &boundary), Some(w));
    }
    let j = Instruction::decode(0, word_bx(JMP, 0, 1));
    assert_eq!(j.target, Some(2));
    assert_eq!(j.encode(0, &boundary), Some(word_bx(JMP, 0, 1)));
}

#[test]
fn instruction_builders() {
    let l = Instruction::new_load_i(4, -3);
    assert_eq!(l.opcode, Opcode::LoadI);
    assert_eq!(l.a, 4);
    assert_eq!(l.sbx, -3);
    let m = Instruction::new_mov(1, 2);
    assert_eq!((m.opcode, m.a, m.b), (Opcode::Mov, 1, 2));
    let k = Instruction::new_load_k(5, 9);
    assert_eq!((k.opcode, k.a, k.bx), (Opcode::LoadK, 5, 9));
}

#[test]
fn relocation_without_removals_is_the_identity() {
    let program = vec![
        word_bx(LOAD_I, 1, 5),
        word_bx(JMP, 0, 1),
        word(MOV, 2, 1, 0),
        word_bx(JMP, 0, 0xFFFC),
        word(RET, 0, 0, 0),
    ];
    let constants = vec![Value::i32(1)];
    let (bc, cs) = relocate_jumps(program.clone(), constants.clone()).expect("relocates");
    assert_eq!(bc, program);
    assert_eq!(cs, constants);
}

#[test]
fn threading_drops_jumps_to_the_next_instruction() {
    let program = vec![word_bx(JMP, 0, 0), word(RET, 0, 0, 0)];
    let (bc, _) = simplify_branches(program, vec![]).expect("simplifies");
    assert_eq!(bc, vec![word(RET, 0, 0, 0)]);
}

#[test]
fn threading_follows_jump_chains() {
    let program = vec![
        word_bx(JMP, 0, 1),
        word(RET, 0, 0, 0),
        word_bx(JMP, 0, 0),
        word(RET, 0, 0, 0),
    ];
    let (bc, _) = simplify_branches(program, vec![]).expect("simplifies");
    assert_eq!(bc, vec![word_bx(JMP, 0, 1), word(RET, 0, 0, 0), word(RET, 0, 0, 0)]);
}

#[test]
fn unchanged_programs_come_back_as_given() {
    let program = vec![word_bx(LOAD_I, 1, 5), word(RET_REG, 1, 0, 0)];
    let (bc, cs) = simplify_branches(program.clone(), vec![Value::null()]).expect("simplifies");
    assert_eq!(bc, program);
    assert_eq!(cs, vec![Value::null()]);
}

#[test]
fn dead_definitions_are_removed() {
    let program = vec![word_bx(LOAD_I, 1, 5), word_bx(LOAD_I, 2, 6), word(RET_REG, 2, 0, 0)];
    let (bc, _) = eliminate_dead_code(program, vec![]).expect("eliminates");
    assert_eq!(bc, vec![word_bx(LOAD_I, 2, 6), word(RET_REG, 2, 0, 0)]);
}

#[test]
fn peephole_fuses_load_and_add_immediate() {
    let program = vec![word_bx(LOAD_I, 1, 5), word(ADD_I, 2, 1, 3), word(RET, 0, 0, 0)];
    let (bc, _) = optimize_peephole(program, vec![]).expect("fuses");
    assert_eq!(bc, vec![word(LOAD_ADD, 2, 1, 3), word(RET, 0, 0, 0)]);
}

#[test]
fn peephole_removes_self_moves() {
    let program = vec![word(MOV, 3, 3, 0), word(RET, 0, 0, 0)];
    let (bc, _) = optimize_peephole(program, vec![]).expect("removes");
    assert_eq!(bc, vec![word(RET, 0, 0, 0)]);
}

#[test]
fn value_passes_keep_sizes() {
    let program = vec![
        word(MOV, 2, 1, 0),
        word(MOV, 3, 2, 0),
        word(RET_REG, 3, 0, 0),
    ];
    let (bc, cs) = copy_propagation(program.clone(), vec![Value::i32(0)]).expect("propagates");
    assert!(bc.len() <= program.len());
    assert_eq!(cs.len(), 1);
    let (bc, _) = coalesce_registers(program.clone(), vec![]).expect("coalesces");
    assert!(bc.len() <= program.len());
    let (bc, cs) = fold_temporary_checks(program.clone(), vec![]).expect("folds");
    assert!(bc.len() <= program.len());
    assert!(cs.is_empty());
}

#[test]
fn the_pipeline_never_grows_the_code() {
    let program = vec![
        word_bx(LOAD_I, 1, 5),
        word(ADD_I, 2, 1, 3),
        word(MOV, 4, 4, 0),
        word_bx(JMP, 0, 0),
        word(RET_REG, 2, 0, 0),
    ];
    let (bc, cs) = optimize_bytecode(program.clone(), vec![Value::i32(3)]).expect("optimizes");
    assert!(bc.len() <= program.len());
    assert!(cs.len() >= 1);
}

#[test]
fn compiled_units_keep_their_metadata() {
    let compiled = CompiledBytecode {
        bytecode: vec![word(MOV, 3, 3, 0), word(RET, 0, 0, 0)],
        constants: vec![Value::i32(1)],
        string_constants: vec![(0, String::from("s"))],
        function_constants: vec![],
        names: vec![String::from("main")],
        properties: vec![],
    };
    let out = optimize_compiled(compiled).expect("optimizes");
    assert_eq!(out.bytecode, vec![word(RET, 0, 0, 0)]);
    assert_eq!(out.string_constants, vec![(0, String::from("s"))]);
    assert_eq!(out.names, vec![String::from("main")]);
}

#[test]
fn jump_offsets_are_relative_to_the_next_instruction() {
    assert_eq!(offset_to(10, 4), Some(5));
    assert_eq!(offset_to(4, 4), Some(-1));
    assert_eq!(offset_to(0, 10), Some(-11));
    assert_eq!(offset_to(32768, 0), Some(32767));
    assert_eq!(offset_to(32769, 0), None);
    assert_eq!(offset_to(0, 32767), Some(-32768));
    assert_eq!(offset_to(0, 32768), None);
}

const SWITCH: u8 = 106;

#[test]
fn function_entries_move_with_their_code() {
    let compiled = CompiledBytecode {
        bytecode: vec![word(MOV, 3, 3, 0), word(RET, 0, 0, 0), word(MOV, 4, 4, 0), word(RET, 0, 0, 0)],
        constants: vec![Value::i32(2)],
        string_constants: vec![],
        function_constants: vec![0],
        names: vec![],
        properties: vec![],
    };
    let out = optimize_compiled(compiled).expect("optimizes");
    assert_eq!(out.bytecode, vec![word(RET, 0, 0, 0), word(RET, 0, 0, 0)]);
    assert_eq!(out.constants[0].as_f64(), Some(1.0f64.to_bits()));
    assert_eq!(out.function_constants, vec![0]);
}

#[test]
fn an_entry_past_the_end_fails() {
    let compiled = CompiledBytecode {
        bytecode: vec![word(RET, 0, 0, 0)],
        constants: vec![Value::i32(5)],
        string_constants: vec![],
        function_constants: vec![0],
        names: vec![],
        properties: vec![],
    };
    assert!(optimize_compiled(compiled).is_none());
}

#[test]
fn switch_offsets_follow_their_targets() {
    let program = vec![word(SWITCH, 1, 0, 0), word(MOV, 3, 3, 0), word(RET, 0, 0, 0)];
    let constants = vec![Value::i32(1), Value::i32(1), Value::i32(7), Value::i32(1)];
    let (bc, cs) = optimize_peephole(program, constants).expect("removes");
    assert_eq!(bc, vec![word(SWITCH, 1, 0, 0), word(RET, 0, 0, 0)]);
    assert_eq!(cs[0].as_i32(), Some(1));
    assert_eq!(cs[1].as_f64(), Some(0.0f64.to_bits()));
    assert_eq!(cs[2].as_i32(), Some(7));
    assert_eq!(cs[3].as_f64(), Some(0.0f64.to_bits()));
}

#[test]
fn folded_checks_append_each_boolean_once() {
    const LOAD_K: u8 = 1;
    const IS_UNDEF: u8 = 30;
    const IS_NULL: u8 = 31;
    let program = vec![
        word_bx(LOAD_K, 1, 0),
        word(IS_NULL, 2, 1, 0),
        word(IS_UNDEF, 3, 1, 0),
        word(IS_NULL, 4, 1, 0),
        word(IS_UNDEF, 5, 1, 0),
        word(RET_REG, 2, 0, 0),
    ];
    let (bc, cs) = fold_temporary_checks(program.clone(), vec![Value::null()]).expect("folds");
    assert_eq!(bc.len(), program.len());
    assert_eq!(cs.len(), 3);
    assert_eq!(cs[0], Value::null());
    for pc in 1..5 {
        assert_eq!(bc[pc] & 0xFF, LOAD_K as u32);
    }
    assert_eq!(bc[1] >> 16, bc[3] >> 16);
    assert_eq!(bc[2] >> 16, bc[4] >> 16);
    assert_ne!(bc[1] >> 16, bc[2] >> 16);
    assert_eq!(cs[(bc[1] >> 16) as usize], Value::bool(true));
    assert_eq!(cs[(bc[2] >> 16) as usize], Value::bool(false));
}
