use lib::opt::blocks::{collect_block_leaders, resolve_threaded_target};
use lib::opt::dataflow::solve_liveness;
use lib::opt::inst::decode_program;
use lib::opt::liveness::{
    analyze_liveness, build_instruction_semantics, conditional_successors, push_call_bundle,
    push_unique_reg, reuse_registers_linear_scan, sort_intervals, LiveInterval,
};
use lib::opt::values::{invalidate_value_key, record_value_key, resolve_alias, RegisterValueKey};

fn word(op: u8, a: u8, b: u8, c: u8) -> u32 {
    (op as u32) | ((a as u32) << 8) | ((b as u32) << 16) | ((c as u32) << 24)
}

fn word_bx(op: u8, a: u8, bx: u16) -> u32 {
    (op as u32) | ((a as u32) << 8) | ((bx as u32) << 16)
}

const MOV: u8 = 0;
const JMP: u8 = 5;
const LOAD_I: u8 = 6;
const JMP_TRUE: u8 = 7;
const RET: u8 = 108;
const RET_REG: u8 = 110;

#[test]
fn block_leaders_follow_branches() {
    let program = vec![
        word_bx(LOAD_I, 0, 1),
        word_bx(JMP_TRUE, 0, 1),
        word(RET, 0, 0, 0),
        word(RET, 0, 0, 0),
    ];
    let insts = decode_program(&program);
    assert_eq!(collect_block_leaders(&insts, &vec![]), vec![0, 2, 3]);
    let straight = decode_program(&vec![word_bx(LOAD_I, 0, 1), word(MOV, 1, 0, 0)]);
    assert_eq!(collect_block_leaders(&straight, &vec![]), vec![0]);
}

#[test]
fn threading_stops_at_cycles() {
    let program = vec![word_bx(JMP, 0, 0), word_bx(JMP, 0, 0xFFFE), word(RET, 0, 0, 0)];
    let insts = decode_program(&program);
    // 0 -> 1 -> 0 is a cycle: the walk stops where it started again.
    assert_eq!(resolve_threaded_target(&insts, 0), 0);
    assert_eq!(resolve_threaded_target(&insts, 2), 2);
    assert_eq!(resolve_threaded_target(&insts, 7), 7);
}

#[test]
fn conditional_successors_skip_duplicates() {
    assert_eq!(conditional_successors(0, Some(3), 5), vec![3, 1]);
    assert_eq!(conditional_successors(0, Some(1), 5), vec![1]);
    assert_eq!(conditional_successors(4, Some(9), 5), Vec::<usize>::new());
    assert_eq!(conditional_successors(2, None, 5), vec![3]);
}

#[test]
fn register_lists() {
    let mut regs = vec![1u8];
    push_unique_reg(&mut regs, 1);
    push_unique_reg(&mut regs, 4);
    assert_eq!(regs, vec![1, 4]);
    let mut bundle = Vec::new();
    assert!(push_call_bundle(&mut bundle, 3, 2));
    assert_eq!(bundle, vec![3, 4, 5]);
    let mut refused = vec![9u8];
    assert!(!push_call_bundle(&mut refused, 250, 10));
    assert_eq!(refused, vec![9]);
}

#[test]
fn liveness_reaches_a_fixed_point() {
    let program = vec![word_bx(LOAD_I, 5, 1), word(MOV, 6, 5, 0), word(RET_REG, 6, 0, 0)];
    let insts = decode_program(&program);
    let sem = build_instruction_semantics(&insts, &vec![]).expect("semantics");
    assert_eq!(sem[0].successors, vec![1]);
    assert_eq!(sem[2].successors, Vec::<usize>::new());
    let (live_in, live_out) = solve_liveness(&sem);
    assert!(live_out[0][5]);
    assert!(live_in[1][5]);
    assert!(!live_in[0][5]);
    assert!(live_in[2][6]);
    assert!(!live_out[2][6]);
    let analysis = analyze_liveness(&insts, &vec![]).expect("analysis");
    let iv5 = analysis.intervals[5].expect("r5 is live");
    assert_eq!((iv5.start, iv5.end), (0, 1));
    let iv6 = analysis.intervals[6].expect("r6 is live");
    assert_eq!((iv6.start, iv6.end), (1, 2));
    assert!(analysis.pinned[0]);
    assert!(analysis.pinned[255]);
}

#[test]
fn intervals_sort_by_start_end_register() {
    let a = LiveInterval { reg: 3, start: 2, end: 5 };
    let b = LiveInterval { reg: 1, start: 0, end: 9 };
    let c = LiveInterval { reg: 2, start: 2, end: 4 };
    let d = LiveInterval { reg: 1, start: 2, end: 4 };
    assert_eq!(sort_intervals(vec![a, b, c, d]), vec![b, d, c, a]);
}

#[test]
fn registers_are_reused_by_linear_scan() {
    let program = vec![word_bx(LOAD_I, 5, 1), word(RET_REG, 5, 0, 0)];
    let (bc, cs) = reuse_registers_linear_scan(program, vec![]).expect("rewrites");
    assert_eq!(bc, vec![word_bx(LOAD_I, 1, 1), word(RET_REG, 1, 0, 0)]);
    assert!(cs.is_empty());
    let settled = vec![word_bx(LOAD_I, 1, 1), word(RET_REG, 1, 0, 0)];
    let (bc, _) = reuse_registers_linear_scan(settled.clone(), vec![]).expect("keeps");
    assert_eq!(bc, settled);
}

#[test]
fn aliases_and_value_keys() {
    let mut aliases: Vec<Option<u8>> = vec![None; 256];
    aliases[3] = Some(2);
    aliases[2] = Some(1);
    assert_eq!(resolve_alias(&aliases, 3), 1);
    assert_eq!(resolve_alias(&aliases, 7), 7);
    aliases[1] = Some(3);
    // A cycle stops after one step per register.
    let r = resolve_alias(&aliases, 3);
    assert!(r == 1 || r == 2 || r == 3);

    let mut available: Vec<(RegisterValueKey, u8)> = Vec::new();
    let mut values: Vec<Option<RegisterValueKey>> = vec![None; 256];
    record_value_key(&mut available, &mut values, 4, RegisterValueKey::Immediate(7));
    assert_eq!(values[4], Some(RegisterValueKey::Immediate(7)));
    assert_eq!(available, vec![(RegisterValueKey::Immediate(7), 4)]);
    record_value_key(&mut available, &mut values, 5, RegisterValueKey::Immediate(7));
    assert_eq!(available, vec![(RegisterValueKey::Immediate(7), 5)]);
    invalidate_value_key(&mut available, &mut values, 4);
    assert_eq!(values[4], None);
    assert_eq!(available, vec![(RegisterValueKey::Immediate(7), 5)]);
    invalidate_value_key(&mut available, &mut values, 5);
    assert!(available.is_empty());
}
