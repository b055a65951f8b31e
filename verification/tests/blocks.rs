use lib::opcode::Opcode;
use lib::opt::blocks::thread_jumps;
use lib::opt::dead::eliminate_dead_defs;
use lib::opt::inst::{Instruction, ACC};
use lib::opt::peephole::{constant_fold_block, optimize_basic_peephole_block, optimize_peephole_block};
use lib::opt::values::{coalesce_registers_block, copy_propagation_block};

fn op(opcode: Opcode, a: u8, b: u8, c: u8) -> Instruction {
    Instruction { opcode, a, b, c, bx: 0, sbx: 0, target: None, removed: false }
}

fn jmp(target: usize) -> Instruction {
    Instruction { opcode: Opcode::Jmp, a: 0, b: 0, c: 0, bx: 0, sbx: 0, target: Some(target), removed: false }
}

#[test]
fn folding_repeats_until_no_triple_folds() {
    let mut v = vec![
        Instruction::new_load_i(1, 2),
        Instruction::new_load_i(2, 3),
        op(Opcode::Add, 0, 1, 2),
        op(Opcode::Ret, 0, 0, 0),
    ];
    assert!(constant_fold_block(&mut v, 0, 4));
    assert_eq!(v[2], Instruction::new_load_i(ACC, 5));
    assert!(!constant_fold_block(&mut v, 0, 4));
}

#[test]
fn folding_skips_sums_that_do_not_fit() {
    let mut v = vec![
        Instruction::new_load_i(1, 30000),
        Instruction::new_load_i(2, 30000),
        op(Opcode::Add, 0, 1, 2),
    ];
    assert!(!constant_fold_block(&mut v, 0, 3));
    assert_eq!(v[2].opcode, Opcode::Add);
}

#[test]
fn basic_rewrites_undo_copies_and_forward_immediates() {
    let mut v = vec![
        op(Opcode::Mov, 1, 2, 0),
        op(Opcode::Mov, 2, 1, 0),
        Instruction::new_load_i(3, 7),
        op(Opcode::Mov, 4, 3, 0),
        op(Opcode::Mov, 5, 5, 0),
    ];
    assert!(optimize_basic_peephole_block(&mut v, 0, 5));
    assert!(!v[0].removed);
    assert!(v[1].removed);
    assert_eq!(v[3], Instruction::new_load_i(4, 7));
    assert!(v[4].removed);
}

#[test]
fn peephole_fuses_immediate_compare_and_branch() {
    let mut v = vec![
        Instruction::new_load_i(1, 4),
        op(Opcode::Eq, 2, 1, 3),
        Instruction { target: Some(9), ..op(Opcode::JmpFalse, 2, 0, 0) },
    ];
    assert!(optimize_peephole_block(&mut v, 0, 3));
    assert_eq!(v[0].opcode, Opcode::LoadCmpEqJfalse);
    assert_eq!(v[0].target, Some(9));
    assert!(v[1].removed && v[2].removed);
}

#[test]
fn dead_copies_cascade_backwards() {
    let mut v = vec![
        Instruction::new_load_i(1, 5),
        op(Opcode::Mov, 2, 1, 0),
        op(Opcode::RetU, 0, 0, 0),
    ];
    assert!(eliminate_dead_defs(&mut v, 0, 3, true));
    assert!(v[0].removed && v[1].removed);
    let mut w = vec![Instruction::new_load_i(1, 5)];
    assert!(!eliminate_dead_defs(&mut w, 0, 1, false));
    assert!(!w[0].removed);
}

#[test]
fn copies_are_read_through() {
    let mut v = vec![
        op(Opcode::Mov, 2, 1, 0),
        op(Opcode::Mov, 3, 2, 0),
        op(Opcode::RetReg, 3, 0, 0),
    ];
    assert!(copy_propagation_block(&mut v, 0, 3));
    assert_eq!(v[1].b, 1);
    assert_eq!(v[2].a, 1);
}

#[test]
fn reloads_become_copies() {
    let mut v = vec![
        Instruction::new_load_i(1, 9),
        Instruction::new_load_i(2, 9),
        Instruction::new_load_k(3, 4),
        Instruction::new_load_k(5, 4),
    ];
    assert!(coalesce_registers_block(&mut v, 0, 4));
    assert_eq!(v[1], Instruction::new_mov(2, 1));
    assert_eq!(v[3], Instruction::new_mov(5, 3));
}

#[test]
fn threading_points_jumps_at_chain_ends() {
    let mut v = vec![jmp(1), jmp(3), op(Opcode::RetU, 0, 0, 0), op(Opcode::RetU, 0, 0, 0)];
    assert!(thread_jumps(&mut v));
    assert_eq!(v[0].target, Some(3));
    assert!(!v[0].removed);
    assert!(!v[1].removed);
}
