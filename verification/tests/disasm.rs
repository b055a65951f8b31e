use lib::disasm::{disassemble, disassemble_clean, AsmInstruction};
use lib::fmt::{push_dec, push_dec_u64, push_digits, push_hex4, push_str};
use lib::opcode::Opcode;
use lib::value::Value;

fn word(op: u8, a: u8, b: u8, c: u8) -> u32 {
    (op as u32) | ((a as u32) << 8) | ((b as u32) << 16) | ((c as u32) << 24)
}

fn word_bx(op: u8, a: u8, bx: u16) -> u32 {
    (op as u32) | ((a as u32) << 8) | ((bx as u32) << 16)
}

#[test]
fn push_helpers_build_text() {
    let mut s = String::new();
    push_str(&mut s, "x");
    push_str(&mut s, "=");
    push_dec(&mut s, -42);
    push_str(&mut s, ";");
    push_dec_u64(&mut s, 1234567890123);
    push_str(&mut s, ";");
    push_digits(&mut s, 255, 2);
    push_str(&mut s, ";");
    push_hex4(&mut s, 0x2a);
    push_str(&mut s, ";");
    push_hex4(&mut s, 0x12345);
    assert_eq!(s, "x=-42;1234567890123;11111111;002A;12345");
}

#[test]
fn push_dec_handles_extremes() {
    let mut s = String::new();
    push_dec(&mut s, i64::MIN);
    assert_eq!(s, i64::MIN.to_string());
    let mut t = String::new();
    push_dec(&mut t, 0);
    assert_eq!(t, "0");
}

#[test]
fn opcode_bytes_round_trip() {
    for b in 0u8..=255 {
        assert_eq!(Opcode::from_u8(b).as_u8(), b);
    }
    assert_eq!(Opcode::from_u8(0), Opcode::Mov);
    assert_eq!(Opcode::from_u8(6), Opcode::LoadI);
    assert_eq!(Opcode::from_u8(250), Opcode::Reserved(250));
}

#[test]
fn decode_splits_the_fields() {
    let i = AsmInstruction::decode(3, word(2, 1, 2, 3));
    assert_eq!(i.pc, 3);
    assert_eq!(i.opcode, Opcode::Add);
    assert_eq!((i.a, i.b, i.c), (1, 2, 3));
    assert_eq!(i.bx, 0x0302);
    assert_eq!(i.opcode_to_mnemonic(), "add");
}

#[test]
fn offset_listing() {
    let bytecode = vec![
        word_bx(6, 1, 5),            // load_i r1, 5
        word(0, 2, 1, 0),            // mov r2, r1, r0
        word_bx(1, 3, 0),            // load_k r3, const[0]
        word_bx(1, 3, 7),            // load_k with a missing constant
        word_bx(5, 0, 0xFFFF),       // jmp back to itself
        word(2, 0, 1, 2),            // add r1, r2
        word(108, 0, 0, 0),          // ret
    ];
    let constants = vec![Value::i32(9)];
    let lines = disassemble(&bytecode, &constants);
    assert_eq!(
        lines,
        vec![
            "0000: load_i r1, 5",
            "0004: mov r2, r1, r0",
            "0008: load_k r3, const[0]",
            "000C: load_k r3, const[out of bounds]",
            "0010: jmp -> 0010",
            "0014: add r1, r2",
            "0018: ret",
        ]
    );
}

#[test]
fn clean_listing() {
    let bytecode = vec![word_bx(6, 1, 0xFFFE), word_bx(5, 0, 3), word(108, 0, 0, 0)];
    let lines = disassemble_clean(&bytecode, &[]);
    assert_eq!(lines, vec!["loadi r1, -2", "jmp -> L3", "ret"]);
}

#[test]
fn single_instruction_listings() {
    let i = AsmInstruction::decode(1, word_bx(7, 4, 2));
    assert_eq!(i.to_asm(&[]), "0004: jmp_true r4, -> 0010");
    assert_eq!(i.to_clean_asm(&[]), "jmptrue r4, -> L2");
}

#[test]
fn mnemonics_are_snake_case_and_clean_ones_have_no_underscores() {
    let set_upval = AsmInstruction::decode(0, word(81, 0, 0, 0));
    assert_eq!(set_upval.opcode_to_mnemonic(), "set_upval");
    let call = AsmInstruction::decode(0, word(164, 0, 0, 0));
    assert_eq!(call.opcode_to_mnemonic(), "call1_sub_i");
    for byte in 0u32..=255 {
        let i = AsmInstruction::decode(0, byte);
        let clean = i.to_clean_asm(&[]);
        let name = clean.split(' ').next().unwrap_or("");
        assert!(!name.contains('_'), "{}", clean);
        assert_eq!(name, i.opcode_to_mnemonic().replace('_', ""));
    }
}
