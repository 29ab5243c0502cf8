use eris::alu::ArithmeticLogicUnit;
use eris::instructions::{extract_value, AluOp, Instruction};
use eris::trit::Tryte;

/// Encodes instruction fields into a single machine word.
fn encode(opcode: i128, rd: i128, rs1: i128, rs2: i128, imm: i128) -> Tryte {
    let total = opcode
        + rd * 3_i128.pow(5)
        + rs1 * 3_i128.pow(8)
        + rs2 * 3_i128.pow(11)
        + imm * 3_i128.pow(14);
    Tryte::from_i128(total, 27)
}

#[test]
fn test_extract_value_cuts_fields() {
    let word = encode(6, 4, 1, 2, -50);
    assert_eq!(extract_value(&word, 0, 5), 6);
    assert_eq!(extract_value(&word, 5, 8), 4);
    assert_eq!(extract_value(&word, 8, 11), 1);
    assert_eq!(extract_value(&word, 11, 14), 2);
    assert_eq!(extract_value(&word, 14, 27), -50);
}

#[test]
fn test_decode_word_to_instruction() {
    let add = Instruction::from_tryte(&encode(1, 3, 1, 2, 0));
    assert_eq!(add, Instruction::Add { rd: 3, rs1: 1, rs2: 2 });

    let sub = Instruction::from_tryte(&encode(2, 5, 4, 3, 0));
    assert_eq!(sub, Instruction::Sub { rd: 5, rs1: 4, rs2: 3 });

    let addi = Instruction::from_tryte(&encode(3, 1, 0, 0, -7));
    assert_eq!(addi, Instruction::Addi { rd: 1, rs1: 0, imm: -7 });

    let lw = Instruction::from_tryte(&encode(4, 2, 0, 0, 100));
    assert_eq!(lw, Instruction::Lw { rd: 2, rs1: 0, imm: 100 });

    let sw = Instruction::from_tryte(&encode(5, 0, 0, 1, 100));
    assert_eq!(sw, Instruction::Sw { rs1: 0, rs2: 1, imm: 100 });

    let beq = Instruction::from_tryte(&encode(6, 0, 1, 2, 5));
    assert_eq!(beq, Instruction::Beq { rs1: 1, rs2: 2, imm: 5 });

    let jal = Instruction::from_tryte(&encode(7, 1, 0, 0, 10));
    assert_eq!(jal, Instruction::Jal { rd: 1, imm: 10 });

    let lui = Instruction::from_tryte(&encode(8, 1, 0, 0, 300));
    assert_eq!(lui, Instruction::Lui { rd: 1, imm: 300 });

    // Any other opcode decodes to Nop: a silent fallback, not an error.
    let nop = Instruction::from_tryte(&encode(0, 1, 2, 3, 4));
    assert_eq!(nop, Instruction::Nop);
    let nop2 = Instruction::from_tryte(&encode(121, 1, 2, 3, 4));
    assert_eq!(nop2, Instruction::Nop);
}

#[test]
fn test_decode_control_signals() {
    let (s, imm) = Instruction::Addi { rd: 1, rs1: 0, imm: 5 }.decode();
    assert_eq!(s.alu_op, AluOp::Add);
    assert!(s.reg_write);
    assert!(s.alu_src);
    assert!(!s.mem_read && !s.mem_write && !s.mem_to_reg && !s.branch && !s.jump);
    assert_eq!(imm, 5);

    let (s, imm) = Instruction::Lw { rd: 2, rs1: 0, imm: 100 }.decode();
    assert_eq!(s.alu_op, AluOp::Add);
    assert!(s.reg_write && s.alu_src && s.mem_read && s.mem_to_reg);
    assert!(!s.mem_write && !s.branch && !s.jump);
    assert_eq!(imm, 100);

    let (s, _) = Instruction::Sw { rs1: 0, rs2: 1, imm: 100 }.decode();
    assert!(s.mem_write && s.alu_src && !s.reg_write);

    let (s, _) = Instruction::Beq { rs1: 1, rs2: 2, imm: 5 }.decode();
    assert_eq!(s.alu_op, AluOp::Sub);
    assert!(s.branch && !s.alu_src && !s.reg_write);

    let (s, _) = Instruction::Jal { rd: 1, imm: 10 }.decode();
    assert!(s.jump && s.reg_write);
    assert_eq!(s.alu_op, AluOp::NoOp);

    let (s, _) = Instruction::Lui { rd: 1, imm: 300 }.decode();
    assert_eq!(s.alu_op, AluOp::PassB);
    assert!(s.reg_write && s.alu_src);

    let (s, imm) = Instruction::Nop.decode();
    assert_eq!(s.alu_op, AluOp::NoOp);
    assert!(!s.reg_write && !s.alu_src && !s.mem_read && !s.mem_write);
    assert_eq!(imm, 0);
}

#[test]
fn test_operand_getters() {
    let add = Instruction::Add { rd: 3, rs1: 1, rs2: 2 };
    assert_eq!(add.rd(), 3);
    assert_eq!(add.rs1(), 1);
    assert_eq!(add.rs2(), 2);

    let jal = Instruction::Jal { rd: 1, imm: 10 };
    assert_eq!(jal.rd(), 1);
    assert_eq!(jal.rs1(), 0, "a variant without rs1 reports register 0");
    assert_eq!(jal.rs2(), 0);

    let sw = Instruction::Sw { rs1: 0, rs2: 1, imm: 100 };
    assert_eq!(sw.rd(), 0, "a variant without rd reports register 0");
}

#[test]
fn test_alu_add_and_zero_flag() {
    let mut alu = ArithmeticLogicUnit::default();

    alu.alu_set(
        Tryte::from_i128(20, 27),
        Tryte::from_i128(22, 27),
        AluOp::Add,
    );
    alu.alu_exec();
    assert_eq!(alu.result.to_i128(), 42);
    assert_eq!(alu.zero_flag.to_i8(), 0, "a nonzero sum leaves the flag Zero");

    alu.alu_set(
        Tryte::from_i128(-5, 27),
        Tryte::from_i128(5, 27),
        AluOp::Add,
    );
    alu.alu_exec();
    assert_eq!(alu.result.to_i128(), 0);
    assert_eq!(alu.zero_flag.to_i8(), 1, "a zero sum drives the flag Positive");
}

#[test]
fn test_alu_subtract() {
    let mut alu = ArithmeticLogicUnit::default();

    alu.alu_set(
        Tryte::from_i128(10, 27),
        Tryte::from_i128(25, 27),
        AluOp::Sub,
    );
    alu.alu_exec();
    assert_eq!(alu.result.to_i128(), -15);

    alu.alu_set(Tryte::from_i128(7, 27), Tryte::from_i128(7, 27), AluOp::Sub);
    alu.alu_exec();
    assert_eq!(alu.result.to_i128(), 0);
    assert_eq!(alu.zero_flag.to_i8(), 1);
}

#[test]
fn test_alu_add_wraps_at_word_range() {
    // The ripple discards the final carry: one past the word maximum wraps
    // to the word minimum, exactly as field construction does.
    let max: i128 = 3812798742493;
    let mut alu = ArithmeticLogicUnit::default();
    alu.alu_set(Tryte::from_i128(max, 27), Tryte::from_i128(1, 27), AluOp::Add);
    alu.alu_exec();
    assert_eq!(alu.result.to_i128(), -max);
}

#[test]
fn test_alu_pass_through_and_reset() {
    let mut alu = ArithmeticLogicUnit::default();

    alu.alu_set(
        Tryte::from_i128(1, 27),
        Tryte::from_i128(300, 27),
        AluOp::PassB,
    );
    alu.alu_exec();
    assert_eq!(alu.result.to_i128(), 300, "PassB copies the second operand");

    alu.alu_reset();
    assert_eq!(alu.result.to_i128(), 0);
    assert_eq!(alu.zero_flag.to_i8(), 0);
    assert_eq!(alu.input_a.to_i128(), 0);
    assert_eq!(alu.input_b.to_i128(), 0);
    assert_eq!(alu.alu_ctrl, AluOp::NoOp);
}
