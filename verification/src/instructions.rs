//! The instruction set, its control-signal derivation, and its decoding
//! from a 27-trit machine word.
//!
//! Field layout inside a word, in trit positions (little-endian, half-open):
//! opcode `[0, 5)`, destination register `[5, 8)`, source register 1
//! `[8, 11)`, source register 2 `[11, 14)`, immediate `[14, 27)`.

use crate::trit::{
    field_value, lemma_field_value_bound, lemma_field_value_snoc, lemma_pow3_widths, pow3, Trit,
    Tryte,
};
use vstd::arithmetic::power::lemma_pow0;
use vstd::prelude::*;

verus! {

/// The closed instruction set.  Register operands are indices in 0..=26;
/// the immediate is the sign-balanced value of the 13-trit field.
#[derive(Debug, Clone, Copy, PartialEq, Eq, Structural)]
pub enum Instruction {
    Add { rd: usize, rs1: usize, rs2: usize },
    Sub { rd: usize, rs1: usize, rs2: usize },
    Addi { rd: usize, rs1: usize, imm: i32 },
    Lw { rd: usize, rs1: usize, imm: i32 },
    Sw { rs1: usize, rs2: usize, imm: i32 },
    Beq { rs1: usize, rs2: usize, imm: i32 },
    Jal { rd: usize, imm: i32 },
    Lui { rd: usize, imm: i32 },
    Nop,
}

/// The operation the arithmetic unit is asked to perform.
#[derive(Debug, Clone, Copy, PartialEq, Eq, Structural)]
pub enum AluOp {
    Add,
    Sub,
    PassB,
    NoOp,
}

/// The control-signal bundle derived from a decoded instruction; recomputed
/// every cycle, never stored across cycles.
#[derive(Debug, Clone, Copy, PartialEq, Eq, Structural)]
pub struct ControlSignals {
    pub alu_op: AluOp,
    pub alu_src: bool,
    pub reg_write: bool,
    pub mem_read: bool,
    pub mem_write: bool,
    pub mem_to_reg: bool,
    pub branch: bool,
    pub jump: bool,
}

/// The control signals with nothing enabled: what a Nop drives.
pub open spec fn idle_signals() -> ControlSignals {
    ControlSignals {
        alu_op: AluOp::NoOp,
        alu_src: false,
        reg_write: false,
        mem_read: false,
        mem_write: false,
        mem_to_reg: false,
        branch: false,
        jump: false,
    }
}

/// The control signals each instruction variant drives.
pub open spec fn spec_signals(i: Instruction) -> ControlSignals {
    match i {
        Instruction::Add { .. } => ControlSignals { alu_op: AluOp::Add, reg_write: true, ..idle_signals() },
        Instruction::Sub { .. } => ControlSignals { alu_op: AluOp::Sub, reg_write: true, ..idle_signals() },
        Instruction::Addi { .. } => ControlSignals {
            alu_op: AluOp::Add,
            reg_write: true,
            alu_src: true,
            ..idle_signals()
        },
        Instruction::Lw { .. } => ControlSignals {
            alu_op: AluOp::Add,
            reg_write: true,
            alu_src: true,
            mem_read: true,
            mem_to_reg: true,
            ..idle_signals()
        },
        Instruction::Sw { .. } => ControlSignals {
            alu_op: AluOp::Add,
            mem_write: true,
            alu_src: true,
            ..idle_signals()
        },
        Instruction::Beq { .. } => ControlSignals {
            alu_op: AluOp::Sub,
            branch: true,
            ..idle_signals()
        },
        Instruction::Jal { .. } => ControlSignals { jump: true, reg_write: true, ..idle_signals() },
        Instruction::Lui { .. } => ControlSignals {
            alu_op: AluOp::PassB,
            reg_write: true,
            alu_src: true,
            ..idle_signals()
        },
        Instruction::Nop => idle_signals(),
    }
}

/// The immediate an instruction carries; zero for the register-only forms.
pub open spec fn spec_imm(i: Instruction) -> int {
    match i {
        Instruction::Addi { imm, .. } => imm as int,
        Instruction::Lw { imm, .. } => imm as int,
        Instruction::Sw { imm, .. } => imm as int,
        Instruction::Beq { imm, .. } => imm as int,
        Instruction::Jal { imm, .. } => imm as int,
        Instruction::Lui { imm, .. } => imm as int,
        _ => 0,
    }
}

/// The first source register an instruction reads; zero where it reads none.
pub open spec fn spec_rs1(i: Instruction) -> int {
    match i {
        Instruction::Add { rs1, .. } => rs1 as int,
        Instruction::Sub { rs1, .. } => rs1 as int,
        Instruction::Addi { rs1, .. } => rs1 as int,
        Instruction::Lw { rs1, .. } => rs1 as int,
        Instruction::Sw { rs1, .. } => rs1 as int,
        Instruction::Beq { rs1, .. } => rs1 as int,
        _ => 0,
    }
}

/// The second source register an instruction reads; zero where it reads none.
pub open spec fn spec_rs2(i: Instruction) -> int {
    match i {
        Instruction::Add { rs2, .. } => rs2 as int,
        Instruction::Sub { rs2, .. } => rs2 as int,
        Instruction::Sw { rs2, .. } => rs2 as int,
        Instruction::Beq { rs2, .. } => rs2 as int,
        _ => 0,
    }
}

/// The destination register an instruction writes; zero where it writes none.
pub open spec fn spec_rd(i: Instruction) -> int {
    match i {
        Instruction::Add { rd, .. } => rd as int,
        Instruction::Sub { rd, .. } => rd as int,
        Instruction::Addi { rd, .. } => rd as int,
        Instruction::Lw { rd, .. } => rd as int,
        Instruction::Jal { rd, .. } => rd as int,
        Instruction::Lui { rd, .. } => rd as int,
        _ => 0,
    }
}

impl Instruction {
    /// Derives the control-signal bundle and the immediate for this
    /// instruction, per the decode table.
    pub fn decode(&self) -> (r: (ControlSignals, i32))
        ensures
            r.0 == spec_signals(*self),
            r.1 as int == spec_imm(*self),
    {
        let signals = ControlSignals {
            alu_op: AluOp::NoOp,
            alu_src: false,
            reg_write: false,
            mem_read: false,
            mem_write: false,
            mem_to_reg: false,
            branch: false,
            jump: false,
        };
        match *self {
            Instruction::Add { .. } => (
                ControlSignals { alu_op: AluOp::Add, reg_write: true, ..signals },
                0,
            ),
            Instruction::Sub { .. } => (
                ControlSignals { alu_op: AluOp::Sub, reg_write: true, ..signals },
                0,
            ),
            Instruction::Addi { imm, .. } => (
                ControlSignals { alu_op: AluOp::Add, reg_write: true, alu_src: true, ..signals },
                imm,
            ),
            Instruction::Lw { imm, .. } => (
                ControlSignals {
                    alu_op: AluOp::Add,
                    reg_write: true,
                    alu_src: true,
                    mem_read: true,
                    mem_to_reg: true,
                    ..signals
                },
                imm,
            ),
            Instruction::Sw { imm, .. } => (
                ControlSignals { alu_op: AluOp::Add, mem_write: true, alu_src: true, ..signals },
                imm,
            ),
            Instruction::Beq { imm, .. } => (
                ControlSignals { alu_op: AluOp::Sub, branch: true, ..signals },
                imm,
            ),
            Instruction::Jal { imm, .. } => (
                ControlSignals { jump: true, reg_write: true, ..signals },
                imm,
            ),
            Instruction::Lui { imm, .. } => (
                ControlSignals { alu_op: AluOp::PassB, reg_write: true, alu_src: true, ..signals },
                imm,
            ),
            Instruction::Nop => (signals, 0),
        }
    }

    /// The first source register index, zero where the variant has none.
    pub fn rs1(&self) -> (r: usize)
        ensures
            r as int == spec_rs1(*self),
    {
        match *self {
            Instruction::Add { rs1, .. }
            | Instruction::Sub { rs1, .. }
            | Instruction::Addi { rs1, .. }
            | Instruction::Lw { rs1, .. }
            | Instruction::Sw { rs1, .. }
            | Instruction::Beq { rs1, .. } => rs1,
            _ => 0,
        }
    }

    /// The second source register index, zero where the variant has none.
    pub fn rs2(&self) -> (r: usize)
        ensures
            r as int == spec_rs2(*self),
    {
        match *self {
            Instruction::Add { rs2, .. }
            | Instruction::Sub { rs2, .. }
            | Instruction::Sw { rs2, .. }
            | Instruction::Beq { rs2, .. } => rs2,
            _ => 0,
        }
    }

    /// The destination register index, zero where the variant has none.
    pub fn rd(&self) -> (r: usize)
        ensures
            r as int == spec_rd(*self),
    {
        match *self {
            Instruction::Add { rd, .. }
            | Instruction::Sub { rd, .. }
            | Instruction::Addi { rd, .. }
            | Instruction::Lw { rd, .. }
            | Instruction::Jal { rd, .. }
            | Instruction::Lui { rd, .. } => rd,
            _ => 0,
        }
    }
}

/// A register field holds three balanced trits, so its value lies in
/// -13..=13; the index it selects is that value reduced modulo 27 into
/// 0..=26, so every one of the 27 encodings names its own register.
pub open spec fn reg_index(v: int) -> int {
    if v < 0 {
        v + 27
    } else {
        v
    }
}

/// The instruction a 27-trit word decodes to.  Opcodes 1..=8 name the eight
/// real instructions; every other opcode decodes to Nop by design.
pub open spec fn spec_decode(s: Seq<Trit>) -> Instruction {
    let op = field_value(s.subrange(0, 5));
    let rd = reg_index(field_value(s.subrange(5, 8))) as usize;
    let rs1 = reg_index(field_value(s.subrange(8, 11))) as usize;
    let rs2 = reg_index(field_value(s.subrange(11, 14))) as usize;
    let imm = field_value(s.subrange(14, 27)) as i32;
    if op == 1 {
        Instruction::Add { rd, rs1, rs2 }
    } else if op == 2 {
        Instruction::Sub { rd, rs1, rs2 }
    } else if op == 3 {
        Instruction::Addi { rd, rs1, imm }
    } else if op == 4 {
        Instruction::Lw { rd, rs1, imm }
    } else if op == 5 {
        Instruction::Sw { rs1, rs2, imm }
    } else if op == 6 {
        Instruction::Beq { rs1, rs2, imm }
    } else if op == 7 {
        Instruction::Jal { rd, imm }
    } else if op == 8 {
        Instruction::Lui { rd, imm }
    } else {
        Instruction::Nop
    }
}

impl Instruction {
    /// Decodes a machine word: classifies the opcode and cuts the register
    /// and immediate fields out of their fixed positions.
    pub fn from_tryte(machine_code: &Tryte) -> (r: Self)
        requires
            machine_code@.len() == 27,
        ensures
            r == spec_decode(machine_code@),
    {
        let opcode = extract_value(machine_code, 0, 5);
        let rd_v = extract_value(machine_code, 5, 8);
        let rs1_v = extract_value(machine_code, 8, 11);
        let rs2_v = extract_value(machine_code, 11, 14);
        let imm_long = extract_value(machine_code, 14, 27);

        proof {
            lemma_pow3_widths();
            lemma_field_value_bound(machine_code@.subrange(5, 8));
            lemma_field_value_bound(machine_code@.subrange(8, 11));
            lemma_field_value_bound(machine_code@.subrange(11, 14));
            lemma_field_value_bound(machine_code@.subrange(14, 27));
        }

        let rd = if rd_v < 0 {
            (rd_v + 27) as usize
        } else {
            rd_v as usize
        };
        let rs1 = if rs1_v < 0 {
            (rs1_v + 27) as usize
        } else {
            rs1_v as usize
        };
        let rs2 = if rs2_v < 0 {
            (rs2_v + 27) as usize
        } else {
            rs2_v as usize
        };
        let imm = imm_long as i32;

        match opcode {
            1 => Instruction::Add { rd, rs1, rs2 },
            2 => Instruction::Sub { rd, rs1, rs2 },
            3 => Instruction::Addi { rd, rs1, imm },
            4 => Instruction::Lw { rd, rs1, imm },
            5 => Instruction::Sw { rs1, rs2, imm },
            6 => Instruction::Beq { rs1, rs2, imm },
            7 => Instruction::Jal { rd, imm },
            8 => Instruction::Lui { rd, imm },
            _ => Instruction::Nop,
        }
    }
}

/// The value of the trits in positions `start..end` of a word, read as a
/// balanced-ternary number in its own right.
pub fn extract_value(tryte: &Tryte, start: usize, end: usize) -> (r: i128)
    requires
        start <= end,
        end <= tryte@.len(),
        tryte@.len() <= 80,
    ensures
        r as int == field_value(tryte@.subrange(start as int, end as int)),
{
    let mut value: i128 = 0;
    let mut power: i128 = 1;
    let mut i: usize = start;
    proof {
        lemma_pow0(3);
        assert(tryte@.subrange(start as int, start as int) =~= Seq::<Trit>::empty());
    }
    while i < end
        invariant
            start <= i <= end,
            end <= tryte@.len(),
            tryte@.len() <= 80,
            value as int == field_value(tryte@.subrange(start as int, i as int)),
            power as int == pow3((i - start) as nat),
        decreases end - i,
    {
        proof {
            crate::trit::lemma_pow3_unfold((i + 1 - start) as nat);
            vstd::arithmetic::power::lemma_pow_increases(3, (i + 1 - start) as nat, 80nat);
            crate::trit::lemma_pow3_eighty();
            lemma_field_value_bound(tryte@.subrange(start as int, i as int));
            lemma_field_value_snoc(tryte@.subrange(start as int, i as int), tryte@[i as int]);
            assert(tryte@.subrange(start as int, i + 1) =~= tryte@.subrange(
                start as int,
                i as int,
            ).push(tryte@[i as int]));
        }
        let t = tryte.0[i];
        if t == Trit::Positive {
            value = value + power;
        } else if t == Trit::Negative {
            value = value - power;
        }
        power = power * 3;
        i += 1;
    }
    value
}

} // verus!
