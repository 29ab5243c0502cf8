//! The processing unit: one `cycle()` call performs an atomic
//! fetch-decode-execute step with no intermediate observable state.
//!
//! The contract of `cycle` pins the whole step: which word is fetched at
//! the program counter, which instruction it decodes to, what the
//! arithmetic unit computes, which address is written or read, which
//! register is written back, and where the program counter lands.
//! Program-counter arithmetic that leaves the representable range wraps by
//! the same balanced reduction as every other word construction.

use crate::address_space::AddressSpace;
use crate::alu::{spec_zero_flag, ArithmeticLogicUnit};
use crate::instructions::{
    spec_decode, spec_imm, spec_rd, spec_rs1, spec_rs2, spec_signals, AluOp, ControlSignals,
    Instruction,
};
use crate::registers::{RegAddr, Registers};
use crate::trit::{
    bal_wrap, bt_digits, field_value, lemma_bt_digits_zero, lemma_field_value_bound,
    lemma_pow3_widths, Trit, TritField, Tryte,
};
use vstd::prelude::*;

verus! {

/// The value driven onto the arithmetic unit's second input: the immediate
/// squeezed into a word when the source mux selects it, the second source
/// register otherwise.
pub open spec fn spec_operand_b(sig: ControlSignals, rv2: int, imm: int) -> int {
    if sig.alu_src {
        bal_wrap(imm, 27)
    } else {
        rv2
    }
}

/// The value the arithmetic unit's result holds after the execute phase;
/// zero when no operation is selected, since the unit is reset first.
pub open spec fn spec_alu_value(op: AluOp, a: int, b: int) -> int {
    match op {
        AluOp::Add => bal_wrap(a + b, 27),
        AluOp::Sub => bal_wrap(a - b, 27),
        AluOp::PassB => b,
        AluOp::NoOp => 0,
    }
}

/// The zero flag after the execute phase: derived from the result for the
/// two arithmetic operations, the reset value otherwise.
pub open spec fn spec_flag(op: AluOp, out: int) -> Trit {
    match op {
        AluOp::Add | AluOp::Sub => spec_zero_flag(out),
        _ => Trit::Zero,
    }
}

/// The value written back to the destination register: the memory word for
/// a load, the link address for a jump, the raw arithmetic result else.
pub open spec fn spec_writeback(sig: ControlSignals, alu_out: int, mem_out: int, pc: int) -> int {
    if sig.mem_to_reg {
        mem_out
    } else if sig.jump {
        bal_wrap(pc + 1, 27)
    } else {
        alu_out
    }
}

/// Where the program counter lands: jump and taken branch advance by the
/// immediate, everything else by one, all wrapped into the word range.
pub open spec fn spec_next_pc(sig: ControlSignals, flag: Trit, pc: int, imm: int) -> int {
    if sig.jump {
        bal_wrap(pc + imm, 27)
    } else if sig.branch && flag == Trit::Positive {
        bal_wrap(pc + imm, 27)
    } else {
        bal_wrap(pc + 1, 27)
    }
}

/// The single-cycle datapath: register file, address space and arithmetic
/// unit, plus the per-cycle decoded instruction, control signals and
/// immediate, which have no life across cycles.
pub struct CentralProcessingUnit {
    pub registers: Registers,
    pub address_space: AddressSpace,
    pub arithmetic_logic_unit: ArithmeticLogicUnit,
    pub current_instruction: Instruction,
    pub control_signals: ControlSignals,
    pub immediate: i32,
}

impl CentralProcessingUnit {
    /// The three owned components are well formed.
    pub open spec fn wf(&self) -> bool {
        &&& self.registers.wf()
        &&& self.address_space.wf()
        &&& self.arithmetic_logic_unit.wf()
    }

    /// Builds a processing unit around a register file, an address space
    /// (possibly pre-loaded with program words) and an arithmetic unit.
    pub fn from(
        registers: Registers,
        address_space: AddressSpace,
        arithmetic_logic_unit: ArithmeticLogicUnit,
    ) -> (r: Self)
        ensures
            r.registers == registers,
            r.address_space == address_space,
            r.arithmetic_logic_unit == arithmetic_logic_unit,
            r.current_instruction == Instruction::Nop,
    {
        Self {
            registers,
            address_space,
            arithmetic_logic_unit,
            current_instruction: Instruction::Nop,
            control_signals: ControlSignals {
                alu_op: AluOp::NoOp,
                alu_src: false,
                reg_write: false,
                mem_read: false,
                mem_write: false,
                mem_to_reg: false,
                branch: false,
                jump: false,
            },
            immediate: 0,
        }
    }

    /// Fetch phase: the word at the address equal to the program counter.
    fn fetch(&self) -> (r: Tryte)
        requires
            self.wf(),
        ensures
            r@.len() == 27,
            r@ == bt_digits(self.address_space.mem(self.registers.pc_val()), 27),
    {
        self.address_space.read(self.registers.read_pc())
    }

    /// Decode phase: classifies the fetched word and derives the control
    /// signals and the immediate; touches nothing else.
    fn decode(&mut self, raw_instr: Tryte)
        requires
            raw_instr@.len() == 27,
        ensures
            final(self).current_instruction == spec_decode(raw_instr@),
            final(self).control_signals == spec_signals(spec_decode(raw_instr@)),
            final(self).immediate as int == spec_imm(spec_decode(raw_instr@)),
            final(self).registers == old(self).registers,
            final(self).address_space == old(self).address_space,
            final(self).arithmetic_logic_unit == old(self).arithmetic_logic_unit,
    {
        self.current_instruction = Instruction::from_tryte(&raw_instr);

        let (signals, imm) = self.current_instruction.decode();
        self.control_signals = signals;
        self.immediate = imm;
    }

    /// Execute phase: reads the source registers, drives the arithmetic
    /// unit, performs the memory access, writes back, and moves the
    /// program counter.
    fn execute(&mut self)
        requires
            old(self).wf(),
            old(self).control_signals == spec_signals(old(self).current_instruction),
            old(self).immediate as int == spec_imm(old(self).current_instruction),
        ensures
            final(self).wf(),
            final(self).current_instruction == old(self).current_instruction,
            ({
                let instr = old(self).current_instruction;
                let sig = spec_signals(instr);
                let imm = spec_imm(instr);
                let pc0 = old(self).registers.pc_val();
                let a = old(self).registers.reg(bal_wrap(spec_rs1(instr), 3));
                let b = old(self).registers.reg(bal_wrap(spec_rs2(instr), 3));
                let rd = bal_wrap(spec_rd(instr), 3);
                let o = spec_operand_b(sig, b, imm);
                let out = spec_alu_value(sig.alu_op, a, o);
                let flag = spec_flag(sig.alu_op, out);
                let mem_out = if sig.mem_read {
                    old(self).address_space.mem(out)
                } else {
                    out
                };
                let wb = spec_writeback(sig, out, mem_out, pc0);
                &&& (forall|x: int|
                    final(self).address_space.mem(x) == (if sig.mem_write && x == out {
                        b
                    } else {
                        old(self).address_space.mem(x)
                    }))
                &&& (forall|x: int|
                    final(self).registers.reg(x) == (if sig.reg_write && x == rd && x != 0 {
                        wb
                    } else {
                        old(self).registers.reg(x)
                    }))
                &&& final(self).registers.pc_val() == spec_next_pc(sig, flag, pc0, imm)
                &&& final(self).arithmetic_logic_unit.zero_flag == flag
                &&& field_value(final(self).arithmetic_logic_unit.result@) == out
            }),
    {
        let instr = self.current_instruction;
        let signals = self.control_signals;

        let rs1_addr = self.usize_to_regaddr(instr.rs1());
        let rs2_addr = self.usize_to_regaddr(instr.rs2());
        let rd_addr = self.usize_to_regaddr(instr.rd());

        let r_val_1 = self.registers.read_gpr(&rs1_addr);
        let r_val_2 = self.registers.read_gpr(&rs2_addr);

        let input_a = r_val_1;

        // Mux: the second operand is the second source register or the
        // immediate squeezed into a word.
        let input_b = if signals.alu_src {
            TritField::from_i128(self.immediate as i128, 27)
        } else {
            r_val_2.clone()
        };

        self.arithmetic_logic_unit.alu_reset();
        self.arithmetic_logic_unit.alu_set(input_a, input_b, signals.alu_op);
        self.arithmetic_logic_unit.alu_exec();
        let alu_result = self.arithmetic_logic_unit.result.clone();

        proof {
            lemma_bt_digits_zero(27nat);
            assert(!(signals.mem_write && signals.mem_read));
        }

        let mut result_to_write = alu_result.clone();

        // Store: the second source register's word goes to the address
        // equal to the arithmetic result.
        if signals.mem_write {
            self.address_space.write(&alu_result, r_val_2.clone());
        }

        // Load: the value to write back comes from memory instead.
        if signals.mem_read {
            result_to_write = self.address_space.read(&alu_result);
        }

        if signals.reg_write {
            let writeback = if signals.mem_to_reg {
                result_to_write
            } else if signals.jump {
                proof {
                    lemma_field_value_bound(self.registers.pc@);
                    lemma_pow3_widths();
                }
                let current_pc_val = self.registers.read_pc().to_i128();
                TritField::from_i128(current_pc_val + 1, 27)
            } else {
                alu_result.clone()
            };

            self.registers.write_gpr(&rd_addr, writeback);
        }

        self.update_pc(signals);
    }

    /// Moves the program counter: by the immediate for a jump or a taken
    /// branch (branch enabled and zero flag Positive), by one otherwise.
    fn update_pc(&mut self, signals: ControlSignals)
        requires
            old(self).wf(),
        ensures
            final(self).wf(),
            final(self).registers.pc_val() == spec_next_pc(
                signals,
                old(self).arithmetic_logic_unit.zero_flag,
                old(self).registers.pc_val(),
                old(self).immediate as int,
            ),
            final(self).registers.gpr@ == old(self).registers.gpr@,
            forall|x: int| final(self).registers.reg(x) == old(self).registers.reg(x),
            final(self).address_space == old(self).address_space,
            final(self).arithmetic_logic_unit == old(self).arithmetic_logic_unit,
            final(self).current_instruction == old(self).current_instruction,
            final(self).immediate == old(self).immediate,
    {
        proof {
            lemma_field_value_bound(self.registers.pc@);
            lemma_pow3_widths();
        }
        let current_pc = self.registers.read_pc().to_i128();
        let zero_flag = self.arithmetic_logic_unit.zero_flag;

        let next_pc_val = if signals.jump {
            current_pc + (self.immediate as i128)
        } else if signals.branch && zero_flag == Trit::Positive {
            current_pc + (self.immediate as i128)
        } else {
            current_pc + 1
        };

        let next_pc = TritField::from_i128(next_pc_val, 27);
        self.registers.write_pc(&next_pc);
    }

    /// One atomic fetch-decode-execute step.  Given identical register,
    /// memory and program-counter state, the resulting state is identical:
    /// every clause below is a function of the starting state alone.
    pub fn cycle(&mut self)
        requires
            old(self).wf(),
        ensures
            final(self).wf(),
            ({
                let pc0 = old(self).registers.pc_val();
                let instr = spec_decode(bt_digits(old(self).address_space.mem(pc0), 27));
                let sig = spec_signals(instr);
                let imm = spec_imm(instr);
                let a = old(self).registers.reg(bal_wrap(spec_rs1(instr), 3));
                let b = old(self).registers.reg(bal_wrap(spec_rs2(instr), 3));
                let rd = bal_wrap(spec_rd(instr), 3);
                let o = spec_operand_b(sig, b, imm);
                let out = spec_alu_value(sig.alu_op, a, o);
                let flag = spec_flag(sig.alu_op, out);
                let mem_out = if sig.mem_read {
                    old(self).address_space.mem(out)
                } else {
                    out
                };
                let wb = spec_writeback(sig, out, mem_out, pc0);
                &&& final(self).current_instruction == instr
                &&& (forall|x: int|
                    final(self).address_space.mem(x) == (if sig.mem_write && x == out {
                        b
                    } else {
                        old(self).address_space.mem(x)
                    }))
                &&& (forall|x: int|
                    final(self).registers.reg(x) == (if sig.reg_write && x == rd && x != 0 {
                        wb
                    } else {
                        old(self).registers.reg(x)
                    }))
                &&& final(self).registers.pc_val() == spec_next_pc(sig, flag, pc0, imm)
                &&& final(self).arithmetic_logic_unit.zero_flag == flag
                &&& field_value(final(self).arithmetic_logic_unit.result@) == out
            }),
    {
        let raw_instr = self.fetch();
        self.decode(raw_instr);
        self.execute();
    }

    /// The 3-trit register-index word for a decoded register number.
    fn usize_to_regaddr(&self, index: usize) -> (r: RegAddr)
        ensures
            r@.len() == 3,
            field_value(r@) == bal_wrap(index as int, 3),
    {
        TritField::from_i128(index as i128, 3)
    }
}

/// The branch test is exact: for word-range values, the subtraction's
/// wrapped result is zero exactly when the two values are equal, so the
/// zero flag is Positive exactly on equal operands.
pub proof fn lemma_zero_flag_equality(a: int, b: int)
    requires
        -(crate::trit::pow3(27nat) - 1) <= 2 * a <= crate::trit::pow3(27nat) - 1,
        -(crate::trit::pow3(27nat) - 1) <= 2 * b <= crate::trit::pow3(27nat) - 1,
    ensures
        spec_zero_flag(bal_wrap(a - b, 27)) == Trit::Positive <==> a == b,
{
    if a == b {
        lemma_bt_digits_zero(27nat);
    } else {
        crate::trit::lemma_bal_wrap_congruence(a - b, 27nat);
        let k = choose|k: int| bal_wrap(a - b, 27) == a - b - #[trigger] (crate::trit::pow3(27nat) * k);
        if bal_wrap(a - b, 27) == 0 {
            assert(a - b == crate::trit::pow3(27nat) * k);
            lemma_pow3_widths();
            assert(false) by (nonlinear_arith)
                requires
                    a - b == 7625597484987 * k,
                    a - b != 0,
                    -(7625597484987 - 1) <= 2 * (a - b) <= 7625597484987 - 1,
            ;
        }
    }
}

/// Branch taken: a Beq whose two register operands hold the same value
/// drives the zero flag Positive and moves the program counter by the
/// immediate rather than by one.
pub proof fn lemma_branch_taken(rs1: usize, rs2: usize, imm: i32, a: int, pc: int)
    ensures
        ({
            let sig = spec_signals(Instruction::Beq { rs1, rs2, imm });
            let out = spec_alu_value(sig.alu_op, a, spec_operand_b(sig, a, imm as int));
            &&& spec_flag(sig.alu_op, out) == Trit::Positive
            &&& spec_next_pc(sig, spec_flag(sig.alu_op, out), pc, imm as int) == bal_wrap(
                pc + imm,
                27,
            )
        }),
{
    lemma_bt_digits_zero(27nat);
}

/// Jump link: a Jal writes the link address, the program counter plus one,
/// into its destination register, and moves the program counter by the
/// immediate, whatever the flag and the arithmetic result are.
pub proof fn lemma_jump_link(rd: usize, imm: i32, out: int, mem_out: int, flag: Trit, pc: int)
    ensures
        ({
            let sig = spec_signals(Instruction::Jal { rd, imm });
            &&& sig.reg_write
            &&& spec_writeback(sig, out, mem_out, pc) == bal_wrap(pc + 1, 27)
            &&& spec_next_pc(sig, flag, pc, imm as int) == bal_wrap(pc + imm, 27)
        }),
{
}

} // verus!
