//! The instruction set of the register machine, and the mathematical model
//! of its execution.
//!
//! A program is a non-empty sequence of instructions over a file of
//! [`NUM_REGISTERS`] registers.  Execution is modelled at the specification
//! level by [`adder_regs_at`] and [`alu_regs_at`]: the canonical register
//! values that hold just before instruction `i` runs.

use crate::field::{fadd, fsub, in_field};
use vstd::prelude::*;

verus! {

/// The number of registers of the machine.
pub const NUM_REGISTERS: usize = 4;

/// An operation of the arithmetic-logic chip.
#[derive(Clone, Copy, Debug, PartialEq, Eq, Structural)]
pub enum Opcode {
    ADD,
    SUB,
}

/// An instruction of the fixed-operation adder chip: `dest = src1 + src2`.
#[derive(Clone, Copy, Debug, PartialEq, Eq, Structural)]
pub struct Instruction {
    pub dest: usize,
    pub src1: usize,
    pub src2: usize,
}

/// An instruction of the arithmetic-logic chip: `dest = src1 op src2`.
#[derive(Clone, Copy, Debug, PartialEq, Eq, Structural)]
pub struct AluInstruction {
    pub op: Opcode,
    pub dest: usize,
    pub src1: usize,
    pub src2: usize,
}

/// Why trace generation was refused.
#[derive(Clone, Copy, Debug, PartialEq, Eq, Structural)]
pub enum TraceError {
    /// An instruction names a register outside `[0, NUM_REGISTERS)`.
    InvalidOperand,
    /// The program holds no instruction.
    EmptyProgram,
}

impl Instruction {
    /// All operand indices name existing registers.
    pub open spec fn valid(self) -> bool {
        self.dest < NUM_REGISTERS && self.src1 < NUM_REGISTERS && self.src2 < NUM_REGISTERS
    }

    /// Runtime check of [`Instruction::valid`].
    pub fn is_valid(&self) -> (r: bool)
        ensures
            r == self.valid(),
    {
        self.dest < NUM_REGISTERS && self.src1 < NUM_REGISTERS && self.src2 < NUM_REGISTERS
    }
}

impl AluInstruction {
    /// All operand indices name existing registers.
    pub open spec fn valid(self) -> bool {
        self.dest < NUM_REGISTERS && self.src1 < NUM_REGISTERS && self.src2 < NUM_REGISTERS
    }

    /// Runtime check of [`AluInstruction::valid`].
    pub fn is_valid(&self) -> (r: bool)
        ensures
            r == self.valid(),
    {
        self.dest < NUM_REGISTERS && self.src1 < NUM_REGISTERS && self.src2 < NUM_REGISTERS
    }
}

/// The one-hot encoding of choice `sel`, read at position `k`.
pub open spec fn one_hot_val(sel: int, k: int) -> int {
    if k == sel {
        1
    } else {
        0
    }
}

/// Canonical field values, one per cell.
pub open spec fn cells_wf(s: Seq<int>) -> bool {
    forall|k: int| 0 <= k < s.len() ==> in_field(#[trigger] s[k])
}

/// The canonical values held by a block of four cells.
pub open spec fn block_view(block: [crate::field::Fp; 4]) -> Seq<int> {
    Seq::new(4, |k: int| block@[k]@)
}

/// Unfold [`cells_wf`] of a block into well-formedness of its four cells.
pub proof fn lemma_block_cells_wf(block: [crate::field::Fp; 4])
    requires
        cells_wf(block_view(block)),
    ensures
        block@[0].wf(),
        block@[1].wf(),
        block@[2].wf(),
        block@[3].wf(),
{
    assert(block_view(block)[0] == block@[0]@);
    assert(block_view(block)[1] == block@[1]@);
    assert(block_view(block)[2] == block@[2]@);
    assert(block_view(block)[3] == block@[3]@);
}

/// The one-hot vector that encodes operand index `i`: a one in position
/// `i` and zeroes elsewhere.
pub fn one_hot(i: usize) -> (r: [crate::field::Fp; 4])
    requires
        i < 4,
    ensures
        forall|k: int| 0 <= k < 4 ==> block_view(r)[k] == one_hot_val(i as int, k),
        cells_wf(block_view(r)),
{
    let z = crate::field::Fp::zero();
    let o = crate::field::Fp::one();
    let r = [
        if i == 0 { o } else { z },
        if i == 1 { o } else { z },
        if i == 2 { o } else { z },
        if i == 3 { o } else { z },
    ];
    r
}

/// Replace cell `i` of a block, leaving the other cells untouched.
pub fn set_block(block: [crate::field::Fp; 4], i: usize, v: crate::field::Fp) -> (r: [crate::field::Fp; 4])
    requires
        i < 4,
    ensures
        block_view(r) == block_view(block).update(i as int, v@),
{
    let r = [
        if i == 0 { v } else { block[0] },
        if i == 1 { v } else { block[1] },
        if i == 2 { v } else { block[2] },
        if i == 3 { v } else { block[3] },
    ];
    proof {
        assert(block_view(r) =~= block_view(block).update(i as int, v@));
    }
    r
}

/// A well-formed register state: four canonical field values.
pub open spec fn regs_wf(regs: Seq<int>) -> bool {
    regs.len() == NUM_REGISTERS && forall|k: int| 0 <= k < regs.len() ==> in_field(#[trigger] regs[k])
}

/// The result of one operation on canonical field values.
pub open spec fn apply_op(op: Opcode, a: int, b: int) -> int {
    match op {
        Opcode::ADD => fadd(a, b),
        Opcode::SUB => fsub(a, b),
    }
}

/// One step of the adder machine: the destination register receives the
/// field sum of the two source registers.
pub open spec fn adder_step(regs: Seq<int>, inst: Instruction) -> Seq<int> {
    regs.update(inst.dest as int, fadd(regs[inst.src1 as int], regs[inst.src2 as int]))
}

/// One step of the arithmetic-logic machine.
pub open spec fn alu_step(regs: Seq<int>, inst: AluInstruction) -> Seq<int> {
    regs.update(
        inst.dest as int,
        apply_op(inst.op, regs[inst.src1 as int], regs[inst.src2 as int]),
    )
}

/// The adder machine's register state just before instruction `i` runs.
pub open spec fn adder_regs_at(program: Seq<Instruction>, init: Seq<int>, i: int) -> Seq<int>
    decreases i,
{
    if i <= 0 {
        init
    } else {
        adder_step(adder_regs_at(program, init, i - 1), program[i - 1])
    }
}

/// The arithmetic-logic machine's register state just before instruction
/// `i` runs.
pub open spec fn alu_regs_at(program: Seq<AluInstruction>, init: Seq<int>, i: int) -> Seq<int>
    decreases i,
{
    if i <= 0 {
        init
    } else {
        alu_step(alu_regs_at(program, init, i - 1), program[i - 1])
    }
}

/// Stepping a well-formed register state keeps it well formed.
pub proof fn lemma_adder_step_wf(regs: Seq<int>, inst: Instruction)
    requires
        regs_wf(regs),
        inst.valid(),
    ensures
        regs_wf(adder_step(regs, inst)),
{
    crate::field::lemma_field_ops_in_field(regs[inst.src1 as int], regs[inst.src2 as int]);
}

/// Stepping a well-formed register state keeps it well formed.
pub proof fn lemma_alu_step_wf(regs: Seq<int>, inst: AluInstruction)
    requires
        regs_wf(regs),
        inst.valid(),
    ensures
        regs_wf(alu_step(regs, inst)),
{
    crate::field::lemma_field_ops_in_field(regs[inst.src1 as int], regs[inst.src2 as int]);
}

/// The register state stays well formed at every step of a valid program.
pub proof fn lemma_adder_regs_at_wf(program: Seq<Instruction>, init: Seq<int>, i: int)
    requires
        regs_wf(init),
        forall|j: int| 0 <= j < program.len() ==> (#[trigger] program[j]).valid(),
        0 <= i <= program.len(),
    ensures
        regs_wf(adder_regs_at(program, init, i)),
    decreases i,
{
    if i > 0 {
        lemma_adder_regs_at_wf(program, init, i - 1);
        lemma_adder_step_wf(adder_regs_at(program, init, i - 1), program[i - 1]);
    }
}

/// The register state stays well formed at every step of a valid program.
pub proof fn lemma_alu_regs_at_wf(program: Seq<AluInstruction>, init: Seq<int>, i: int)
    requires
        regs_wf(init),
        forall|j: int| 0 <= j < program.len() ==> (#[trigger] program[j]).valid(),
        0 <= i <= program.len(),
    ensures
        regs_wf(alu_regs_at(program, init, i)),
    decreases i,
{
    if i > 0 {
        lemma_alu_regs_at_wf(program, init, i - 1);
        lemma_alu_step_wf(alu_regs_at(program, init, i - 1), program[i - 1]);
    }
}

} // verus!
