//! The dual-operation arithmetic-logic chip.
//!
//! Beside the three register-selector blocks of the adder chip, every row
//! carries a one-hot pair of opcode selectors, eighteen columns in all.
//! Both candidate results (sum and difference) are computed
//! unconditionally and the applied result is their selector-weighted sum:
//! the algebraic substitute for branching on the opcode.

use crate::air::{
    all_zero, blend, block_sum, bool_expr, dot, eval_blend, eval_bool, eval_block_sum, eval_dot,
    lemma_blend, lemma_bool_expr_zero, lemma_dot_one_hot, lemma_one_hot_block_sum,
};
use crate::field::{fadd, fmul, fsub, lemma_field_identities, lemma_field_ops_in_field, Fp};
use crate::isa::{
    alu_regs_at, alu_step, apply_op, block_view, cells_wf, lemma_alu_regs_at_wf,
    lemma_block_cells_wf, one_hot, one_hot_val, regs_wf, AluInstruction, Opcode, TraceError,
};
use crate::pow2::{is_pow2, next_power_of_two};
use vstd::prelude::*;

verus! {

/// The column count of the arithmetic-logic chip: four register columns,
/// three four-wide register-selector blocks and two opcode selectors.
pub const NUM_ALU_COLS: usize = 18;

/// The number of single-row constraints: fourteen booleanity checks and
/// four one-hot sums.
pub const NUM_ALU_ROW_CONSTRAINTS: usize = 18;

/// The stateless descriptor of the arithmetic-logic chip.
pub struct AluChip;

/// One row of the arithmetic-logic trace.
#[derive(Clone, Copy, Debug)]
pub struct AluRow {
    /// Register values at the start of the step.
    pub regs: [Fp; 4],
    /// One-hot destination selectors.
    pub dest_sel: [Fp; 4],
    /// One-hot first-source selectors.
    pub src1_sel: [Fp; 4],
    /// One-hot second-source selectors.
    pub src2_sel: [Fp; 4],
    /// Opcode selector for addition.
    pub op_add: Fp,
    /// Opcode selector for subtraction.
    pub op_sub: Fp,
}

/// The opcode selector value: one when the instruction's opcode is
/// `which`, zero otherwise.
pub open spec fn op_one_hot(op: Opcode, which: Opcode) -> int {
    if op == which {
        1
    } else {
        0
    }
}

/// The one-hot pair that encodes an opcode: the addition selector first,
/// the subtraction selector second.
pub fn opcode_one_hot(op: Opcode) -> (r: [Fp; 2])
    ensures
        r@[0]@ == op_one_hot(op, Opcode::ADD),
        r@[1]@ == op_one_hot(op, Opcode::SUB),
        r@[0].wf(),
        r@[1].wf(),
{
    let zero = Fp::zero();
    let one = Fp::one();
    match op {
        Opcode::ADD => [one, zero],
        Opcode::SUB => [zero, one],
    }
}

impl AluRow {
    /// The canonical register values of this row.
    pub open spec fn regs_view(self) -> Seq<int> {
        block_view(self.regs)
    }

    /// The canonical destination-selector values of this row.
    pub open spec fn dest_view(self) -> Seq<int> {
        block_view(self.dest_sel)
    }

    /// The canonical first-source-selector values of this row.
    pub open spec fn src1_view(self) -> Seq<int> {
        block_view(self.src1_sel)
    }

    /// The canonical second-source-selector values of this row.
    pub open spec fn src2_view(self) -> Seq<int> {
        block_view(self.src2_sel)
    }

    /// Every cell holds a canonical field value.
    pub open spec fn wf(self) -> bool {
        &&& cells_wf(self.regs_view())
        &&& cells_wf(self.dest_view())
        &&& cells_wf(self.src1_view())
        &&& cells_wf(self.src2_view())
        &&& self.op_add.wf()
        &&& self.op_sub.wf()
    }

    /// Whether this row records register state `regs` while instruction
    /// `inst` executes: register columns carry `regs`, the selector
    /// blocks one-hot encode the operand indices, and the opcode pair
    /// one-hot encodes the opcode.
    pub open spec fn encodes(self, regs: Seq<int>, inst: AluInstruction) -> bool {
        &&& forall|k: int| 0 <= k < 4 ==> self.regs_view()[k] == regs[k]
        &&& forall|k: int| 0 <= k < 4 ==> self.dest_view()[k] == one_hot_val(inst.dest as int, k)
        &&& forall|k: int| 0 <= k < 4 ==> self.src1_view()[k] == one_hot_val(inst.src1 as int, k)
        &&& forall|k: int| 0 <= k < 4 ==> self.src2_view()[k] == one_hot_val(inst.src2 as int, k)
        &&& self.op_add@ == op_one_hot(inst.op, Opcode::ADD)
        &&& self.op_sub@ == op_one_hot(inst.op, Opcode::SUB)
    }

    /// The flat column layout shared with a backend: registers in columns
    /// 0 to 3, destination selectors in 4 to 7, first-source selectors in
    /// 8 to 11, second-source selectors in 12 to 15, then the addition
    /// and subtraction opcode selectors in columns 16 and 17.
    pub fn to_columns(&self) -> (r: Vec<Fp>)
        ensures
            r@.len() == NUM_ALU_COLS,
            forall|k: int| 0 <= k < 4 ==> (#[trigger] r@[k])@ == self.regs_view()[k],
            forall|k: int| 4 <= k < 8 ==> (#[trigger] r@[k])@ == self.dest_view()[k - 4],
            forall|k: int| 8 <= k < 12 ==> (#[trigger] r@[k])@ == self.src1_view()[k - 8],
            forall|k: int| 12 <= k < 16 ==> (#[trigger] r@[k])@ == self.src2_view()[k - 12],
            r@[16]@ == self.op_add@,
            r@[17]@ == self.op_sub@,
    {
        let mut r: Vec<Fp> = Vec::new();
        r.push(self.regs[0]);
        r.push(self.regs[1]);
        r.push(self.regs[2]);
        r.push(self.regs[3]);
        r.push(self.dest_sel[0]);
        r.push(self.dest_sel[1]);
        r.push(self.dest_sel[2]);
        r.push(self.dest_sel[3]);
        r.push(self.src1_sel[0]);
        r.push(self.src1_sel[1]);
        r.push(self.src1_sel[2]);
        r.push(self.src1_sel[3]);
        r.push(self.src2_sel[0]);
        r.push(self.src2_sel[1]);
        r.push(self.src2_sel[2]);
        r.push(self.src2_sel[3]);
        r.push(self.op_add);
        r.push(self.op_sub);
        r
    }
}

/// The candidate sum read off a row.
pub open spec fn alu_add_result(row: AluRow) -> int {
    fadd(dot(row.regs_view(), row.src1_view()), dot(row.regs_view(), row.src2_view()))
}

/// The candidate difference read off a row.
pub open spec fn alu_sub_result(row: AluRow) -> int {
    fsub(dot(row.regs_view(), row.src1_view()), dot(row.regs_view(), row.src2_view()))
}

/// The applied result: the opcode-selector-weighted sum of the two
/// candidate results, of which exactly one survives on a valid row.
pub open spec fn alu_result(row: AluRow) -> int {
    fadd(fmul(alu_add_result(row), row.op_add@), fmul(alu_sub_result(row), row.op_sub@))
}

/// The single-row constraint expressions, indexed 0 to 17: booleanity of
/// the three selector blocks and the opcode pair, then the four one-hot
/// sums minus one.
pub open spec fn alu_row_expr(row: AluRow, j: int) -> int {
    if 0 <= j < 4 {
        bool_expr(row.dest_view()[j])
    } else if 4 <= j < 8 {
        bool_expr(row.src1_view()[j - 4])
    } else if 8 <= j < 12 {
        bool_expr(row.src2_view()[j - 8])
    } else if j == 12 {
        bool_expr(row.op_add@)
    } else if j == 13 {
        bool_expr(row.op_sub@)
    } else if j == 14 {
        fsub(block_sum(row.dest_view()), 1)
    } else if j == 15 {
        fsub(block_sum(row.src1_view()), 1)
    } else if j == 16 {
        fsub(block_sum(row.src2_view()), 1)
    } else {
        fsub(fadd(row.op_add@, row.op_sub@), 1)
    }
}

/// The transition constraint for register `k`: the next row's register
/// must equal the blend of the carried value and the applied result.
pub open spec fn alu_transition_expr(local: AluRow, next: AluRow, k: int) -> int {
    fsub(next.regs_view()[k], blend(local.regs_view()[k], alu_result(local), local.dest_view()[k]))
}

/// All single-row constraints of `row` vanish.
pub open spec fn alu_row_ok(row: AluRow) -> bool {
    forall|j: int| 0 <= j < NUM_ALU_ROW_CONSTRAINTS ==> alu_row_expr(row, j) == 0
}

/// All transition constraints between `local` and `next` vanish.
pub open spec fn alu_transition_ok(local: AluRow, next: AluRow) -> bool {
    forall|k: int| 0 <= k < 4 ==> alu_transition_expr(local, next, k) == 0
}

/// The whole constraint system vanishes on the trace.
pub open spec fn alu_air_ok(t: Seq<AluRow>) -> bool {
    &&& forall|i: int| 0 <= i < t.len() ==> alu_row_ok(#[trigger] t[i])
    &&& forall|i: int| 0 <= i < t.len() - 1 ==> alu_transition_ok(#[trigger] t[i], t[i + 1])
}

/// What a successfully generated trace guarantees: a power-of-two row
/// count that padding cannot double, each instruction's row encoding the
/// machine state just before it runs, and every padding row a verbatim
/// copy of the final instruction's row.
pub open spec fn alu_trace_ok(program: Seq<AluInstruction>, init: Seq<int>, t: Seq<AluRow>) -> bool {
    &&& t.len() >= program.len()
    &&& is_pow2(t.len() as int)
    &&& t.len() < 2 * program.len()
    &&& forall|i: int|
        0 <= i < program.len() ==> (#[trigger] t[i]).encodes(
            alu_regs_at(program, init, i),
            program[i],
        )
    &&& forall|i: int| program.len() - 1 <= i < t.len() ==> #[trigger] t[i] == t[program.len() - 1]
    &&& forall|i: int| 0 <= i < t.len() ==> (#[trigger] t[i]).wf()
}

/// Every selector cell of the row is boolean and every selector block,
/// the opcode pair included, sums (as integers) to exactly one.
pub open spec fn alu_selectors_valid(row: AluRow) -> bool {
    &&& forall|k: int|
        0 <= k < 4 ==> ((#[trigger] row.dest_view()[k]) == 0 || row.dest_view()[k] == 1)
    &&& forall|k: int|
        0 <= k < 4 ==> ((#[trigger] row.src1_view()[k]) == 0 || row.src1_view()[k] == 1)
    &&& forall|k: int|
        0 <= k < 4 ==> ((#[trigger] row.src2_view()[k]) == 0 || row.src2_view()[k] == 1)
    &&& (row.op_add@ == 0 || row.op_add@ == 1)
    &&& (row.op_sub@ == 0 || row.op_sub@ == 1)
    &&& row.dest_view()[0] + row.dest_view()[1] + row.dest_view()[2] + row.dest_view()[3] == 1
    &&& row.src1_view()[0] + row.src1_view()[1] + row.src1_view()[2] + row.src1_view()[3] == 1
    &&& row.src2_view()[0] + row.src2_view()[1] + row.src2_view()[2] + row.src2_view()[3] == 1
    &&& row.op_add@ + row.op_sub@ == 1
}

/// A row that encodes a valid instruction has valid selectors.
proof fn lemma_encoded_selectors_valid(row: AluRow, regs: Seq<int>, inst: AluInstruction)
    requires
        inst.valid(),
        row.encodes(regs, inst),
    ensures
        alu_selectors_valid(row),
{
    assert(row.dest_view()[0] == one_hot_val(inst.dest as int, 0));
    assert(row.dest_view()[1] == one_hot_val(inst.dest as int, 1));
    assert(row.dest_view()[2] == one_hot_val(inst.dest as int, 2));
    assert(row.dest_view()[3] == one_hot_val(inst.dest as int, 3));
    assert(row.src1_view()[0] == one_hot_val(inst.src1 as int, 0));
    assert(row.src1_view()[1] == one_hot_val(inst.src1 as int, 1));
    assert(row.src1_view()[2] == one_hot_val(inst.src1 as int, 2));
    assert(row.src1_view()[3] == one_hot_val(inst.src1 as int, 3));
    assert(row.src2_view()[0] == one_hot_val(inst.src2 as int, 0));
    assert(row.src2_view()[1] == one_hot_val(inst.src2 as int, 1));
    assert(row.src2_view()[2] == one_hot_val(inst.src2 as int, 2));
    assert(row.src2_view()[3] == one_hot_val(inst.src2 as int, 3));
}

/// Selector validity: in every row of a generated trace, every selector
/// cell is zero or one and every selector block sums to exactly one.
pub proof fn lemma_alu_selector_validity(
    program: Seq<AluInstruction>,
    init: Seq<int>,
    t: Seq<AluRow>,
)
    requires
        program.len() >= 1,
        forall|j: int| 0 <= j < program.len() ==> (#[trigger] program[j]).valid(),
        alu_trace_ok(program, init, t),
    ensures
        forall|i: int| 0 <= i < t.len() ==> alu_selectors_valid(#[trigger] t[i]),
{
    assert forall|i: int| 0 <= i < t.len() implies alu_selectors_valid(#[trigger] t[i]) by {
        let ir: int = if i < program.len() {
            i
        } else {
            program.len() - 1
        };
        assert(t[i] == t[ir]);
        lemma_encoded_selectors_valid(t[ir], alu_regs_at(program, init, ir), program[ir]);
    }
}

/// Transition correctness: between consecutive instruction rows, the
/// destination register receives the opcode's result on the two selected
/// source registers and every other register is carried forward.
pub proof fn lemma_alu_transition_correctness(
    program: Seq<AluInstruction>,
    init: Seq<int>,
    t: Seq<AluRow>,
)
    requires
        regs_wf(init),
        program.len() >= 1,
        forall|j: int| 0 <= j < program.len() ==> (#[trigger] program[j]).valid(),
        alu_trace_ok(program, init, t),
    ensures
        forall|i: int, k: int|
            0 <= i < program.len() - 1 && 0 <= k < 4 ==> (#[trigger] t[i + 1].regs_view()[k])
                == (if k == program[i].dest as int {
                apply_op(
                    program[i].op,
                    t[i].regs_view()[program[i].src1 as int],
                    t[i].regs_view()[program[i].src2 as int],
                )
            } else {
                t[i].regs_view()[k]
            }),
{
    assert forall|i: int, k: int|
        0 <= i < program.len() - 1 && 0 <= k < 4 implies (#[trigger] t[i + 1].regs_view()[k]) == (
    if k == program[i].dest as int {
        apply_op(
            program[i].op,
            t[i].regs_view()[program[i].src1 as int],
            t[i].regs_view()[program[i].src2 as int],
        )
    } else {
        t[i].regs_view()[k]
    }) by {
        lemma_alu_regs_at_wf(program, init, i);
        let regs_i = alu_regs_at(program, init, i);
        let regs_n = alu_regs_at(program, init, i + 1);
        assert(regs_n == alu_step(regs_i, program[i]));
        assert(t[i].encodes(regs_i, program[i]));
        assert(t[i + 1].encodes(regs_n, program[i + 1]));
        assert(t[i + 1].regs_view()[k] == regs_n[k]);
        assert(t[i].regs_view()[k] == regs_i[k]);
        assert(t[i].regs_view()[program[i].src1 as int] == regs_i[program[i].src1 as int]);
        assert(t[i].regs_view()[program[i].src2 as int] == regs_i[program[i].src2 as int]);
    }
}

/// A row that encodes a valid instruction satisfies all single-row
/// constraints.
proof fn lemma_encoded_row_ok(row: AluRow, regs: Seq<int>, inst: AluInstruction)
    requires
        inst.valid(),
        row.encodes(regs, inst),
    ensures
        alu_row_ok(row),
{
    lemma_encoded_selectors_valid(row, regs, inst);
    assert forall|j: int| 0 <= j < NUM_ALU_ROW_CONSTRAINTS implies alu_row_expr(row, j) == 0 by {
        if 0 <= j < 4 {
            assert(row.dest_view()[j] == one_hot_val(inst.dest as int, j));
            lemma_bool_expr_zero(row.dest_view()[j]);
        } else if 4 <= j < 8 {
            assert(row.src1_view()[j - 4] == one_hot_val(inst.src1 as int, j - 4));
            lemma_bool_expr_zero(row.src1_view()[j - 4]);
        } else if 8 <= j < 12 {
            assert(row.src2_view()[j - 8] == one_hot_val(inst.src2 as int, j - 8));
            lemma_bool_expr_zero(row.src2_view()[j - 8]);
        } else if j == 12 {
            lemma_bool_expr_zero(row.op_add@);
        } else if j == 13 {
            lemma_bool_expr_zero(row.op_sub@);
        } else if j == 14 {
            lemma_one_hot_block_sum(row.dest_view(), inst.dest as int);
            lemma_field_identities(1);
        } else if j == 15 {
            lemma_one_hot_block_sum(row.src1_view(), inst.src1 as int);
            lemma_field_identities(1);
        } else if j == 16 {
            lemma_one_hot_block_sum(row.src2_view(), inst.src2 as int);
            lemma_field_identities(1);
        } else {
            crate::field::lemma_fadd_small(row.op_add@, row.op_sub@);
            lemma_field_identities(1);
        }
    }
}

/// On a row that one-hot encodes its opcode, the selector-weighted sum of
/// the two candidate results degenerates to the opcode's own result.
proof fn lemma_alu_result_selects(local: AluRow, regs: Seq<int>, inst: AluInstruction)
    requires
        regs_wf(regs),
        inst.valid(),
        local.encodes(regs, inst),
    ensures
        alu_result(local) == apply_op(
            inst.op,
            regs[inst.src1 as int],
            regs[inst.src2 as int],
        ),
{
    assert(local.regs_view() =~= regs);
    lemma_dot_one_hot(regs, local.src1_view(), inst.src1 as int);
    lemma_dot_one_hot(regs, local.src2_view(), inst.src2 as int);
    let a = regs[inst.src1 as int];
    let b = regs[inst.src2 as int];
    lemma_field_ops_in_field(a, b);
    lemma_field_identities(fadd(a, b));
    lemma_field_identities(fsub(a, b));
    assert(alu_add_result(local) == fadd(a, b));
    assert(alu_sub_result(local) == fsub(a, b));
}

/// A pair of rows related by one machine step satisfies the transition
/// constraints.
proof fn lemma_encoded_transition_ok(
    local: AluRow,
    next: AluRow,
    regs: Seq<int>,
    inst: AluInstruction,
)
    requires
        regs_wf(regs),
        inst.valid(),
        local.encodes(regs, inst),
        forall|k: int| 0 <= k < 4 ==> next.regs_view()[k] == alu_step(regs, inst)[k],
    ensures
        alu_transition_ok(local, next),
{
    lemma_alu_result_selects(local, regs, inst);
    let a = regs[inst.src1 as int];
    let b = regs[inst.src2 as int];
    let res = apply_op(inst.op, a, b);
    lemma_field_ops_in_field(a, b);
    assert forall|k: int| 0 <= k < 4 implies alu_transition_expr(local, next, k) == 0 by {
        let d = local.dest_view()[k];
        assert(d == one_hot_val(inst.dest as int, k));
        assert(local.regs_view()[k] == regs[k]);
        lemma_blend(regs[k], res, d);
        if k == inst.dest as int {
            assert(next.regs_view()[k] == res);
            lemma_field_identities(res);
        } else {
            assert(next.regs_view()[k] == regs[k]);
            lemma_field_identities(regs[k]);
        }
    }
}

/// Soundness of the generator against the constraint system: every row of
/// a generated trace satisfies the single-row constraints, every pair of
/// adjacent instruction rows satisfies the transition constraints, and a
/// trace that needed no padding satisfies the whole constraint system.
pub proof fn lemma_alu_air_soundness(program: Seq<AluInstruction>, init: Seq<int>, t: Seq<AluRow>)
    requires
        regs_wf(init),
        program.len() >= 1,
        forall|j: int| 0 <= j < program.len() ==> (#[trigger] program[j]).valid(),
        alu_trace_ok(program, init, t),
    ensures
        forall|i: int| 0 <= i < t.len() ==> alu_row_ok(#[trigger] t[i]),
        forall|i: int| 0 <= i < program.len() - 1 ==> alu_transition_ok(#[trigger] t[i], t[i + 1]),
        t.len() == program.len() ==> alu_air_ok(t),
{
    assert forall|i: int| 0 <= i < t.len() implies alu_row_ok(#[trigger] t[i]) by {
        let ir: int = if i < program.len() {
            i
        } else {
            program.len() - 1
        };
        assert(t[i] == t[ir]);
        lemma_encoded_row_ok(t[ir], alu_regs_at(program, init, ir), program[ir]);
    }
    assert forall|i: int| 0 <= i < program.len() - 1 implies alu_transition_ok(
        #[trigger] t[i],
        t[i + 1],
    ) by {
        lemma_alu_regs_at_wf(program, init, i);
        let regs_i = alu_regs_at(program, init, i);
        assert(t[i].encodes(regs_i, program[i]));
        assert(t[i + 1].encodes(alu_regs_at(program, init, i + 1), program[i + 1]));
        assert(alu_regs_at(program, init, i + 1) == alu_step(regs_i, program[i]));
        lemma_encoded_transition_ok(t[i], t[i + 1], regs_i, program[i]);
    }
}

/// Run `program` on a bare register file, with no trace and no selectors:
/// the returned sequence holds the register state before each instruction,
/// ending with the final state, `len(program) + 1` states in all.
pub fn simulate(program: &Vec<AluInstruction>, initial_regs: [Fp; 4]) -> (r: Result<
    Vec<[Fp; 4]>,
    TraceError,
>)
    requires
        cells_wf(block_view(initial_regs)),
    ensures
        program@.len() == 0 ==> (r matches Err(e) && e == TraceError::EmptyProgram),
        program@.len() > 0 && !(forall|j: int|
            0 <= j < program@.len() ==> (#[trigger] program@[j]).valid()) ==> (r matches Err(e)
            && e == TraceError::InvalidOperand),
        program@.len() > 0 && (forall|j: int|
            0 <= j < program@.len() ==> (#[trigger] program@[j]).valid()) ==> (r matches Ok(states)
            && states@.len() == program@.len() + 1 && forall|i: int, k: int|
            0 <= i < states@.len() && 0 <= k < 4 ==> (#[trigger] block_view(states@[i])[k])
                == alu_regs_at(program@, block_view(initial_regs), i)[k]),
{
    let ghost init = block_view(initial_regs);
    let n = program.len();
    if n == 0 {
        return Err(TraceError::EmptyProgram);
    }
    let mut j: usize = 0;
    while j < n
        invariant
            j <= n,
            n == program@.len(),
            forall|jj: int| 0 <= jj < j ==> (#[trigger] program@[jj]).valid(),
        decreases n - j,
    {
        if !program[j].is_valid() {
            return Err(TraceError::InvalidOperand);
        }
        j += 1;
    }
    let mut states: Vec<[Fp; 4]> = Vec::new();
    let mut current: [Fp; 4] = initial_regs;
    states.push(current);
    let mut i: usize = 0;
    while i < n
        invariant
            i <= n,
            n == program@.len(),
            init == block_view(initial_regs),
            regs_wf(init),
            forall|jj: int| 0 <= jj < n ==> (#[trigger] program@[jj]).valid(),
            states@.len() == i + 1,
            cells_wf(block_view(current)),
            forall|k: int|
                0 <= k < 4 ==> block_view(current)[k] == alu_regs_at(program@, init, i as int)[k],
            forall|ii: int, k: int|
                0 <= ii < states@.len() && 0 <= k < 4 ==> (#[trigger] block_view(states@[ii])[k])
                    == alu_regs_at(program@, init, ii)[k],
        decreases n - i,
    {
        let inst = program[i];
        proof {
            lemma_alu_regs_at_wf(program@, init, i as int);
            lemma_block_cells_wf(current);
        }
        let a = current[inst.src1];
        let b = current[inst.src2];
        let res = match inst.op {
            Opcode::ADD => a.add(b),
            Opcode::SUB => a.sub(b),
        };
        let next = crate::isa::set_block(current, inst.dest, res);
        proof {
            let regs_i = alu_regs_at(program@, init, i as int);
            let regs_next = alu_regs_at(program@, init, i as int + 1);
            assert(regs_next == alu_step(regs_i, program@[i as int]));
            assert(block_view(current) =~= regs_i);
            assert forall|k: int| 0 <= k < 4 implies block_view(next)[k] == regs_next[k] by {
                assert(block_view(next) == block_view(current).update(inst.dest as int, res@));
            }
        }
        current = next;
        states.push(current);
        i += 1;
    }
    Ok(states)
}

/// Round trip with the plain simulator: the register columns of trace row
/// `i` hold exactly the simulator's register state before instruction `i`
/// runs, and row `i + 1` therefore holds the state just after it.
pub proof fn lemma_alu_simulation_round_trip(
    program: Seq<AluInstruction>,
    init: Seq<int>,
    t: Seq<AluRow>,
    states: Seq<[Fp; 4]>,
)
    requires
        program.len() >= 1,
        forall|j: int| 0 <= j < program.len() ==> (#[trigger] program[j]).valid(),
        alu_trace_ok(program, init, t),
        states.len() == program.len() + 1,
        forall|i: int, k: int|
            0 <= i < states.len() && 0 <= k < 4 ==> (#[trigger] block_view(states[i])[k])
                == alu_regs_at(program, init, i)[k],
    ensures
        forall|i: int, k: int|
            0 <= i < program.len() && 0 <= k < 4 ==> (#[trigger] t[i].regs_view()[k])
                == block_view(states[i])[k],
{
    assert forall|i: int, k: int|
        0 <= i < program.len() && 0 <= k < 4 implies (#[trigger] t[i].regs_view()[k]) == block_view(
        states[i],
    )[k] by {
        assert(t[i].encodes(alu_regs_at(program, init, i), program[i]));
        assert(block_view(states[i])[k] == alu_regs_at(program, init, i)[k]);
    }
}

impl AluChip {
    /// The column count of this chip.
    pub fn width(&self) -> (r: usize)
        ensures
            r == NUM_ALU_COLS,
    {
        NUM_ALU_COLS
    }

    /// Run `program` from `initial_regs` and serialise the execution into
    /// a trace, padded to the next power-of-two length with copies of the
    /// final row.  A program that names a register outside the file is
    /// refused before any row is written; so is an empty program.
    pub fn generate_trace(program: &Vec<AluInstruction>, initial_regs: [Fp; 4]) -> (r: Result<
        Vec<AluRow>,
        TraceError,
    >)
        requires
            cells_wf(block_view(initial_regs)),
            program@.len() <= usize::MAX / 2,
        ensures
            program@.len() == 0 ==> (r matches Err(e) && e == TraceError::EmptyProgram),
            program@.len() > 0 && !(forall|j: int|
                0 <= j < program@.len() ==> (#[trigger] program@[j]).valid()) ==> (r matches Err(e)
                && e == TraceError::InvalidOperand),
            program@.len() > 0 && (forall|j: int|
                0 <= j < program@.len() ==> (#[trigger] program@[j]).valid()) ==> (r matches Ok(t)
                && alu_trace_ok(program@, block_view(initial_regs), t@)),
    {
        let ghost init = block_view(initial_regs);
        let n = program.len();
        if n == 0 {
            return Err(TraceError::EmptyProgram);
        }
        let mut j: usize = 0;
        while j < n
            invariant
                j <= n,
                n == program@.len(),
                forall|jj: int| 0 <= jj < j ==> (#[trigger] program@[jj]).valid(),
            decreases n - j,
        {
            if !program[j].is_valid() {
                return Err(TraceError::InvalidOperand);
            }
            j += 1;
        }
        let trace_len = next_power_of_two(n);
        let mut trace: Vec<AluRow> = Vec::new();
        let mut current: [Fp; 4] = initial_regs;
        let mut i: usize = 0;
        while i < n
            invariant
                i <= n,
                n == program@.len() <= usize::MAX / 2,
                regs_wf(init),
                init == block_view(initial_regs),
                forall|jj: int| 0 <= jj < n ==> (#[trigger] program@[jj]).valid(),
                trace@.len() == i,
                cells_wf(block_view(current)),
                forall|k: int|
                    0 <= k < 4 ==> block_view(current)[k] == alu_regs_at(
                        program@,
                        init,
                        i as int,
                    )[k],
                forall|ii: int|
                    0 <= ii < i ==> (#[trigger] trace@[ii]).encodes(
                        alu_regs_at(program@, init, ii),
                        program@[ii],
                    ),
                forall|ii: int| 0 <= ii < i ==> (#[trigger] trace@[ii]).wf(),
            decreases n - i,
        {
            let inst = program[i];
            let op_sel = opcode_one_hot(inst.op);
            let row = AluRow {
                regs: current,
                dest_sel: one_hot(inst.dest),
                src1_sel: one_hot(inst.src1),
                src2_sel: one_hot(inst.src2),
                op_add: op_sel[0],
                op_sub: op_sel[1],
            };
            trace.push(row);
            proof {
                lemma_alu_regs_at_wf(program@, init, i as int);
                lemma_block_cells_wf(current);
            }
            let a = current[inst.src1];
            let b = current[inst.src2];
            let res = match inst.op {
                Opcode::ADD => a.add(b),
                Opcode::SUB => a.sub(b),
            };
            let next = crate::isa::set_block(current, inst.dest, res);
            proof {
                let regs_i = alu_regs_at(program@, init, i as int);
                let regs_next = alu_regs_at(program@, init, i as int + 1);
                assert(regs_next == alu_step(regs_i, program@[i as int]));
                assert(block_view(current) =~= regs_i);
                assert forall|k: int| 0 <= k < 4 implies block_view(next)[k] == regs_next[k] by {
                    assert(block_view(next) == block_view(current).update(inst.dest as int, res@));
                }
            }
            current = next;
            i += 1;
        }
        let last = trace[n - 1];
        while trace.len() < trace_len
            invariant
                1 <= n == program@.len(),
                n <= trace_len,
                n <= trace@.len() <= trace_len,
                last == trace@[n - 1],
                forall|ii: int|
                    0 <= ii < n ==> (#[trigger] trace@[ii]).encodes(
                        alu_regs_at(program@, init, ii),
                        program@[ii],
                    ),
                forall|ii: int| 0 <= ii < trace@.len() ==> (#[trigger] trace@[ii]).wf(),
                forall|ii: int| n - 1 <= ii < trace@.len() ==> #[trigger] trace@[ii] == trace@[n - 1],
            decreases trace_len - trace@.len(),
        {
            trace.push(last);
        }
        Ok(trace)
    }

    /// Evaluate the single-row constraints on `local`: fourteen
    /// booleanity expressions followed by the four one-hot sums minus one.
    pub fn eval_row(&self, local: &AluRow) -> (r: Vec<Fp>)
        requires
            local.wf(),
        ensures
            r@.len() == NUM_ALU_ROW_CONSTRAINTS,
            forall|j: int|
                0 <= j < NUM_ALU_ROW_CONSTRAINTS ==> (#[trigger] r@[j])@ == alu_row_expr(*local, j),
    {
        proof {
            lemma_block_cells_wf(local.dest_sel);
            lemma_block_cells_wf(local.src1_sel);
            lemma_block_cells_wf(local.src2_sel);
        }
        let one = Fp::one();
        let mut r: Vec<Fp> = Vec::new();
        r.push(eval_bool(local.dest_sel[0]));
        r.push(eval_bool(local.dest_sel[1]));
        r.push(eval_bool(local.dest_sel[2]));
        r.push(eval_bool(local.dest_sel[3]));
        r.push(eval_bool(local.src1_sel[0]));
        r.push(eval_bool(local.src1_sel[1]));
        r.push(eval_bool(local.src1_sel[2]));
        r.push(eval_bool(local.src1_sel[3]));
        r.push(eval_bool(local.src2_sel[0]));
        r.push(eval_bool(local.src2_sel[1]));
        r.push(eval_bool(local.src2_sel[2]));
        r.push(eval_bool(local.src2_sel[3]));
        r.push(eval_bool(local.op_add));
        r.push(eval_bool(local.op_sub));
        r.push(eval_block_sum(&local.dest_sel).sub(one));
        r.push(eval_block_sum(&local.src1_sel).sub(one));
        r.push(eval_block_sum(&local.src2_sel).sub(one));
        r.push(local.op_add.add(local.op_sub).sub(one));
        r
    }

    /// Evaluate the four transition constraints between adjacent rows.
    pub fn eval_transition(&self, local: &AluRow, next: &AluRow) -> (r: Vec<Fp>)
        requires
            local.wf(),
            next.wf(),
        ensures
            r@.len() == 4,
            forall|k: int|
                0 <= k < 4 ==> (#[trigger] r@[k])@ == alu_transition_expr(*local, *next, k),
    {
        proof {
            lemma_block_cells_wf(local.regs);
            lemma_block_cells_wf(local.dest_sel);
            lemma_block_cells_wf(next.regs);
        }
        let src1_val = eval_dot(&local.regs, &local.src1_sel);
        let src2_val = eval_dot(&local.regs, &local.src2_sel);
        let add_result = src1_val.add(src2_val);
        let sub_result = src1_val.sub(src2_val);
        let result = add_result.mul(local.op_add).add(sub_result.mul(local.op_sub));
        let mut r: Vec<Fp> = Vec::new();
        r.push(next.regs[0].sub(eval_blend(local.regs[0], result, local.dest_sel[0])));
        r.push(next.regs[1].sub(eval_blend(local.regs[1], result, local.dest_sel[1])));
        r.push(next.regs[2].sub(eval_blend(local.regs[2], result, local.dest_sel[2])));
        r.push(next.regs[3].sub(eval_blend(local.regs[3], result, local.dest_sel[3])));
        r
    }

    /// Check the whole constraint system on a trace, exactly as a backend
    /// would.
    pub fn check_trace(&self, trace: &Vec<AluRow>) -> (r: bool)
        requires
            forall|i: int| 0 <= i < trace@.len() ==> (#[trigger] trace@[i]).wf(),
        ensures
            r == alu_air_ok(trace@),
    {
        let n = trace.len();
        let mut i: usize = 0;
        while i < n
            invariant
                i <= n,
                n == trace@.len(),
                forall|ii: int| 0 <= ii < trace@.len() ==> (#[trigger] trace@[ii]).wf(),
                forall|ii: int| 0 <= ii < i ==> alu_row_ok(#[trigger] trace@[ii]),
            decreases n - i,
        {
            let row_constraints = self.eval_row(&trace[i]);
            if !all_zero(&row_constraints) {
                proof {
                    let j = choose|j: int|
                        0 <= j < row_constraints@.len() && (#[trigger] row_constraints@[j])@ != 0;
                    assert(alu_row_expr(trace@[i as int], j) != 0);
                }
                return false;
            }
            proof {
                assert forall|j: int|
                    0 <= j < NUM_ALU_ROW_CONSTRAINTS implies alu_row_expr(trace@[i as int], j)
                    == 0 by {
                    assert(row_constraints@[j]@ == alu_row_expr(trace@[i as int], j));
                }
            }
            i += 1;
        }
        if n == 0 {
            return true;
        }
        let mut i: usize = 0;
        while i < n - 1
            invariant
                1 <= n == trace@.len(),
                i <= n - 1,
                forall|ii: int| 0 <= ii < trace@.len() ==> (#[trigger] trace@[ii]).wf(),
                forall|ii: int| 0 <= ii < trace@.len() ==> alu_row_ok(#[trigger] trace@[ii]),
                forall|ii: int|
                    0 <= ii < i ==> alu_transition_ok(#[trigger] trace@[ii], trace@[ii + 1]),
            decreases n - i,
        {
            let transition_constraints = self.eval_transition(&trace[i], &trace[i + 1]);
            if !all_zero(&transition_constraints) {
                proof {
                    let k = choose|k: int|
                        0 <= k < transition_constraints@.len() && (
                        #[trigger] transition_constraints@[k])@ != 0;
                    assert(alu_transition_expr(trace@[i as int], trace@[i as int + 1], k) != 0);
                }
                return false;
            }
            proof {
                assert forall|k: int|
                    0 <= k < 4 implies #[trigger] alu_transition_expr(
                    trace@[i as int],
                    trace@[i as int + 1],
                    k,
                ) == 0 by {
                    assert(transition_constraints@[k]@ == alu_transition_expr(
                        trace@[i as int],
                        trace@[i as int + 1],
                        k,
                    ));
                }
            }
            i += 1;
        }
        true
    }
}

} // verus!
