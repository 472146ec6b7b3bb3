//! The fixed-operation adder chip.
//!
//! Every instruction adds two selected registers into a selected register.
//! A trace row records the four register values together with three one-hot
//! selector blocks (destination, first source, second source), sixteen
//! columns in all.  [`AdderChip::generate_trace`] runs a program and emits
//! one row per instruction plus padding rows up to a power-of-two length;
//! the constraint evaluator emits the polynomial identities that certify a
//! row and a transition between adjacent rows.

use crate::air::{
    all_zero, blend, block_sum, bool_expr, dot, eval_blend, eval_bool, eval_block_sum, eval_dot,
    lemma_blend, lemma_bool_expr_zero, lemma_dot_one_hot, lemma_one_hot_block_sum,
};
use crate::field::{fadd, fsub, lemma_field_identities, lemma_field_ops_in_field, Fp};
use crate::isa::{
    adder_regs_at, adder_step, block_view, cells_wf, lemma_adder_regs_at_wf, lemma_block_cells_wf,
    one_hot, one_hot_val, regs_wf, Instruction, TraceError,
};
use crate::pow2::{is_pow2, next_power_of_two};
use vstd::prelude::*;

verus! {

/// The column count of the adder chip: four register columns and three
/// four-wide selector blocks.
pub const NUM_ADDER_COLS: usize = 16;

/// The number of single-row constraints: twelve booleanity checks and
/// three one-hot sums.
pub const NUM_ADDER_ROW_CONSTRAINTS: usize = 15;

/// The stateless descriptor of the adder chip.
pub struct AdderChip;

/// One row of the adder trace.
#[derive(Clone, Copy, Debug)]
pub struct AdderRow {
    /// Register values at the start of the step.
    pub regs: [Fp; 4],
    /// One-hot destination selectors.
    pub dest_sel: [Fp; 4],
    /// One-hot first-source selectors.
    pub src1_sel: [Fp; 4],
    /// One-hot second-source selectors.
    pub src2_sel: [Fp; 4],
}

impl AdderRow {
    /// The canonical register values of this row.
    pub open spec fn regs_view(self) -> Seq<int> {
        block_view(self.regs)
    }

    /// The canonical destination-selector values of this row.
    pub open spec fn dest_view(self) -> Seq<int> {
        block_view(self.dest_sel)
    }

    /// The canonical first-source-selector values of this row.
    pub open spec fn src1_view(self) -> Seq<int> {
        block_view(self.src1_sel)
    }

    /// The canonical second-source-selector values of this row.
    pub open spec fn src2_view(self) -> Seq<int> {
        block_view(self.src2_sel)
    }

    /// Every cell holds a canonical field value.
    pub open spec fn wf(self) -> bool {
        &&& cells_wf(self.regs_view())
        &&& cells_wf(self.dest_view())
        &&& cells_wf(self.src1_view())
        &&& cells_wf(self.src2_view())
    }

    /// Whether this row records register state `regs` while instruction
    /// `inst` executes: register columns carry `regs` and the selector
    /// blocks one-hot encode the three operand indices.
    pub open spec fn encodes(self, regs: Seq<int>, inst: Instruction) -> bool {
        &&& forall|k: int| 0 <= k < 4 ==> self.regs_view()[k] == regs[k]
        &&& forall|k: int| 0 <= k < 4 ==> self.dest_view()[k] == one_hot_val(inst.dest as int, k)
        &&& forall|k: int| 0 <= k < 4 ==> self.src1_view()[k] == one_hot_val(inst.src1 as int, k)
        &&& forall|k: int| 0 <= k < 4 ==> self.src2_view()[k] == one_hot_val(inst.src2 as int, k)
    }

    /// The flat column layout shared with a backend: registers in columns
    /// 0 to 3, destination selectors in 4 to 7, first-source selectors in
    /// 8 to 11, second-source selectors in 12 to 15.
    pub fn to_columns(&self) -> (r: Vec<Fp>)
        ensures
            r@.len() == NUM_ADDER_COLS,
            forall|k: int| 0 <= k < 4 ==> (#[trigger] r@[k])@ == self.regs_view()[k],
            forall|k: int| 4 <= k < 8 ==> (#[trigger] r@[k])@ == self.dest_view()[k - 4],
            forall|k: int| 8 <= k < 12 ==> (#[trigger] r@[k])@ == self.src1_view()[k - 8],
            forall|k: int| 12 <= k < 16 ==> (#[trigger] r@[k])@ == self.src2_view()[k - 12],
    {
        let mut r: Vec<Fp> = Vec::new();
        r.push(self.regs[0]);
        r.push(self.regs[1]);
        r.push(self.regs[2]);
        r.push(self.regs[3]);
        r.push(self.dest_sel[0]);
        r.push(self.dest_sel[1]);
        r.push(self.dest_sel[2]);
        r.push(self.dest_sel[3]);
        r.push(self.src1_sel[0]);
        r.push(self.src1_sel[1]);
        r.push(self.src1_sel[2]);
        r.push(self.src1_sel[3]);
        r.push(self.src2_sel[0]);
        r.push(self.src2_sel[1]);
        r.push(self.src2_sel[2]);
        r.push(self.src2_sel[3]);
        r
    }
}

/// The operation result read off a row: the field sum of the two
/// selector-reconstructed source values.
pub open spec fn adder_result(row: AdderRow) -> int {
    fadd(dot(row.regs_view(), row.src1_view()), dot(row.regs_view(), row.src2_view()))
}

/// The single-row constraint expressions, indexed 0 to 14: booleanity of
/// the three selector blocks, then the three one-hot sums minus one.
pub open spec fn adder_row_expr(row: AdderRow, j: int) -> int {
    if 0 <= j < 4 {
        bool_expr(row.dest_view()[j])
    } else if 4 <= j < 8 {
        bool_expr(row.src1_view()[j - 4])
    } else if 8 <= j < 12 {
        bool_expr(row.src2_view()[j - 8])
    } else if j == 12 {
        fsub(block_sum(row.dest_view()), 1)
    } else if j == 13 {
        fsub(block_sum(row.src1_view()), 1)
    } else {
        fsub(block_sum(row.src2_view()), 1)
    }
}

/// The transition constraint for register `k`: the next row's register
/// must equal the blend of the carried value and the operation result.
pub open spec fn adder_transition_expr(local: AdderRow, next: AdderRow, k: int) -> int {
    fsub(
        next.regs_view()[k],
        blend(local.regs_view()[k], adder_result(local), local.dest_view()[k]),
    )
}

/// All single-row constraints of `row` vanish.
pub open spec fn adder_row_ok(row: AdderRow) -> bool {
    forall|j: int| 0 <= j < NUM_ADDER_ROW_CONSTRAINTS ==> adder_row_expr(row, j) == 0
}

/// All transition constraints between `local` and `next` vanish.
pub open spec fn adder_transition_ok(local: AdderRow, next: AdderRow) -> bool {
    forall|k: int| 0 <= k < 4 ==> adder_transition_expr(local, next, k) == 0
}

/// The whole constraint system vanishes on the trace: the single-row
/// constraints on every row and the transition constraints between every
/// pair of adjacent rows.
pub open spec fn adder_air_ok(t: Seq<AdderRow>) -> bool {
    &&& forall|i: int| 0 <= i < t.len() ==> adder_row_ok(#[trigger] t[i])
    &&& forall|i: int| 0 <= i < t.len() - 1 ==> adder_transition_ok(#[trigger] t[i], t[i + 1])
}

/// What a successfully generated trace guarantees: a power-of-two row
/// count that padding cannot double, each instruction's row encoding the
/// machine state just before it runs, and every padding row a verbatim
/// copy of the final instruction's row.
pub open spec fn adder_trace_ok(program: Seq<Instruction>, init: Seq<int>, t: Seq<AdderRow>) -> bool {
    &&& t.len() >= program.len()
    &&& is_pow2(t.len() as int)
    &&& t.len() < 2 * program.len()
    &&& forall|i: int|
        0 <= i < program.len() ==> (#[trigger] t[i]).encodes(
            adder_regs_at(program, init, i),
            program[i],
        )
    &&& forall|i: int| program.len() - 1 <= i < t.len() ==> #[trigger] t[i] == t[program.len() - 1]
    &&& forall|i: int| 0 <= i < t.len() ==> (#[trigger] t[i]).wf()
}

/// Every selector cell of the row is boolean and every selector block
/// sums (as integers) to exactly one.
pub open spec fn adder_selectors_valid(row: AdderRow) -> bool {
    &&& forall|k: int|
        0 <= k < 4 ==> ((#[trigger] row.dest_view()[k]) == 0 || row.dest_view()[k] == 1)
    &&& forall|k: int|
        0 <= k < 4 ==> ((#[trigger] row.src1_view()[k]) == 0 || row.src1_view()[k] == 1)
    &&& forall|k: int|
        0 <= k < 4 ==> ((#[trigger] row.src2_view()[k]) == 0 || row.src2_view()[k] == 1)
    &&& row.dest_view()[0] + row.dest_view()[1] + row.dest_view()[2] + row.dest_view()[3] == 1
    &&& row.src1_view()[0] + row.src1_view()[1] + row.src1_view()[2] + row.src1_view()[3] == 1
    &&& row.src2_view()[0] + row.src2_view()[1] + row.src2_view()[2] + row.src2_view()[3] == 1
}

/// A row that encodes a valid instruction has valid selectors.
proof fn lemma_encoded_selectors_valid(row: AdderRow, regs: Seq<int>, inst: Instruction)
    requires
        inst.valid(),
        row.encodes(regs, inst),
    ensures
        adder_selectors_valid(row),
{
    assert(row.dest_view()[0] == one_hot_val(inst.dest as int, 0));
    assert(row.dest_view()[1] == one_hot_val(inst.dest as int, 1));
    assert(row.dest_view()[2] == one_hot_val(inst.dest as int, 2));
    assert(row.dest_view()[3] == one_hot_val(inst.dest as int, 3));
    assert(row.src1_view()[0] == one_hot_val(inst.src1 as int, 0));
    assert(row.src1_view()[1] == one_hot_val(inst.src1 as int, 1));
    assert(row.src1_view()[2] == one_hot_val(inst.src1 as int, 2));
    assert(row.src1_view()[3] == one_hot_val(inst.src1 as int, 3));
    assert(row.src2_view()[0] == one_hot_val(inst.src2 as int, 0));
    assert(row.src2_view()[1] == one_hot_val(inst.src2 as int, 1));
    assert(row.src2_view()[2] == one_hot_val(inst.src2 as int, 2));
    assert(row.src2_view()[3] == one_hot_val(inst.src2 as int, 3));
}

/// Selector validity: in every row of a generated trace, every selector
/// cell is zero or one and every selector block sums to exactly one.
pub proof fn lemma_adder_selector_validity(
    program: Seq<Instruction>,
    init: Seq<int>,
    t: Seq<AdderRow>,
)
    requires
        program.len() >= 1,
        forall|j: int| 0 <= j < program.len() ==> (#[trigger] program[j]).valid(),
        adder_trace_ok(program, init, t),
    ensures
        forall|i: int| 0 <= i < t.len() ==> adder_selectors_valid(#[trigger] t[i]),
{
    assert forall|i: int| 0 <= i < t.len() implies adder_selectors_valid(#[trigger] t[i]) by {
        let ir: int = if i < program.len() {
            i
        } else {
            program.len() - 1
        };
        assert(t[i] == t[ir]);
        lemma_encoded_selectors_valid(t[ir], adder_regs_at(program, init, ir), program[ir]);
    }
}

/// Transition correctness: between consecutive instruction rows, the
/// destination register receives the field sum of the two selected source
/// registers and every other register is carried forward unchanged.
pub proof fn lemma_adder_transition_correctness(
    program: Seq<Instruction>,
    init: Seq<int>,
    t: Seq<AdderRow>,
)
    requires
        regs_wf(init),
        program.len() >= 1,
        forall|j: int| 0 <= j < program.len() ==> (#[trigger] program[j]).valid(),
        adder_trace_ok(program, init, t),
    ensures
        forall|i: int, k: int|
            0 <= i < program.len() - 1 && 0 <= k < 4 ==> (#[trigger] t[i + 1].regs_view()[k])
                == (if k == program[i].dest as int {
                fadd(
                    t[i].regs_view()[program[i].src1 as int],
                    t[i].regs_view()[program[i].src2 as int],
                )
            } else {
                t[i].regs_view()[k]
            }),
{
    assert forall|i: int, k: int|
        0 <= i < program.len() - 1 && 0 <= k < 4 implies (#[trigger] t[i + 1].regs_view()[k]) == (
    if k == program[i].dest as int {
        fadd(t[i].regs_view()[program[i].src1 as int], t[i].regs_view()[program[i].src2 as int])
    } else {
        t[i].regs_view()[k]
    }) by {
        lemma_adder_regs_at_wf(program, init, i);
        let regs_i = adder_regs_at(program, init, i);
        let regs_n = adder_regs_at(program, init, i + 1);
        assert(regs_n == adder_step(regs_i, program[i]));
        assert(t[i].encodes(regs_i, program[i]));
        assert(t[i + 1].encodes(regs_n, program[i + 1]));
        assert(t[i + 1].regs_view()[k] == regs_n[k]);
        assert(t[i].regs_view()[k] == regs_i[k]);
        assert(t[i].regs_view()[program[i].src1 as int] == regs_i[program[i].src1 as int]);
        assert(t[i].regs_view()[program[i].src2 as int] == regs_i[program[i].src2 as int]);
    }
}

/// A row that encodes a valid instruction satisfies all single-row
/// constraints.
proof fn lemma_encoded_row_ok(row: AdderRow, regs: Seq<int>, inst: Instruction)
    requires
        inst.valid(),
        row.encodes(regs, inst),
    ensures
        adder_row_ok(row),
{
    lemma_encoded_selectors_valid(row, regs, inst);
    assert forall|j: int| 0 <= j < NUM_ADDER_ROW_CONSTRAINTS implies adder_row_expr(row, j)
        == 0 by {
        if 0 <= j < 4 {
            assert(row.dest_view()[j] == one_hot_val(inst.dest as int, j));
            lemma_bool_expr_zero(row.dest_view()[j]);
        } else if 4 <= j < 8 {
            assert(row.src1_view()[j - 4] == one_hot_val(inst.src1 as int, j - 4));
            lemma_bool_expr_zero(row.src1_view()[j - 4]);
        } else if 8 <= j < 12 {
            assert(row.src2_view()[j - 8] == one_hot_val(inst.src2 as int, j - 8));
            lemma_bool_expr_zero(row.src2_view()[j - 8]);
        } else if j == 12 {
            lemma_one_hot_block_sum(row.dest_view(), inst.dest as int);
            lemma_field_identities(1);
        } else if j == 13 {
            lemma_one_hot_block_sum(row.src1_view(), inst.src1 as int);
            lemma_field_identities(1);
        } else {
            lemma_one_hot_block_sum(row.src2_view(), inst.src2 as int);
            lemma_field_identities(1);
        }
    }
}

/// A pair of rows related by one machine step satisfies the transition
/// constraints: the one-hot dot products degenerate to the selected
/// registers and the blend degenerates to the conditional assignment.
proof fn lemma_encoded_transition_ok(
    local: AdderRow,
    next: AdderRow,
    regs: Seq<int>,
    inst: Instruction,
)
    requires
        regs_wf(regs),
        inst.valid(),
        local.encodes(regs, inst),
        forall|k: int| 0 <= k < 4 ==> next.regs_view()[k] == adder_step(regs, inst)[k],
    ensures
        adder_transition_ok(local, next),
{
    assert(local.regs_view() =~= regs);
    lemma_dot_one_hot(regs, local.src1_view(), inst.src1 as int);
    lemma_dot_one_hot(regs, local.src2_view(), inst.src2 as int);
    let a = regs[inst.src1 as int];
    let b = regs[inst.src2 as int];
    lemma_field_ops_in_field(a, b);
    assert(adder_result(local) == fadd(a, b));
    assert forall|k: int| 0 <= k < 4 implies adder_transition_expr(local, next, k) == 0 by {
        let d = local.dest_view()[k];
        assert(d == one_hot_val(inst.dest as int, k));
        lemma_blend(regs[k], fadd(a, b), d);
        if k == inst.dest as int {
            assert(next.regs_view()[k] == fadd(a, b));
            lemma_field_identities(fadd(a, b));
        } else {
            assert(next.regs_view()[k] == regs[k]);
            lemma_field_identities(regs[k]);
        }
    }
}

/// Soundness of the generator against the constraint system: every row of
/// a generated trace satisfies the single-row constraints, every pair of
/// adjacent instruction rows satisfies the transition constraints, and a
/// trace that needed no padding satisfies the whole constraint system.
pub proof fn lemma_adder_air_soundness(program: Seq<Instruction>, init: Seq<int>, t: Seq<AdderRow>)
    requires
        regs_wf(init),
        program.len() >= 1,
        forall|j: int| 0 <= j < program.len() ==> (#[trigger] program[j]).valid(),
        adder_trace_ok(program, init, t),
    ensures
        forall|i: int| 0 <= i < t.len() ==> adder_row_ok(#[trigger] t[i]),
        forall|i: int| 0 <= i < program.len() - 1 ==> adder_transition_ok(#[trigger] t[i], t[i + 1]),
        t.len() == program.len() ==> adder_air_ok(t),
{
    assert forall|i: int| 0 <= i < t.len() implies adder_row_ok(#[trigger] t[i]) by {
        let ir: int = if i < program.len() {
            i
        } else {
            program.len() - 1
        };
        assert(t[i] == t[ir]);
        lemma_encoded_row_ok(t[ir], adder_regs_at(program, init, ir), program[ir]);
    }
    assert forall|i: int| 0 <= i < program.len() - 1 implies adder_transition_ok(
        #[trigger] t[i],
        t[i + 1],
    ) by {
        lemma_adder_regs_at_wf(program, init, i);
        let regs_i = adder_regs_at(program, init, i);
        assert(t[i].encodes(regs_i, program[i]));
        assert(t[i + 1].encodes(adder_regs_at(program, init, i + 1), program[i + 1]));
        assert(adder_regs_at(program, init, i + 1) == adder_step(regs_i, program[i]));
        lemma_encoded_transition_ok(t[i], t[i + 1], regs_i, program[i]);
    }
}

/// Run `program` on a bare register file, with no trace and no selectors:
/// the returned sequence holds the register state before each instruction,
/// ending with the final state, `len(program) + 1` states in all.
pub fn simulate(program: &Vec<Instruction>, initial_regs: [Fp; 4]) -> (r: Result<
    Vec<[Fp; 4]>,
    TraceError,
>)
    requires
        cells_wf(block_view(initial_regs)),
    ensures
        program@.len() == 0 ==> (r matches Err(e) && e == TraceError::EmptyProgram),
        program@.len() > 0 && !(forall|j: int|
            0 <= j < program@.len() ==> (#[trigger] program@[j]).valid()) ==> (r matches Err(e)
            && e == TraceError::InvalidOperand),
        program@.len() > 0 && (forall|j: int|
            0 <= j < program@.len() ==> (#[trigger] program@[j]).valid()) ==> (r matches Ok(states)
            && states@.len() == program@.len() + 1 && forall|i: int, k: int|
            0 <= i < states@.len() && 0 <= k < 4 ==> (#[trigger] block_view(states@[i])[k])
                == adder_regs_at(program@, block_view(initial_regs), i)[k]),
{
    let ghost init = block_view(initial_regs);
    let n = program.len();
    if n == 0 {
        return Err(TraceError::EmptyProgram);
    }
    let mut j: usize = 0;
    while j < n
        invariant
            j <= n,
            n == program@.len(),
            forall|jj: int| 0 <= jj < j ==> (#[trigger] program@[jj]).valid(),
        decreases n - j,
    {
        if !program[j].is_valid() {
            return Err(TraceError::InvalidOperand);
        }
        j += 1;
    }
    let mut states: Vec<[Fp; 4]> = Vec::new();
    let mut current: [Fp; 4] = initial_regs;
    states.push(current);
    let mut i: usize = 0;
    while i < n
        invariant
            i <= n,
            n == program@.len(),
            init == block_view(initial_regs),
            regs_wf(init),
            forall|jj: int| 0 <= jj < n ==> (#[trigger] program@[jj]).valid(),
            states@.len() == i + 1,
            cells_wf(block_view(current)),
            forall|k: int|
                0 <= k < 4 ==> block_view(current)[k] == adder_regs_at(program@, init, i as int)[k],
            forall|ii: int, k: int|
                0 <= ii < states@.len() && 0 <= k < 4 ==> (#[trigger] block_view(states@[ii])[k])
                    == adder_regs_at(program@, init, ii)[k],
        decreases n - i,
    {
        let inst = program[i];
        proof {
            lemma_adder_regs_at_wf(program@, init, i as int);
            lemma_block_cells_wf(current);
        }
        let res = current[inst.src1].add(current[inst.src2]);
        let next = crate::isa::set_block(current, inst.dest, res);
        proof {
            let regs_i = adder_regs_at(program@, init, i as int);
            let regs_next = adder_regs_at(program@, init, i as int + 1);
            assert(regs_next == adder_step(regs_i, program@[i as int]));
            assert(block_view(current) =~= regs_i);
            assert forall|k: int| 0 <= k < 4 implies block_view(next)[k] == regs_next[k] by {
                assert(block_view(next) == block_view(current).update(inst.dest as int, res@));
            }
        }
        current = next;
        states.push(current);
        i += 1;
    }
    Ok(states)
}

/// Round trip with the plain simulator: the register columns of trace row
/// `i` hold exactly the simulator's register state before instruction `i`
/// runs, and row `i + 1` therefore holds the state just after it.
pub proof fn lemma_adder_simulation_round_trip(
    program: Seq<Instruction>,
    init: Seq<int>,
    t: Seq<AdderRow>,
    states: Seq<[Fp; 4]>,
)
    requires
        program.len() >= 1,
        forall|j: int| 0 <= j < program.len() ==> (#[trigger] program[j]).valid(),
        adder_trace_ok(program, init, t),
        states.len() == program.len() + 1,
        forall|i: int, k: int|
            0 <= i < states.len() && 0 <= k < 4 ==> (#[trigger] block_view(states[i])[k])
                == adder_regs_at(program, init, i)[k],
    ensures
        forall|i: int, k: int|
            0 <= i < program.len() && 0 <= k < 4 ==> (#[trigger] t[i].regs_view()[k])
                == block_view(states[i])[k],
{
    assert forall|i: int, k: int|
        0 <= i < program.len() && 0 <= k < 4 implies (#[trigger] t[i].regs_view()[k]) == block_view(
        states[i],
    )[k] by {
        assert(t[i].encodes(adder_regs_at(program, init, i), program[i]));
        assert(block_view(states[i])[k] == adder_regs_at(program, init, i)[k]);
    }
}

impl AdderChip {
    /// The column count of this chip.
    pub fn width(&self) -> (r: usize)
        ensures
            r == NUM_ADDER_COLS,
    {
        NUM_ADDER_COLS
    }

    /// Run `program` from `initial_regs` and serialise the execution into
    /// a trace, padded to the next power-of-two length with copies of the
    /// final row.  A program that names a register outside the file is
    /// refused before any row is written; so is an empty program.
    pub fn generate_trace(program: &Vec<Instruction>, initial_regs: [Fp; 4]) -> (r: Result<
        Vec<AdderRow>,
        TraceError,
    >)
        requires
            cells_wf(block_view(initial_regs)),
            program@.len() <= usize::MAX / 2,
        ensures
            program@.len() == 0 ==> (r matches Err(e) && e == TraceError::EmptyProgram),
            program@.len() > 0 && !(forall|j: int|
                0 <= j < program@.len() ==> (#[trigger] program@[j]).valid()) ==> (r matches Err(e)
                && e == TraceError::InvalidOperand),
            program@.len() > 0 && (forall|j: int|
                0 <= j < program@.len() ==> (#[trigger] program@[j]).valid()) ==> (r matches Ok(t)
                && adder_trace_ok(program@, block_view(initial_regs), t@)),
    {
        let ghost init = block_view(initial_regs);
        let n = program.len();
        if n == 0 {
            return Err(TraceError::EmptyProgram);
        }
        let mut j: usize = 0;
        while j < n
            invariant
                j <= n,
                n == program@.len(),
                forall|jj: int| 0 <= jj < j ==> (#[trigger] program@[jj]).valid(),
            decreases n - j,
        {
            if !program[j].is_valid() {
                return Err(TraceError::InvalidOperand);
            }
            j += 1;
        }
        let trace_len = next_power_of_two(n);
        let mut trace: Vec<AdderRow> = Vec::new();
        let mut current: [Fp; 4] = initial_regs;
        let mut i: usize = 0;
        while i < n
            invariant
                i <= n,
                n == program@.len() <= usize::MAX / 2,
                regs_wf(init),
                init == block_view(initial_regs),
                forall|jj: int| 0 <= jj < n ==> (#[trigger] program@[jj]).valid(),
                trace@.len() == i,
                cells_wf(block_view(current)),
                forall|k: int|
                    0 <= k < 4 ==> block_view(current)[k] == adder_regs_at(
                        program@,
                        init,
                        i as int,
                    )[k],
                forall|ii: int|
                    0 <= ii < i ==> (#[trigger] trace@[ii]).encodes(
                        adder_regs_at(program@, init, ii),
                        program@[ii],
                    ),
                forall|ii: int| 0 <= ii < i ==> (#[trigger] trace@[ii]).wf(),
            decreases n - i,
        {
            let inst = program[i];
            let row = AdderRow {
                regs: current,
                dest_sel: one_hot(inst.dest),
                src1_sel: one_hot(inst.src1),
                src2_sel: one_hot(inst.src2),
            };
            trace.push(row);
            proof {
                lemma_adder_regs_at_wf(program@, init, i as int);
            }
            let a = current[inst.src1];
            let b = current[inst.src2];
            proof {
                lemma_block_cells_wf(current);
            }
            let res = a.add(b);
            let next = crate::isa::set_block(current, inst.dest, res);
            proof {
                let regs_i = adder_regs_at(program@, init, i as int);
                let regs_next = adder_regs_at(program@, init, i as int + 1);
                assert(regs_next == adder_step(regs_i, program@[i as int]));
                assert(block_view(current) =~= regs_i);
                assert forall|k: int| 0 <= k < 4 implies block_view(next)[k] == regs_next[k] by {
                    assert(block_view(next) == block_view(current).update(
                        inst.dest as int,
                        res@,
                    ));
                }
            }
            current = next;
            i += 1;
        }
        let last = trace[n - 1];
        while trace.len() < trace_len
            invariant
                1 <= n == program@.len(),
                n <= trace_len,
                n <= trace@.len() <= trace_len,
                last == trace@[n - 1],
                forall|ii: int|
                    0 <= ii < n ==> (#[trigger] trace@[ii]).encodes(
                        adder_regs_at(program@, init, ii),
                        program@[ii],
                    ),
                forall|ii: int| 0 <= ii < trace@.len() ==> (#[trigger] trace@[ii]).wf(),
                forall|ii: int| n - 1 <= ii < trace@.len() ==> #[trigger] trace@[ii] == trace@[n - 1],
            decreases trace_len - trace@.len(),
        {
            trace.push(last);
        }
        Ok(trace)
    }

    /// Evaluate the single-row constraints on `local`: twelve booleanity
    /// expressions followed by the three one-hot sums minus one.
    pub fn eval_row(&self, local: &AdderRow) -> (r: Vec<Fp>)
        requires
            local.wf(),
        ensures
            r@.len() == NUM_ADDER_ROW_CONSTRAINTS,
            forall|j: int|
                0 <= j < NUM_ADDER_ROW_CONSTRAINTS ==> (#[trigger] r@[j])@ == adder_row_expr(
                    *local,
                    j,
                ),
    {
        proof {
            lemma_block_cells_wf(local.dest_sel);
            lemma_block_cells_wf(local.src1_sel);
            lemma_block_cells_wf(local.src2_sel);
        }
        let one = Fp::one();
        let mut r: Vec<Fp> = Vec::new();
        r.push(eval_bool(local.dest_sel[0]));
        r.push(eval_bool(local.dest_sel[1]));
        r.push(eval_bool(local.dest_sel[2]));
        r.push(eval_bool(local.dest_sel[3]));
        r.push(eval_bool(local.src1_sel[0]));
        r.push(eval_bool(local.src1_sel[1]));
        r.push(eval_bool(local.src1_sel[2]));
        r.push(eval_bool(local.src1_sel[3]));
        r.push(eval_bool(local.src2_sel[0]));
        r.push(eval_bool(local.src2_sel[1]));
        r.push(eval_bool(local.src2_sel[2]));
        r.push(eval_bool(local.src2_sel[3]));
        r.push(eval_block_sum(&local.dest_sel).sub(one));
        r.push(eval_block_sum(&local.src1_sel).sub(one));
        r.push(eval_block_sum(&local.src2_sel).sub(one));
        r
    }

    /// Evaluate the four transition constraints between adjacent rows.
    pub fn eval_transition(&self, local: &AdderRow, next: &AdderRow) -> (r: Vec<Fp>)
        requires
            local.wf(),
            next.wf(),
        ensures
            r@.len() == 4,
            forall|k: int|
                0 <= k < 4 ==> (#[trigger] r@[k])@ == adder_transition_expr(*local, *next, k),
    {
        proof {
            lemma_block_cells_wf(local.regs);
            lemma_block_cells_wf(local.dest_sel);
            lemma_block_cells_wf(next.regs);
        }
        let src1_val = eval_dot(&local.regs, &local.src1_sel);
        let src2_val = eval_dot(&local.regs, &local.src2_sel);
        let result = src1_val.add(src2_val);
        let mut r: Vec<Fp> = Vec::new();
        r.push(next.regs[0].sub(eval_blend(local.regs[0], result, local.dest_sel[0])));
        r.push(next.regs[1].sub(eval_blend(local.regs[1], result, local.dest_sel[1])));
        r.push(next.regs[2].sub(eval_blend(local.regs[2], result, local.dest_sel[2])));
        r.push(next.regs[3].sub(eval_blend(local.regs[3], result, local.dest_sel[3])));
        r
    }

    /// Check the whole constraint system on a trace: the single-row
    /// constraints on every row and the transition constraints between
    /// every pair of adjacent rows, exactly as a backend would.
    pub fn check_trace(&self, trace: &Vec<AdderRow>) -> (r: bool)
        requires
            forall|i: int| 0 <= i < trace@.len() ==> (#[trigger] trace@[i]).wf(),
        ensures
            r == adder_air_ok(trace@),
    {
        let n = trace.len();
        let mut i: usize = 0;
        while i < n
            invariant
                i <= n,
                n == trace@.len(),
                forall|ii: int| 0 <= ii < trace@.len() ==> (#[trigger] trace@[ii]).wf(),
                forall|ii: int| 0 <= ii < i ==> adder_row_ok(#[trigger] trace@[ii]),
            decreases n - i,
        {
            let row_constraints = self.eval_row(&trace[i]);
            if !all_zero(&row_constraints) {
                proof {
                    let j = choose|j: int|
                        0 <= j < row_constraints@.len() && (#[trigger] row_constraints@[j])@ != 0;
                    assert(adder_row_expr(trace@[i as int], j) != 0);
                }
                return false;
            }
            proof {
                assert forall|j: int|
                    0 <= j < NUM_ADDER_ROW_CONSTRAINTS implies adder_row_expr(
                    trace@[i as int],
                    j,
                ) == 0 by {
                    assert(row_constraints@[j]@ == adder_row_expr(trace@[i as int], j));
                }
            }
            i += 1;
        }
        if n == 0 {
            return true;
        }
        let mut i: usize = 0;
        while i < n - 1
            invariant
                1 <= n == trace@.len(),
                i <= n - 1,
                forall|ii: int| 0 <= ii < trace@.len() ==> (#[trigger] trace@[ii]).wf(),
                forall|ii: int| 0 <= ii < trace@.len() ==> adder_row_ok(#[trigger] trace@[ii]),
                forall|ii: int|
                    0 <= ii < i ==> adder_transition_ok(#[trigger] trace@[ii], trace@[ii + 1]),
            decreases n - i,
        {
            let transition_constraints = self.eval_transition(&trace[i], &trace[i + 1]);
            if !all_zero(&transition_constraints) {
                proof {
                    let k = choose|k: int|
                        0 <= k < transition_constraints@.len() && (
                        #[trigger] transition_constraints@[k])@ != 0;
                    assert(adder_transition_expr(trace@[i as int], trace@[i as int + 1], k) != 0);
                }
                return false;
            }
            proof {
                assert forall|k: int|
                    0 <= k < 4 implies #[trigger] adder_transition_expr(
                    trace@[i as int],
                    trace@[i as int + 1],
                    k,
                ) == 0 by {
                    assert(transition_constraints@[k]@ == adder_transition_expr(
                        trace@[i as int],
                        trace@[i as int + 1],
                        k,
                    ));
                }
            }
            i += 1;
        }
        true
    }
}

} // verus!
