use selector_air::adder::{self, AdderChip, AdderRow};
use selector_air::alu::{AluChip, AluRow};
use selector_air::field::{field_to_u64, u64_to_field, Fp};
use selector_air::isa::{AluInstruction, Instruction, Opcode, TraceError};
use selector_air::recurrence::FibonacciChip;

fn regs(values: [u64; 4]) -> [Fp; 4] {
    [
        u64_to_field(values[0]),
        u64_to_field(values[1]),
        u64_to_field(values[2]),
        u64_to_field(values[3]),
    ]
}

fn reg_values(block: &[Fp; 4]) -> [u64; 4] {
    [
        field_to_u64(block[0]),
        field_to_u64(block[1]),
        field_to_u64(block[2]),
        field_to_u64(block[3]),
    ]
}

fn adder_row_columns(row: &AdderRow) -> Vec<u64> {
    row.to_columns().into_iter().map(field_to_u64).collect()
}

fn alu_row_columns(row: &AluRow) -> Vec<u64> {
    row.to_columns().into_iter().map(field_to_u64).collect()
}

#[test]
fn adder_single_instruction_rows() {
    let program = vec![Instruction { dest: 2, src1: 0, src2: 1 }];
    let init = regs([1, 2, 0, 0]);
    let trace = AdderChip::generate_trace(&program, init).unwrap();
    assert_eq!(trace.len(), 1);
    assert_eq!(reg_values(&trace[0].regs), [1, 2, 0, 0]);

    let states = adder::simulate(&program, init).unwrap();
    assert_eq!(states.len(), 2);
    assert_eq!(reg_values(&states[0]), [1, 2, 0, 0]);
    assert_eq!(reg_values(&states[1]), [1, 2, 3, 0]);
}

#[test]
fn adder_selectors_are_one_hot() {
    let program = vec![Instruction { dest: 2, src1: 0, src2: 1 }];
    let trace = AdderChip::generate_trace(&program, regs([1, 2, 0, 0])).unwrap();
    let cols = adder_row_columns(&trace[0]);
    assert_eq!(cols.len(), 16);
    // registers, then dest, src1 and src2 selector blocks
    assert_eq!(&cols[0..4], &[1, 2, 0, 0]);
    assert_eq!(&cols[4..8], &[0, 0, 1, 0]);
    assert_eq!(&cols[8..12], &[1, 0, 0, 0]);
    assert_eq!(&cols[12..16], &[0, 1, 0, 0]);
}

#[test]
fn adder_padding_duplicates_last_row() {
    let program = vec![
        Instruction { dest: 2, src1: 0, src2: 1 },
        Instruction { dest: 3, src1: 2, src2: 2 },
        Instruction { dest: 0, src1: 3, src2: 1 },
    ];
    let trace = AdderChip::generate_trace(&program, regs([1, 2, 0, 0])).unwrap();
    assert_eq!(trace.len(), 4);
    assert_eq!(adder_row_columns(&trace[3]), adder_row_columns(&trace[2]));
    // the machine computed r2 = 1 + 2, then r3 = 3 + 3, then r0 = 6 + 2
    assert_eq!(reg_values(&trace[1].regs), [1, 2, 3, 0]);
    assert_eq!(reg_values(&trace[2].regs), [1, 2, 3, 6]);
    let states = selector_air::adder::simulate(&program, regs([1, 2, 0, 0])).unwrap();
    assert_eq!(reg_values(&states[3]), [8, 2, 3, 6]);
}

#[test]
fn adder_rejects_out_of_range_destination() {
    let program = vec![Instruction { dest: 7, src1: 0, src2: 1 }];
    let r = AdderChip::generate_trace(&program, regs([1, 2, 0, 0]));
    assert_eq!(r.unwrap_err(), TraceError::InvalidOperand);
}

#[test]
fn adder_rejects_empty_program() {
    let program: Vec<Instruction> = Vec::new();
    let r = AdderChip::generate_trace(&program, regs([0, 0, 0, 0]));
    assert_eq!(r.unwrap_err(), TraceError::EmptyProgram);
    let r = adder::simulate(&program, regs([0, 0, 0, 0]));
    assert_eq!(r.unwrap_err(), TraceError::EmptyProgram);
}

#[test]
fn adder_exact_length_trace_passes_constraints() {
    // four instructions need no padding, so the whole system must vanish
    let program = vec![
        Instruction { dest: 2, src1: 0, src2: 1 },
        Instruction { dest: 3, src1: 2, src2: 2 },
        Instruction { dest: 0, src1: 3, src2: 1 },
        Instruction { dest: 1, src1: 1, src2: 1 },
    ];
    let chip = AdderChip;
    let trace = AdderChip::generate_trace(&program, regs([1, 2, 0, 0])).unwrap();
    assert_eq!(trace.len(), 4);
    assert!(chip.check_trace(&trace));
}

#[test]
fn adder_tampered_trace_fails_constraints() {
    let program = vec![
        Instruction { dest: 2, src1: 0, src2: 1 },
        Instruction { dest: 3, src1: 2, src2: 2 },
        Instruction { dest: 0, src1: 3, src2: 1 },
        Instruction { dest: 1, src1: 1, src2: 1 },
    ];
    let chip = AdderChip;
    let mut trace = AdderChip::generate_trace(&program, regs([1, 2, 0, 0])).unwrap();
    trace[1].regs[2] = u64_to_field(999);
    assert!(!chip.check_trace(&trace));

    let mut trace2 = AdderChip::generate_trace(&program, regs([1, 2, 0, 0])).unwrap();
    trace2[0].dest_sel[0] = u64_to_field(5);
    assert!(!chip.check_trace(&trace2));
}

#[test]
fn alu_subtraction_scenario() {
    let program = vec![AluInstruction { op: Opcode::SUB, dest: 1, src1: 2, src2: 0 }];
    let init = regs([3, 2, 5, 0]);
    let trace = AluChip::generate_trace(&program, init).unwrap();
    assert_eq!(trace.len(), 1);
    assert_eq!(reg_values(&trace[0].regs), [3, 2, 5, 0]);
    let states = selector_air::alu::simulate(&program, init).unwrap();
    assert_eq!(reg_values(&states[1])[1], 2);
}

#[test]
fn alu_mixed_program_matches_plain_simulation() {
    let program = vec![
        AluInstruction { op: Opcode::ADD, dest: 0, src1: 0, src2: 1 },
        AluInstruction { op: Opcode::SUB, dest: 1, src1: 2, src2: 0 },
        AluInstruction { op: Opcode::ADD, dest: 3, src1: 0, src2: 1 },
        AluInstruction { op: Opcode::SUB, dest: 2, src1: 3, src2: 1 },
    ];
    let init = regs([1, 2, 5, 0]);
    let trace = AluChip::generate_trace(&program, init).unwrap();
    let states = selector_air::alu::simulate(&program, init).unwrap();
    assert_eq!(trace.len(), 4);
    for i in 0..program.len() {
        assert_eq!(reg_values(&trace[i].regs), reg_values(&states[i]));
    }
    // r0 = 1 + 2, r1 = 5 - 3, r3 = 3 + 2, r2 = 5 - 2
    assert_eq!(reg_values(&states[4]), [3, 2, 3, 5]);
    let chip = AluChip;
    assert!(chip.check_trace(&trace));
}

#[test]
fn alu_opcode_selectors_in_columns() {
    let program = vec![AluInstruction { op: Opcode::SUB, dest: 1, src1: 2, src2: 0 }];
    let trace = AluChip::generate_trace(&program, regs([3, 2, 5, 0])).unwrap();
    let cols = alu_row_columns(&trace[0]);
    assert_eq!(cols.len(), 18);
    assert_eq!(cols[16], 0);
    assert_eq!(cols[17], 1);
}

#[test]
fn alu_rejects_out_of_range_operand() {
    let program = vec![AluInstruction { op: Opcode::ADD, dest: 0, src1: 4, src2: 0 }];
    let r = AluChip::generate_trace(&program, regs([0, 0, 0, 0]));
    assert_eq!(r.unwrap_err(), TraceError::InvalidOperand);
}

#[test]
fn alu_subtraction_wraps_in_the_field() {
    let program = vec![AluInstruction { op: Opcode::SUB, dest: 0, src1: 0, src2: 1 }];
    let states = selector_air::alu::simulate(&program, regs([3, 5, 0, 0])).unwrap();
    // 3 - 5 wraps to p - 2
    assert_eq!(reg_values(&states[1])[0], selector_air::field::FIELD_MODULUS - 2);
}

#[test]
fn fibonacci_trace_of_eight_rows() {
    let trace = FibonacciChip::generate_trace(8);
    assert_eq!(trace.len(), 8);
    assert_eq!(field_to_u64(trace[0].a), 0);
    assert_eq!(field_to_u64(trace[0].b), 1);
    for i in 0..7 {
        assert_eq!(field_to_u64(trace[i + 1].a), field_to_u64(trace[i].b));
        assert_eq!(
            field_to_u64(trace[i + 1].b),
            field_to_u64(trace[i].a) + field_to_u64(trace[i].b)
        );
    }
    let expected = [0u64, 1, 1, 2, 3, 5, 8, 13];
    for i in 0..8 {
        assert_eq!(field_to_u64(trace[i].a), expected[i]);
    }
    let chip = FibonacciChip;
    assert!(chip.check_trace(&trace));
}

#[test]
fn fibonacci_tampered_trace_fails_constraints() {
    let chip = FibonacciChip;
    let mut trace = FibonacciChip::generate_trace(8);
    trace[4].b = u64_to_field(100);
    assert!(!chip.check_trace(&trace));
}

#[test]
fn chip_widths() {
    assert_eq!(AdderChip.width(), 16);
    assert_eq!(AluChip.width(), 18);
    assert_eq!(FibonacciChip.width(), 2);
}
