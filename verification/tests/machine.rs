use mvm::machine::{ArithOp, FloatRequest, RunOutcome};
use mvm::Machine;
use mvm::{Data, Instruction, Program, RuntimeFault};

fn prog(instructions: Vec<Instruction>) -> Program {
    Program { instructions }
}

#[test]
fn subtract_order_is_first_pushed_minus_second() {
    let mut m = Machine::new(prog(vec![
        Instruction::PUSH(Data::NUMBER(5)),
        Instruction::PUSH(Data::NUMBER(3)),
        Instruction::MINUS,
    ]));
    assert_eq!(m.run(100), Ok(RunOutcome::Halted));
    assert_eq!(m.stack, vec![Data::NUMBER(2)]);
}

#[test]
fn add_order() {
    let mut m = Machine::new(prog(vec![
        Instruction::PUSH(Data::NUMBER(5)),
        Instruction::PUSH(Data::NUMBER(3)),
        Instruction::PLUS,
    ]));
    assert_eq!(m.run(100), Ok(RunOutcome::Halted));
    assert_eq!(m.stack, vec![Data::NUMBER(8)]);
}

#[test]
fn multiply() {
    let mut m = Machine::new(prog(vec![
        Instruction::PUSH(Data::NUMBER(6)),
        Instruction::PUSH(Data::NUMBER(7)),
        Instruction::MULT,
    ]));
    assert_eq!(m.run(100), Ok(RunOutcome::Halted));
    assert_eq!(m.stack, vec![Data::NUMBER(42)]);
}

#[test]
fn add_on_empty_stack_underflows() {
    let mut m = Machine::new(prog(vec![Instruction::PLUS]));
    assert_eq!(m.run(100), Err(RuntimeFault::StackUnderflow));
}

#[test]
fn add_on_one_value_underflows() {
    let mut m = Machine::new(prog(vec![
        Instruction::PUSH(Data::NUMBER(1)),
        Instruction::PLUS,
    ]));
    assert_eq!(m.run(100), Err(RuntimeFault::StackUnderflow));
}

#[test]
fn compare_on_one_value_underflows() {
    let mut m = Machine::new(prog(vec![
        Instruction::PUSH(Data::NUMBER(1)),
        Instruction::CMP,
    ]));
    assert_eq!(m.run(100), Err(RuntimeFault::StackUnderflow));
}

#[test]
fn add_int_and_float_mismatches() {
    let mut m = Machine::new(prog(vec![
        Instruction::PUSH(Data::NUMBER(1)),
        Instruction::PUSH(Data::FLOAT(2.5f32.to_bits())),
        Instruction::PLUS,
    ]));
    assert_eq!(m.run(100), Err(RuntimeFault::TypeMismatch));
}

#[test]
fn compare_int_and_float_mismatches() {
    let mut m = Machine::new(prog(vec![
        Instruction::PUSH(Data::NUMBER(1)),
        Instruction::PUSH(Data::FLOAT(2.5f32.to_bits())),
        Instruction::CMP,
    ]));
    assert_eq!(m.run(100), Err(RuntimeFault::TypeMismatch));
}

#[test]
fn compare_sets_flags_and_branches() {
    let mut m = Machine::new(prog(vec![
        Instruction::PUSH(Data::NUMBER(10)),
        Instruction::PUSH(Data::NUMBER(20)),
        Instruction::CMP,
    ]));
    assert_eq!(m.step(), Ok(None));
    assert_eq!(m.step(), Ok(None));
    assert_eq!(m.step(), Ok(None));
    assert!(m.flag_less());
    assert!(!m.flag_greater());
    assert!(!m.flag_equal());
    // The compare peeks: both operands stay.
    assert_eq!(m.stack, vec![Data::NUMBER(10), Data::NUMBER(20)]);

    // A jump-less branches to its raw target.
    let mut m2 = Machine::new(prog(vec![
        Instruction::PUSH(Data::NUMBER(10)),
        Instruction::PUSH(Data::NUMBER(20)),
        Instruction::CMP,
        Instruction::JL(0),
    ]));
    for _ in 0..4 {
        assert_eq!(m2.step(), Ok(None));
    }
    assert_eq!(m2.pointer(), 0);

    // A jump-greater-or-equal does not branch while less holds.
    let mut m3 = Machine::new(prog(vec![
        Instruction::PUSH(Data::NUMBER(10)),
        Instruction::PUSH(Data::NUMBER(20)),
        Instruction::CMP,
        Instruction::JGE(0),
    ]));
    for _ in 0..4 {
        assert_eq!(m3.step(), Ok(None));
    }
    assert_eq!(m3.pointer(), 4);
}

#[test]
fn compare_equal_flags() {
    let mut m = Machine::new(prog(vec![
        Instruction::PUSH(Data::NUMBER(7)),
        Instruction::PUSH(Data::NUMBER(7)),
        Instruction::CMP,
    ]));
    assert_eq!(m.run(100), Ok(RunOutcome::Halted));
    assert!(m.flag_equal());
    assert!(!m.flag_less());
    assert!(!m.flag_greater());
}

#[test]
fn jump_to_length_halts_normally() {
    // A jump whose target equals the length halts on the next fetch.
    let mut m = Machine::new(prog(vec![
        Instruction::NOP,
        Instruction::JUMP(2),
    ]));
    assert_eq!(m.run(100), Ok(RunOutcome::Halted));
    assert_eq!(m.pointer(), 2);
}

#[test]
fn jump_past_length_is_invalid_target() {
    let mut m = Machine::new(prog(vec![
        Instruction::NOP,
        Instruction::JUMP(3),
    ]));
    assert_eq!(m.run(100), Err(RuntimeFault::InvalidJumpTarget));
    assert_eq!(m.pointer(), 3);
}

#[test]
fn empty_program_halts_at_once() {
    let mut m = Machine::new(prog(vec![]));
    assert_eq!(m.run(0), Ok(RunOutcome::Halted));
    assert_eq!(m.pointer(), 0);
}

#[test]
fn unconditional_loop_runs_out_of_fuel() {
    let mut m = Machine::new(prog(vec![Instruction::JUMP(0)]));
    assert_eq!(m.run(1000), Ok(RunOutcome::OutOfFuel));
    assert_eq!(m.run(1000), Ok(RunOutcome::OutOfFuel));
}

#[test]
fn conditional_jumps_follow_flags() {
    // equal: JE taken, JNE not, JGE taken (not less), JLE taken (not greater)
    let mut m = Machine::new(prog(vec![
        Instruction::PUSH(Data::NUMBER(4)),
        Instruction::PUSH(Data::NUMBER(4)),
        Instruction::CMP,
        Instruction::JNE(9),
        Instruction::JE(6),
        Instruction::NOP,
        Instruction::JGE(8),
        Instruction::NOP,
        Instruction::JLE(9),
    ]));
    assert_eq!(m.run(100), Ok(RunOutcome::Halted));
    assert_eq!(m.pointer(), 9);
}

#[test]
fn greater_flag_and_jg() {
    let mut m = Machine::new(prog(vec![
        Instruction::PUSH(Data::NUMBER(9)),
        Instruction::PUSH(Data::NUMBER(2)),
        Instruction::CMP,
        Instruction::JG(5),
        Instruction::NOP,
    ]));
    assert_eq!(m.run(100), Ok(RunOutcome::Halted));
    assert!(m.flag_greater());
    assert_eq!(m.pointer(), 5);
}

#[test]
fn wrapping_integer_arithmetic() {
    let mut m = Machine::new(prog(vec![
        Instruction::PUSH(Data::NUMBER(u32::MAX)),
        Instruction::PUSH(Data::NUMBER(1)),
        Instruction::PLUS,
    ]));
    assert_eq!(m.run(100), Ok(RunOutcome::Halted));
    assert_eq!(m.stack, vec![Data::NUMBER(0)]);

    let mut m2 = Machine::new(prog(vec![
        Instruction::PUSH(Data::NUMBER(3)),
        Instruction::PUSH(Data::NUMBER(5)),
        Instruction::MINUS,
    ]));
    assert_eq!(m2.run(100), Ok(RunOutcome::Halted));
    assert_eq!(m2.stack, vec![Data::NUMBER(u32::MAX - 1)]);
}

#[test]
fn float_arithmetic_is_requested_and_supplied() {
    let a = 2.5f32;
    let b = 1.25f32;
    let mut m = Machine::new(prog(vec![
        Instruction::PUSH(Data::FLOAT(a.to_bits())),
        Instruction::PUSH(Data::FLOAT(b.to_bits())),
        Instruction::PLUS,
    ]));
    let req = match m.run(100) {
        Ok(RunOutcome::NeedFloat(req)) => req,
        other => panic!("expected a float request, got {:?}", other),
    };
    assert_eq!(
        req,
        FloatRequest {
            op: ArithOp::PLUS,
            lhs: a.to_bits(),
            rhs: b.to_bits(),
        }
    );
    let result = f32::from_bits(req.lhs) + f32::from_bits(req.rhs);
    m.supply_float(result.to_bits());
    assert_eq!(m.run(100), Ok(RunOutcome::Halted));
    assert_eq!(m.stack, vec![Data::FLOAT(3.75f32.to_bits())]);
}

#[test]
fn float_compare_follows_ieee_order() {
    let mut m = Machine::new(prog(vec![
        Instruction::PUSH(Data::FLOAT(1.5f32.to_bits())),
        Instruction::PUSH(Data::FLOAT(2.5f32.to_bits())),
        Instruction::CMP,
    ]));
    assert_eq!(m.run(100), Ok(RunOutcome::Halted));
    assert!(m.flag_less());
    assert!(!m.flag_greater());
    assert!(!m.flag_equal());
}

#[test]
fn float_compare_zeroes_equal() {
    let mut m = Machine::new(prog(vec![
        Instruction::PUSH(Data::FLOAT(0.0f32.to_bits())),
        Instruction::PUSH(Data::FLOAT((-0.0f32).to_bits())),
        Instruction::CMP,
    ]));
    assert_eq!(m.run(100), Ok(RunOutcome::Halted));
    assert!(m.flag_equal());
    assert!(!m.flag_less());
    assert!(!m.flag_greater());
}

#[test]
fn float_compare_nan_sets_no_flag() {
    let mut m = Machine::new(prog(vec![
        Instruction::PUSH(Data::FLOAT(f32::NAN.to_bits())),
        Instruction::PUSH(Data::FLOAT(1.0f32.to_bits())),
        Instruction::CMP,
    ]));
    assert_eq!(m.run(100), Ok(RunOutcome::Halted));
    assert!(!m.flag_equal());
    assert!(!m.flag_less());
    assert!(!m.flag_greater());
}

#[test]
fn float_compare_negative_order() {
    let mut m = Machine::new(prog(vec![
        Instruction::PUSH(Data::FLOAT((-1.5f32).to_bits())),
        Instruction::PUSH(Data::FLOAT((-2.5f32).to_bits())),
        Instruction::CMP,
    ]));
    assert_eq!(m.run(100), Ok(RunOutcome::Halted));
    assert!(m.flag_greater());
    assert!(!m.flag_less());
    assert!(!m.flag_equal());
}

#[test]
fn push_and_nop_advance() {
    let mut m = Machine::new(prog(vec![
        Instruction::NOP,
        Instruction::PUSH(Data::NUMBER(11)),
    ]));
    assert_eq!(m.step(), Ok(None));
    assert_eq!(m.pointer(), 1);
    assert_eq!(m.step(), Ok(None));
    assert_eq!(m.pointer(), 2);
    assert_eq!(m.stack, vec![Data::NUMBER(11)]);
    assert_eq!(m.program_len(), 2);
    assert_eq!(m.instruction_at(0), Instruction::NOP);
}
