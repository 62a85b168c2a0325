use mvm::assembler::{parseasm, AsmOutcome};
use mvm::codec::{bytes_to_program, program_to_bytes};
use mvm::machine::RunOutcome;
use mvm::Machine;
use mvm::{Data, Instruction};

#[test]
fn text_to_bytes_to_machine() {
    // Assemble, persist, reload, and run a countdown-free computation:
    // (5 - 3) * 10, then compare against 20 and branch.
    let src = "PUSH 5\nPUSH 3\nMINUS\nPUSH 10\nMULT\nPUSH 20\nCMP\nJL 9\nNOP\nNOP";
    let program = match parseasm(src, &[]).expect("parse") {
        AsmOutcome::Done(p) => p,
        AsmOutcome::NeedFloat(tok) => panic!("unexpected float token {:?}", tok),
    };
    let bytes = program_to_bytes(&program);
    let reloaded = bytes_to_program(&bytes).expect("decode");
    assert_eq!(reloaded.instructions, program.instructions);

    let mut m = Machine::new(reloaded);
    assert_eq!(m.run(1000), Ok(RunOutcome::Halted));
    // 20 (the pushed bound) on top of 20 (the product): equal, less unset,
    // so the jump-less fell through and both no-ops ran.
    assert_eq!(m.stack, vec![Data::NUMBER(20), Data::NUMBER(20)]);
    assert!(m.flag_equal());
    assert_eq!(m.pointer(), 10);
    assert_eq!(m.instruction_at(2), Instruction::MINUS);
}
