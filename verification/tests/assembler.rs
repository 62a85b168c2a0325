use mvm::assembler::{parseasm, AsmOutcome};
use mvm::{Data, Instruction, ParseError};

fn assemble(src: &str) -> Result<Vec<Instruction>, ParseError> {
    // The driver loop a caller runs: answer each handed-out float token
    // with the host float parser until the assembly finishes.
    let mut floats: Vec<Option<u32>> = Vec::new();
    loop {
        match parseasm(src, &floats)? {
            AsmOutcome::Done(p) => return Ok(p.instructions),
            AsmOutcome::NeedFloat(tok) => {
                let token: String = tok.into_iter().collect();
                floats.push(token.parse::<f32>().ok().map(f32::to_bits));
            }
        }
    }
}

#[test]
fn parses_a_small_program() {
    let p = assemble("PUSH 5\nPUSH 3\nPLUS").expect("parse");
    assert_eq!(
        p,
        vec![
            Instruction::PUSH(Data::NUMBER(5)),
            Instruction::PUSH(Data::NUMBER(3)),
            Instruction::PLUS,
        ]
    );
}

#[test]
fn parses_every_mnemonic() {
    let src = "NOP\nPUSH 1\nPLUS\nMINUS\nMULT\nCMP\nJUMP 0\nJE 1\nJNE 2\nJG 3\nJGE 4\nJL 5\nJLE 6";
    let p = assemble(src).expect("parse");
    assert_eq!(
        p,
        vec![
            Instruction::NOP,
            Instruction::PUSH(Data::NUMBER(1)),
            Instruction::PLUS,
            Instruction::MINUS,
            Instruction::MULT,
            Instruction::CMP,
            Instruction::JUMP(0),
            Instruction::JE(1),
            Instruction::JNE(2),
            Instruction::JG(3),
            Instruction::JGE(4),
            Instruction::JL(5),
            Instruction::JLE(6),
        ]
    );
}

#[test]
fn blank_line_is_missing_instruction() {
    assert_eq!(
        assemble("NOP\n\nNOP"),
        Err(ParseError::MissingInstruction)
    );
}

#[test]
fn whitespace_only_line_is_missing_instruction() {
    assert_eq!(assemble("NOP\n   \t \nNOP"), Err(ParseError::MissingInstruction));
}

#[test]
fn trailing_newline_is_accepted() {
    let p = assemble("NOP\n").expect("parse");
    assert_eq!(p, vec![Instruction::NOP]);
}

#[test]
fn unknown_mnemonic() {
    assert_eq!(assemble("HALT"), Err(ParseError::UnknownMnemonic));
    assert_eq!(assemble("nop"), Err(ParseError::UnknownMnemonic));
}

#[test]
fn push_without_operand_is_missing_operand() {
    assert_eq!(assemble("PUSH"), Err(ParseError::MissingOperand));
}

#[test]
fn jump_without_operand_is_missing_operand() {
    assert_eq!(assemble("JUMP"), Err(ParseError::MissingOperand));
}

#[test]
fn jump_with_bad_operand_is_invalid_operand() {
    assert_eq!(assemble("JUMP abc"), Err(ParseError::InvalidOperand));
    // A jump target is strictly an integer: a float literal is refused.
    assert_eq!(assemble("JUMP 1.5"), Err(ParseError::InvalidOperand));
}

#[test]
fn push_with_word_operand_is_not_a_number() {
    assert_eq!(
        assemble("PUSH abc"),
        Err(ParseError::NotANumber(vec!['a', 'b', 'c']))
    );
}

#[test]
fn push_float_literal_uses_handed_back_bits() {
    let p = assemble("PUSH 2.5").expect("parse");
    assert_eq!(p, vec![Instruction::PUSH(Data::FLOAT(2.5f32.to_bits()))]);
}

#[test]
fn push_integer_is_tried_before_float() {
    let p = assemble("PUSH 7").expect("parse");
    assert_eq!(p, vec![Instruction::PUSH(Data::NUMBER(7))]);
}

#[test]
fn push_overflowing_integer_falls_back_to_float() {
    // 4294967296 does not fit an unsigned 32-bit integer, so it is a float.
    let p = assemble("PUSH 4294967296").expect("parse");
    assert_eq!(
        p,
        vec![Instruction::PUSH(Data::FLOAT(4294967296.0f32.to_bits()))]
    );
}

#[test]
fn push_max_u32_stays_integer() {
    let p = assemble("PUSH 4294967295").expect("parse");
    assert_eq!(p, vec![Instruction::PUSH(Data::NUMBER(u32::MAX))]);
}

#[test]
fn leading_plus_parses_as_integer() {
    let p = assemble("PUSH +5").expect("parse");
    assert_eq!(p, vec![Instruction::PUSH(Data::NUMBER(5))]);
}

#[test]
fn extra_whitespace_between_tokens_is_ignored() {
    let p = assemble("  PUSH \t 5  ").expect("parse");
    assert_eq!(p, vec![Instruction::PUSH(Data::NUMBER(5))]);
}

#[test]
fn need_float_hands_out_the_token() {
    match parseasm("PUSH 1.5", &[]) {
        Ok(AsmOutcome::NeedFloat(tok)) => assert_eq!(tok, vec!['1', '.', '5']),
        other => panic!("expected a float request, got {:?}", other),
    }
}

#[test]
fn unicode_whitespace_separates_tokens() {
    // Any character of the Unicode White_Space property separates tokens,
    // as str::split_whitespace does: here a no-break space and a form feed.
    let p = assemble("PUSH\u{00A0}5").expect("parse");
    assert_eq!(p, vec![Instruction::PUSH(Data::NUMBER(5))]);
    let q = assemble("NOP\u{000C}").expect("parse");
    assert_eq!(q, vec![Instruction::NOP]);
}

#[test]
fn first_error_wins() {
    // The failing second line aborts the assembly before the third.
    assert_eq!(assemble("NOP\nBAD\nPUSH"), Err(ParseError::UnknownMnemonic));
}
