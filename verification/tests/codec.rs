use mvm::codec::{bytes_to_program, program_to_bytes, readu32};
use mvm::{Data, DecodeError, Instruction, Program};

fn all_kinds() -> Vec<Instruction> {
    vec![
        Instruction::NOP,
        Instruction::PUSH(Data::NUMBER(5)),
        Instruction::PUSH(Data::FLOAT(2.5f32.to_bits())),
        Instruction::PLUS,
        Instruction::MINUS,
        Instruction::MULT,
        Instruction::JUMP(7),
        Instruction::CMP,
        Instruction::JE(1),
        Instruction::JNE(2),
        Instruction::JG(3),
        Instruction::JGE(4),
        Instruction::JL(5),
        Instruction::JLE(6),
    ]
}

#[test]
fn round_trip_all_instruction_kinds() {
    let p = Program {
        instructions: all_kinds(),
    };
    let bytes = program_to_bytes(&p);
    let q = bytes_to_program(&bytes).expect("decode");
    assert_eq!(q.instructions, p.instructions);
}

#[test]
fn encoding_is_byte_exact() {
    let p = Program {
        instructions: vec![
            Instruction::PUSH(Data::NUMBER(5)),
            Instruction::JUMP(258),
            Instruction::NOP,
        ],
    };
    let bytes = program_to_bytes(&p);
    assert_eq!(bytes, vec![1, 5, 0, 0, 0, 6, 2, 1, 0, 0, 0]);
}

#[test]
fn payload_is_little_endian() {
    let p = Program {
        instructions: vec![Instruction::PUSH(Data::NUMBER(0x0403_0201))],
    };
    assert_eq!(program_to_bytes(&p), vec![1, 1, 2, 3, 4]);
}

#[test]
fn empty_program_encodes_to_no_bytes() {
    let p = Program {
        instructions: vec![],
    };
    assert_eq!(program_to_bytes(&p), Vec::<u8>::new());
    let q = bytes_to_program(&[]).expect("decode");
    assert_eq!(q.instructions, Vec::new());
}

#[test]
fn truncated_payload_is_reported() {
    // A push opcode followed by only three payload bytes.
    assert_eq!(
        bytes_to_program(&[1, 5, 0, 0]).unwrap_err(),
        DecodeError::TruncatedInput
    );
}

#[test]
fn unknown_opcode_is_reported_with_the_byte() {
    assert_eq!(
        bytes_to_program(&[0, 200]).unwrap_err(),
        DecodeError::UnknownOpcode(200)
    );
}

#[test]
fn readu32_reads_after_opcode_and_advances() {
    let bytes = [6u8, 0x78, 0x56, 0x34, 0x12, 99];
    let mut index = 0usize;
    assert_eq!(readu32(&bytes, &mut index), Ok(0x1234_5678));
    assert_eq!(index, 4);
}

#[test]
fn readu32_truncated() {
    let bytes = [6u8, 1, 2];
    let mut index = 0usize;
    assert_eq!(readu32(&bytes, &mut index), Err(DecodeError::TruncatedInput));
    assert_eq!(index, 0);
}

#[test]
fn float_payload_round_trips_bit_exactly() {
    let bits = (-3.5f32).to_bits();
    let p = Program {
        instructions: vec![Instruction::PUSH(Data::FLOAT(bits))],
    };
    let bytes = program_to_bytes(&p);
    let q = bytes_to_program(&bytes).expect("decode");
    assert_eq!(q.instructions, vec![Instruction::PUSH(Data::FLOAT(bits))]);
}
