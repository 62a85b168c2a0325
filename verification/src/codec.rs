//! The binary instruction codec: one opcode byte per instruction, followed
//! by exactly four payload bytes for the two push opcodes and the seven
//! jump opcodes.  Payloads are stored least-significant byte first, one
//! fixed order on every host.
use crate::{Data, DecodeError, Instruction, Program};
use vstd::prelude::*;

verus! {

pub const NOP: u8 = 0;

pub const PUSHU32: u8 = 1;

pub const PUSHF32: u8 = 2;

pub const PLUS: u8 = 3;

pub const MINUS: u8 = 4;

pub const MULT: u8 = 5;

pub const JUMP: u8 = 6;

pub const CMP: u8 = 7;

pub const JE: u8 = 8;

pub const JNE: u8 = 9;

pub const JG: u8 = 10;

pub const JGE: u8 = 11;

pub const JL: u8 = 12;

pub const JLE: u8 = 13;

/// The four bytes of `n`, least-significant first.
pub open spec fn le_bytes(n: u32) -> Seq<u8> {
    seq![
        (n % 256) as u8,
        ((n / 256) % 256) as u8,
        ((n / 65536) % 256) as u8,
        ((n / 16777216) % 256) as u8,
    ]
}

/// The integer held by four bytes, least-significant first.
pub open spec fn u32_of_le(b0: u8, b1: u8, b2: u8, b3: u8) -> u32 {
    (b0 + b1 * 256 + b2 * 65536 + b3 * 16777216) as u32
}

/// Reassembling the four bytes of an integer gives the integer back.
pub proof fn lemma_le_round_trip(n: u32)
    ensures
        u32_of_le(
            le_bytes(n)[0],
            le_bytes(n)[1],
            le_bytes(n)[2],
            le_bytes(n)[3],
        ) == n,
{
    assert(n % 256 + ((n / 256) % 256) * 256 + ((n / 65536) % 256) * 65536 + ((n / 16777216)
        % 256) * 16777216 == n) by (bit_vector);
}

/// The opcode byte of an instruction.
pub open spec fn opcode_of(i: Instruction) -> u8 {
    match i {
        Instruction::NOP => NOP,
        Instruction::PUSH(Data::NUMBER(_)) => PUSHU32,
        Instruction::PUSH(Data::FLOAT(_)) => PUSHF32,
        Instruction::PLUS => PLUS,
        Instruction::MINUS => MINUS,
        Instruction::MULT => MULT,
        Instruction::JUMP(_) => JUMP,
        Instruction::CMP => CMP,
        Instruction::JE(_) => JE,
        Instruction::JNE(_) => JNE,
        Instruction::JG(_) => JG,
        Instruction::JGE(_) => JGE,
        Instruction::JL(_) => JL,
        Instruction::JLE(_) => JLE,
    }
}

/// The four-byte payload of an instruction, if it carries one: the pushed
/// value's bit pattern, or the jump target.
pub open spec fn payload_of(i: Instruction) -> Option<u32> {
    match i {
        Instruction::PUSH(Data::NUMBER(n)) => Some(n),
        Instruction::PUSH(Data::FLOAT(n)) => Some(n),
        Instruction::JUMP(n) => Some(n),
        Instruction::JE(n) => Some(n),
        Instruction::JNE(n) => Some(n),
        Instruction::JG(n) => Some(n),
        Instruction::JGE(n) => Some(n),
        Instruction::JL(n) => Some(n),
        Instruction::JLE(n) => Some(n),
        _ => None,
    }
}

/// The encoding of one instruction.
pub open spec fn inst_bytes(i: Instruction) -> Seq<u8> {
    match payload_of(i) {
        Some(n) => seq![opcode_of(i)] + le_bytes(n),
        None => seq![opcode_of(i)],
    }
}

/// The encoding of a whole program: its instructions' encodings in order.
pub open spec fn program_bytes(insts: Seq<Instruction>) -> Seq<u8>
    decreases insts.len(),
{
    if insts.len() == 0 {
        Seq::empty()
    } else {
        inst_bytes(insts[0]) + program_bytes(insts.skip(1))
    }
}

/// Whether the opcode stands alone, with no payload.
pub open spec fn is_plain_op(op: u8) -> bool {
    op == NOP || op == PLUS || op == MINUS || op == MULT || op == CMP
}

/// Whether the opcode is followed by a four-byte payload.
pub open spec fn is_payload_op(op: u8) -> bool {
    op == PUSHU32 || op == PUSHF32 || op == JUMP || op == JE || op == JNE || op == JG || op == JGE
        || op == JL || op == JLE
}

/// The instruction of a payload-less opcode.
pub open spec fn plain_inst(op: u8) -> Instruction
    recommends
        is_plain_op(op),
{
    if op == NOP {
        Instruction::NOP
    } else if op == PLUS {
        Instruction::PLUS
    } else if op == MINUS {
        Instruction::MINUS
    } else if op == MULT {
        Instruction::MULT
    } else {
        Instruction::CMP
    }
}

/// The instruction of a payload-bearing opcode and its payload.
pub open spec fn payload_inst(op: u8, n: u32) -> Instruction
    recommends
        is_payload_op(op),
{
    if op == PUSHU32 {
        Instruction::PUSH(Data::NUMBER(n))
    } else if op == PUSHF32 {
        Instruction::PUSH(Data::FLOAT(n))
    } else if op == JUMP {
        Instruction::JUMP(n)
    } else if op == JE {
        Instruction::JE(n)
    } else if op == JNE {
        Instruction::JNE(n)
    } else if op == JG {
        Instruction::JG(n)
    } else if op == JGE {
        Instruction::JGE(n)
    } else if op == JL {
        Instruction::JL(n)
    } else {
        Instruction::JLE(n)
    }
}

/// An instruction prepended to a decode result, keeping any error.
pub open spec fn cons_result(i: Instruction, rest: Result<Seq<Instruction>, DecodeError>) -> Result<
    Seq<Instruction>,
    DecodeError,
> {
    match rest {
        Ok(t) => Ok(seq![i] + t),
        Err(e) => Err(e),
    }
}

/// The decoding of a byte stream, opcode by opcode: truncated where fewer
/// than four bytes follow a payload-bearing opcode, and an unknown-opcode
/// error on any byte outside the fourteen opcodes.
pub open spec fn decode_bytes(b: Seq<u8>) -> Result<Seq<Instruction>, DecodeError>
    decreases b.len(),
{
    if b.len() == 0 {
        Ok(Seq::empty())
    } else {
        let op = b[0];
        if is_plain_op(op) {
            cons_result(plain_inst(op), decode_bytes(b.skip(1)))
        } else if is_payload_op(op) {
            if b.len() < 5 {
                Err(DecodeError::TruncatedInput)
            } else {
                cons_result(
                    payload_inst(op, u32_of_le(b[1], b[2], b[3], b[4])),
                    decode_bytes(b.skip(5)),
                )
            }
        } else {
            Err(DecodeError::UnknownOpcode(op))
        }
    }
}

/// Decoding one instruction's encoding, followed by anything, yields that
/// instruction followed by the decoding of the rest.
pub proof fn lemma_decode_inst(i: Instruction, s: Seq<u8>)
    ensures
        decode_bytes(inst_bytes(i) + s) == cons_result(i, decode_bytes(s)),
{
    let b = inst_bytes(i) + s;
    match payload_of(i) {
        Some(n) => {
            lemma_le_round_trip(n);
            assert(b[0] == opcode_of(i));
            assert(b[1] == le_bytes(n)[0]);
            assert(b[2] == le_bytes(n)[1]);
            assert(b[3] == le_bytes(n)[2]);
            assert(b[4] == le_bytes(n)[3]);
            assert(payload_inst(opcode_of(i), n) == i);
            assert(b.skip(5) =~= s);
        },
        None => {
            assert(b[0] == opcode_of(i));
            assert(plain_inst(opcode_of(i)) == i);
            assert(b.skip(1) =~= s);
        },
    }
}

/// Decoding is the inverse of encoding: decoding the encoding of any
/// program reconstructs it instruction for instruction.
pub proof fn lemma_round_trip(insts: Seq<Instruction>)
    ensures
        decode_bytes(program_bytes(insts)) == Ok::<Seq<Instruction>, DecodeError>(insts),
    decreases insts.len(),
{
    if insts.len() == 0 {
        assert(decode_bytes(program_bytes(insts)) == Ok::<Seq<Instruction>, DecodeError>(
            Seq::empty(),
        ));
        assert(insts =~= Seq::<Instruction>::empty());
    } else {
        lemma_round_trip(insts.skip(1));
        lemma_decode_inst(insts[0], program_bytes(insts.skip(1)));
        assert(seq![insts[0]] + insts.skip(1) =~= insts);
    }
}

/// Append the four bytes of `n`, least-significant first.
fn push_le(bytes: &mut Vec<u8>, n: u32)
    ensures
        final(bytes)@ == old(bytes)@ + le_bytes(n),
{
    bytes.push((n % 256) as u8);
    bytes.push(((n / 256) % 256) as u8);
    bytes.push(((n / 65536) % 256) as u8);
    bytes.push(((n / 16777216) % 256) as u8);
    proof {
        assert(bytes@ =~= old(bytes)@ + le_bytes(n));
    }
}

/// The encodings of two instruction sequences concatenate.
pub proof fn lemma_program_bytes_concat(a: Seq<Instruction>, b: Seq<Instruction>)
    ensures
        program_bytes(a + b) == program_bytes(a) + program_bytes(b),
    decreases a.len(),
{
    if a.len() == 0 {
        assert(a + b =~= b);
        assert(program_bytes(a) + program_bytes(b) =~= program_bytes(b));
    } else {
        lemma_program_bytes_concat(a.skip(1), b);
        assert((a + b).skip(1) =~= a.skip(1) + b);
        assert(inst_bytes((a + b)[0]) + (program_bytes(a.skip(1)) + program_bytes(b))
            =~= (inst_bytes(a[0]) + program_bytes(a.skip(1))) + program_bytes(b));
    }
}

/// One more instruction extends the encoding by that instruction's bytes.
pub proof fn lemma_program_bytes_snoc(s: Seq<Instruction>, i: int)
    requires
        0 <= i < s.len(),
    ensures
        program_bytes(s.take(i + 1)) == program_bytes(s.take(i)) + inst_bytes(s[i]),
{
    lemma_program_bytes_concat(s.take(i), seq![s[i]]);
    assert(s.take(i) + seq![s[i]] =~= s.take(i + 1));
    let single = seq![s[i]];
    assert(single.skip(1) =~= Seq::<Instruction>::empty());
    assert(program_bytes(single.skip(1)) == Seq::<u8>::empty());
    assert(program_bytes(single) =~= inst_bytes(s[i]));
}

/// Encode a program into a flat byte stream, per [`program_bytes`].
/// Deterministic and total.
pub fn program_to_bytes(program: &Program) -> (r: Vec<u8>)
    ensures
        r@ == program_bytes(program.instructions@),
{
    let insts = &program.instructions;
    let mut bytes: Vec<u8> = Vec::new();
    let mut i: usize = 0;
    while i < insts.len()
        invariant
            i <= insts@.len(),
            bytes@ == program_bytes(insts@.take(i as int)),
        decreases insts@.len() - i,
    {
        let inst = insts[i];
        match inst {
            Instruction::NOP => bytes.push(NOP),
            Instruction::PUSH(d) => {
                match d {
                    Data::NUMBER(n) => {
                        bytes.push(PUSHU32);
                        push_le(&mut bytes, n);
                    },
                    Data::FLOAT(n) => {
                        bytes.push(PUSHF32);
                        push_le(&mut bytes, n);
                    },
                }
            },
            Instruction::PLUS => bytes.push(PLUS),
            Instruction::MINUS => bytes.push(MINUS),
            Instruction::MULT => bytes.push(MULT),
            Instruction::CMP => bytes.push(CMP),
            Instruction::JUMP(n) => {
                bytes.push(JUMP);
                push_le(&mut bytes, n);
            },
            Instruction::JE(n) => {
                bytes.push(JE);
                push_le(&mut bytes, n);
            },
            Instruction::JNE(n) => {
                bytes.push(JNE);
                push_le(&mut bytes, n);
            },
            Instruction::JG(n) => {
                bytes.push(JG);
                push_le(&mut bytes, n);
            },
            Instruction::JGE(n) => {
                bytes.push(JGE);
                push_le(&mut bytes, n);
            },
            Instruction::JL(n) => {
                bytes.push(JL);
                push_le(&mut bytes, n);
            },
            Instruction::JLE(n) => {
                bytes.push(JLE);
                push_le(&mut bytes, n);
            },
        }
        proof {
            lemma_program_bytes_snoc(insts@, i as int);
            assert(bytes@ =~= program_bytes(insts@.take(i as int)) + inst_bytes(
                insts@[i as int],
            ));
        }
        i = i + 1;
    }
    proof {
        assert(insts@.take(insts@.len() as int) =~= insts@);
    }
    bytes
}

/// Read the four payload bytes that follow the opcode at `*index`,
/// least-significant first, and advance `*index` past them; a
/// truncated-input error, and no movement, where fewer than four bytes
/// remain after the opcode.
pub fn readu32(bytes: &[u8], index: &mut usize) -> (r: Result<u32, DecodeError>)
    ensures
        *old(index) + 5 <= bytes@.len() ==> r == Ok::<u32, DecodeError>(
            u32_of_le(
                bytes@[*old(index) + 1],
                bytes@[*old(index) + 2],
                bytes@[*old(index) + 3],
                bytes@[*old(index) + 4],
            ),
        ) && *final(index) == *old(index) + 4,
        *old(index) + 5 > bytes@.len() ==> r == Err::<u32, DecodeError>(DecodeError::TruncatedInput)
            && *final(index) == *old(index),
{
    let i = *index;
    if bytes.len() >= 5 && i <= bytes.len() - 5 {
        let b0 = bytes[i + 1];
        let b1 = bytes[i + 2];
        let b2 = bytes[i + 3];
        let b3 = bytes[i + 4];
        let n: u32 = b0 as u32 + (b1 as u32) * 256 + (b2 as u32) * 65536 + (b3 as u32) * 16777216;
        *index = i + 4;
        Ok(n)
    } else {
        Err(DecodeError::TruncatedInput)
    }
}

/// Decode a flat byte stream into a program, per [`decode_bytes`].
pub fn bytes_to_program(bytes: &[u8]) -> (r: Result<Program, DecodeError>)
    ensures
        decode_bytes(bytes@) matches Ok(s) ==> r matches Ok(p) && p.instructions@ == s,
        decode_bytes(bytes@) matches Err(e) ==> r matches Err(e2) && e == e2,
{
    let mut instructions: Vec<Instruction> = Vec::new();
    let mut byteindex: usize = 0;
    proof {
        assert(bytes@.skip(0) =~= bytes@);
        match decode_bytes(bytes@) {
            Ok(t) => {
                assert(Seq::<Instruction>::empty() + t =~= t);
            },
            Err(_) => {},
        }
    }
    while byteindex < bytes.len()
        invariant
            byteindex <= bytes@.len(),
            decode_continues(bytes@, instructions@, bytes@.skip(byteindex as int)),
        decreases bytes@.len() - byteindex,
    {
        let ghost rest = bytes@.skip(byteindex as int);
        let op = bytes[byteindex];
        assert(rest[0] == op);
        if op == NOP || op == PLUS || op == MINUS || op == MULT || op == CMP {
            let inst = if op == NOP {
                Instruction::NOP
            } else if op == PLUS {
                Instruction::PLUS
            } else if op == MINUS {
                Instruction::MINUS
            } else if op == MULT {
                Instruction::MULT
            } else {
                Instruction::CMP
            };
            let ghost done = instructions@;
            instructions.push(inst);
            proof {
                assert(rest.skip(1) =~= bytes@.skip(byteindex + 1));
                lemma_continue(bytes@, done, inst, rest, 1);
            }
        } else if op == PUSHU32 || op == PUSHF32 || op == JUMP || op == JE || op == JNE || op == JG
            || op == JGE || op == JL || op == JLE {
            let ghost before = byteindex;
            let n = match readu32(bytes, &mut byteindex) {
                Ok(n) => n,
                Err(e) => {
                    proof {
                        assert(decode_bytes(rest) == Err::<Seq<Instruction>, DecodeError>(
                            DecodeError::TruncatedInput,
                        ));
                    }
                    return Err(e);
                },
            };
            let inst = if op == PUSHU32 {
                Instruction::PUSH(Data::NUMBER(n))
            } else if op == PUSHF32 {
                Instruction::PUSH(Data::FLOAT(n))
            } else if op == JUMP {
                Instruction::JUMP(n)
            } else if op == JE {
                Instruction::JE(n)
            } else if op == JNE {
                Instruction::JNE(n)
            } else if op == JG {
                Instruction::JG(n)
            } else if op == JGE {
                Instruction::JGE(n)
            } else if op == JL {
                Instruction::JL(n)
            } else {
                Instruction::JLE(n)
            };
            let ghost done = instructions@;
            instructions.push(inst);
            proof {
                assert(rest[1] == bytes@[before + 1]);
                assert(rest[2] == bytes@[before + 2]);
                assert(rest[3] == bytes@[before + 3]);
                assert(rest[4] == bytes@[before + 4]);
                assert(inst == payload_inst(op, u32_of_le(rest[1], rest[2], rest[3], rest[4])));
                assert(rest.skip(5) =~= bytes@.skip(before + 5));
                lemma_continue(bytes@, done, inst, rest, 5);
            }
        } else {
            proof {
                assert(decode_bytes(rest) == Err::<Seq<Instruction>, DecodeError>(
                    DecodeError::UnknownOpcode(op),
                ));
            }
            return Err(DecodeError::UnknownOpcode(op));
        }
        byteindex = byteindex + 1;
    }
    proof {
        assert(bytes@.skip(byteindex as int) =~= Seq::<u8>::empty());
        assert(instructions@ + Seq::<Instruction>::empty() =~= instructions@);
    }
    Ok(Program { instructions })
}

/// The loop invariant of [`bytes_to_program`]: decoding what remains,
/// appended to what is already decoded, agrees with decoding the whole.
pub open spec fn decode_continues(
    whole: Seq<u8>,
    done: Seq<Instruction>,
    rest: Seq<u8>,
) -> bool {
    match decode_bytes(rest) {
        Ok(t) => decode_bytes(whole) == Ok::<Seq<Instruction>, DecodeError>(done + t),
        Err(e) => decode_bytes(whole) == Err::<Seq<Instruction>, DecodeError>(e),
    }
}

/// One decoded instruction carries the invariant one opcode forward.
proof fn lemma_continue(
    whole: Seq<u8>,
    done: Seq<Instruction>,
    inst: Instruction,
    rest: Seq<u8>,
    consumed: int,
)
    requires
        decode_continues(whole, done, rest),
        decode_bytes(rest) == cons_result(inst, decode_bytes(rest.skip(consumed))),
    ensures
        decode_continues(whole, done.push(inst), rest.skip(consumed)),
{
    match decode_bytes(rest.skip(consumed)) {
        Ok(t) => {
            assert(done + (seq![inst] + t) =~= done.push(inst) + t);
        },
        Err(_) => {},
    }
}

} // verus!
