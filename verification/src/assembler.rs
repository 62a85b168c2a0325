//! The text assembler: a line-oriented surface syntax, one instruction per
//! line as whitespace-separated tokens — a mnemonic, optionally followed by
//! one numeric operand.
//!
//! A PUSH operand is tried as an unsigned 32-bit integer first and as a
//! 32-bit float second.  Converting a float literal to its bit pattern
//! needs floating-point hardware, so the assembler hands each such token
//! out to the caller: [`parseasm`] takes a slice of already-answered
//! conversions, and returns [`AsmOutcome::NeedFloat`] with the first token
//! whose answer is missing.  The caller appends the answer — `Some(bits)`
//! where the token is a float literal, `None` where it is not — and calls
//! again.  A program without float pushes assembles with an empty slice.
use crate::{Data, Instruction, ParseError, Program};
use vstd::prelude::*;

verus! {

/// Whitespace that separates tokens within a line: the characters of the
/// Unicode White_Space property, the set `char::is_whitespace` accepts.
pub open spec fn is_ws(c: char) -> bool {
    let u = c as u32;
    u == 0x09 || u == 0x0A || u == 0x0B || u == 0x0C || u == 0x0D || u == 0x20 || u == 0x85
        || u == 0xA0 || u == 0x1680 || (0x2000 <= u && u <= 0x200A) || u == 0x2028 || u == 0x2029
        || u == 0x202F || u == 0x205F || u == 0x3000
}

/// A decimal digit.
pub open spec fn is_digit(c: char) -> bool {
    48 <= c as u32 && c as u32 <= 57
}

/// The end of the whitespace run starting at `i`: the first index at or
/// after `i` holding a non-whitespace character, or the length.
pub open spec fn ws_end(s: Seq<char>, i: int) -> int
    decreases s.len() - i,
{
    if i < 0 || i >= s.len() {
        i
    } else if is_ws(s[i]) {
        ws_end(s, i + 1)
    } else {
        i
    }
}

/// The end of the token starting at `i`: the first index at or after `i`
/// holding a whitespace character, or the length.
pub open spec fn tok_end(s: Seq<char>, i: int) -> int
    decreases s.len() - i,
{
    if i < 0 || i >= s.len() {
        i
    } else if is_ws(s[i]) {
        i
    } else {
        tok_end(s, i + 1)
    }
}

/// Where the first token of a line starts.
pub open spec fn tok1_start(line: Seq<char>) -> int {
    ws_end(line, 0)
}

/// The first whitespace-delimited token of a line; empty on a blank line.
pub open spec fn tok1_of(line: Seq<char>) -> Seq<char> {
    line.subrange(tok1_start(line), tok_end(line, tok1_start(line)))
}

/// Where the second token of a line starts.
pub open spec fn tok2_start(line: Seq<char>) -> int {
    ws_end(line, tok_end(line, tok1_start(line)))
}

/// The second whitespace-delimited token of a line; empty if there is none.
pub open spec fn tok2_of(line: Seq<char>) -> Seq<char> {
    line.subrange(tok2_start(line), tok_end(line, tok2_start(line)))
}

/// The value of a digit string, most significant first.
pub open spec fn digits_val(t: Seq<char>) -> int
    decreases t.len(),
{
    if t.len() == 0 {
        0
    } else {
        digits_val(t.drop_last()) * 10 + (t.last() as u32 - 48)
    }
}

/// Whether every character of `t` is a decimal digit.
pub open spec fn all_digits(t: Seq<char>) -> bool {
    forall|k: int| 0 <= k < t.len() ==> is_digit(#[trigger] t[k])
}

/// The unsigned 32-bit integer a token denotes, if any: an optional `+`
/// sign, then one or more decimal digits whose value fits in 32 bits.
pub open spec fn parse_u32_tok(t: Seq<char>) -> Option<u32> {
    let body = if t.len() > 0 && t[0] == '+' {
        t.skip(1)
    } else {
        t
    };
    if body.len() > 0 && all_digits(body) && digits_val(body) <= u32::MAX {
        Some(digits_val(body) as u32)
    } else {
        None
    }
}

/// A digit string's value is never negative.
pub proof fn lemma_digits_val_nonneg(t: Seq<char>)
    requires
        all_digits(t),
    ensures
        digits_val(t) >= 0,
    decreases t.len(),
{
    if t.len() > 0 {
        assert(all_digits(t.drop_last())) by {
            assert(forall|k: int| 0 <= k < t.len() - 1 ==> t.drop_last()[k] == t[k]);
        }
        lemma_digits_val_nonneg(t.drop_last());
    }
}

/// Whitespace predicate, computed.
fn is_space_c(c: char) -> (r: bool)
    ensures
        r == is_ws(c),
{
    let u = c as u32;
    u == 0x09 || u == 0x0A || u == 0x0B || u == 0x0C || u == 0x0D || u == 0x20 || u == 0x85
        || u == 0xA0 || u == 0x1680 || (0x2000 <= u && u <= 0x200A) || u == 0x2028 || u == 0x2029
        || u == 0x202F || u == 0x205F || u == 0x3000
}

/// Digit predicate, computed.
fn is_digit_c(c: char) -> (r: bool)
    ensures
        r == is_digit(c),
{
    let u = c as u32;
    48 <= u && u <= 57
}

/// Parse the token at `line[s..e]` as an unsigned 32-bit integer, per
/// [`parse_u32_tok`].
fn parse_u32_token(line: &Vec<char>, s: usize, e: usize) -> (r: Option<u32>)
    requires
        s <= e <= line@.len(),
    ensures
        r == parse_u32_tok(line@.subrange(s as int, e as int)),
{
    let ghost t = line@.subrange(s as int, e as int);
    if s == e {
        return None;
    }
    let mut i = s;
    if line[i] == '+' {
        i = i + 1;
    }
    let bs = i;
    let ghost body = line@.subrange(bs as int, e as int);
    proof {
        if t[0] == '+' {
            assert(body =~= t.skip(1));
        } else {
            assert(body =~= t);
        }
    }
    if i == e {
        return None;
    }
    let mut acc: u64 = 0;
    let mut over: bool = false;
    while i < e
        invariant
            s <= bs <= i <= e <= line@.len(),
            t == line@.subrange(s as int, e as int),
            body == line@.subrange(bs as int, e as int),
            body == (if t.len() > 0 && t[0] == '+' {
                t.skip(1)
            } else {
                t
            }),
            all_digits(body.take(i - bs)),
            !over ==> acc == digits_val(body.take(i - bs)) && acc <= u32::MAX,
            over ==> digits_val(body.take(i - bs)) > u32::MAX,
        decreases e - i,
    {
        let c = line[i];
        let ghost k: int = i - bs;
        if !is_digit_c(c) {
            proof {
                assert(body[k] == c);
                assert(!all_digits(body));
                assert(parse_u32_tok(t) is None);
            }
            return None;
        }
        let d: u32 = (c as u32) - 48;
        proof {
            assert(body.take(k + 1).drop_last() =~= body.take(k));
            assert(body.take(k + 1).last() == body[k]);
            assert(digits_val(body.take(k + 1)) == digits_val(body.take(k)) * 10 + d);
            if over {
                lemma_digits_val_nonneg(body.take(k));
            }
        }
        if !over {
            let acc10: u64 = acc * 10 + d as u64;
            if acc10 > 0xFFFF_FFFFu64 {
                over = true;
            } else {
                acc = acc10;
            }
        }
        i = i + 1;
    }
    proof {
        assert(body.take(e - bs) =~= body);
    }
    if over {
        None
    } else {
        Some(acc as u32)
    }
}

/// The mnemonic of the no-op instruction.
pub open spec fn m_nop() -> Seq<char> {
    seq!['N', 'O', 'P']
}

/// The mnemonic of the push instruction.
pub open spec fn m_push() -> Seq<char> {
    seq!['P', 'U', 'S', 'H']
}

/// The mnemonic of the add instruction.
pub open spec fn m_plus() -> Seq<char> {
    seq!['P', 'L', 'U', 'S']
}

/// The mnemonic of the subtract instruction.
pub open spec fn m_minus() -> Seq<char> {
    seq!['M', 'I', 'N', 'U', 'S']
}

/// The mnemonic of the multiply instruction.
pub open spec fn m_mult() -> Seq<char> {
    seq!['M', 'U', 'L', 'T']
}

/// The mnemonic of the compare instruction.
pub open spec fn m_cmp() -> Seq<char> {
    seq!['C', 'M', 'P']
}

/// The mnemonic of the unconditional jump.
pub open spec fn m_jump() -> Seq<char> {
    seq!['J', 'U', 'M', 'P']
}

/// The mnemonic of jump-if-equal.
pub open spec fn m_je() -> Seq<char> {
    seq!['J', 'E']
}

/// The mnemonic of jump-if-not-equal.
pub open spec fn m_jne() -> Seq<char> {
    seq!['J', 'N', 'E']
}

/// The mnemonic of jump-if-greater.
pub open spec fn m_jg() -> Seq<char> {
    seq!['J', 'G']
}

/// The mnemonic of jump-if-greater-or-equal.
pub open spec fn m_jge() -> Seq<char> {
    seq!['J', 'G', 'E']
}

/// The mnemonic of jump-if-less.
pub open spec fn m_jl() -> Seq<char> {
    seq!['J', 'L']
}

/// The mnemonic of jump-if-less-or-equal.
pub open spec fn m_jle() -> Seq<char> {
    seq!['J', 'L', 'E']
}

/// The mathematical shape of a [`ParseError`]: the token of a
/// `NotANumber` as a character sequence.
pub ghost enum ParseFault {
    MissingInstruction,
    UnknownMnemonic,
    MissingOperand,
    InvalidOperand,
    NotANumber(Seq<char>),
}

impl View for ParseError {
    type V = ParseFault;

    open spec fn view(&self) -> ParseFault {
        match self {
            ParseError::MissingInstruction => ParseFault::MissingInstruction,
            ParseError::UnknownMnemonic => ParseFault::UnknownMnemonic,
            ParseError::MissingOperand => ParseFault::MissingOperand,
            ParseError::InvalidOperand => ParseFault::InvalidOperand,
            ParseError::NotANumber(v) => ParseFault::NotANumber(v@),
        }
    }
}

/// What one line yields: an instruction (and how many float answers it
/// consumed), a float token whose answer is missing, or an error.
pub ghost enum LineRes {
    Inst(Instruction, int),
    Need(Seq<char>),
    Fail(ParseFault),
}

/// A jump operand: owed, strictly an unsigned 32-bit integer.
pub open spec fn jump_arg(t2: Seq<char>) -> Result<u32, ParseFault> {
    if t2.len() == 0 {
        Err(ParseFault::MissingOperand)
    } else {
        match parse_u32_tok(t2) {
            Some(n) => Ok(n),
            None => Err(ParseFault::InvalidOperand),
        }
    }
}

/// The parse of one line against the remaining float answers `floats`:
/// an empty line is an error, the first token must be one of the thirteen
/// mnemonics, a PUSH operand is tried as an integer and then handed out as
/// a float token, and any tokens after the expected ones are ignored.
pub open spec fn parse_one(line: Seq<char>, floats: Seq<Option<u32>>) -> LineRes {
    let t1 = tok1_of(line);
    let t2 = tok2_of(line);
    if t1.len() == 0 {
        LineRes::Fail(ParseFault::MissingInstruction)
    } else if t1 == m_nop() {
        LineRes::Inst(Instruction::NOP, 0)
    } else if t1 == m_push() {
        if t2.len() == 0 {
            LineRes::Fail(ParseFault::MissingOperand)
        } else {
            match parse_u32_tok(t2) {
                Some(n) => LineRes::Inst(Instruction::PUSH(Data::NUMBER(n)), 0),
                None => if floats.len() == 0 {
                    LineRes::Need(t2)
                } else {
                    match floats[0] {
                        Some(bits) => LineRes::Inst(Instruction::PUSH(Data::FLOAT(bits)), 1),
                        None => LineRes::Fail(ParseFault::NotANumber(t2)),
                    }
                },
            }
        }
    } else if t1 == m_plus() {
        LineRes::Inst(Instruction::PLUS, 0)
    } else if t1 == m_minus() {
        LineRes::Inst(Instruction::MINUS, 0)
    } else if t1 == m_mult() {
        LineRes::Inst(Instruction::MULT, 0)
    } else if t1 == m_cmp() {
        LineRes::Inst(Instruction::CMP, 0)
    } else if t1 == m_jump() {
        match jump_arg(t2) {
            Ok(n) => LineRes::Inst(Instruction::JUMP(n), 0),
            Err(e) => LineRes::Fail(e),
        }
    } else if t1 == m_je() {
        match jump_arg(t2) {
            Ok(n) => LineRes::Inst(Instruction::JE(n), 0),
            Err(e) => LineRes::Fail(e),
        }
    } else if t1 == m_jne() {
        match jump_arg(t2) {
            Ok(n) => LineRes::Inst(Instruction::JNE(n), 0),
            Err(e) => LineRes::Fail(e),
        }
    } else if t1 == m_jg() {
        match jump_arg(t2) {
            Ok(n) => LineRes::Inst(Instruction::JG(n), 0),
            Err(e) => LineRes::Fail(e),
        }
    } else if t1 == m_jge() {
        match jump_arg(t2) {
            Ok(n) => LineRes::Inst(Instruction::JGE(n), 0),
            Err(e) => LineRes::Fail(e),
        }
    } else if t1 == m_jl() {
        match jump_arg(t2) {
            Ok(n) => LineRes::Inst(Instruction::JL(n), 0),
            Err(e) => LineRes::Fail(e),
        }
    } else if t1 == m_jle() {
        match jump_arg(t2) {
            Ok(n) => LineRes::Inst(Instruction::JLE(n), 0),
            Err(e) => LineRes::Fail(e),
        }
    } else {
        LineRes::Fail(ParseFault::UnknownMnemonic)
    }
}

/// Equality of a token with a two-character mnemonic.
fn tok_eq2(line: &Vec<char>, s: usize, e: usize, c0: char, c1: char) -> (r: bool)
    requires
        s <= e <= line@.len(),
    ensures
        r == (line@.subrange(s as int, e as int) == seq![c0, c1]),
{
    if e - s != 2 {
        proof {
            assert(line@.subrange(s as int, e as int).len() != seq![c0, c1].len());
        }
        return false;
    }
    if line[s] != c0 {
        proof {
            assert(line@.subrange(s as int, e as int)[0] == line@[s as int]);
        }
        return false;
    }
    if line[s + 1] != c1 {
        proof {
            assert(line@.subrange(s as int, e as int)[1] == line@[s as int + 1]);
        }
        return false;
    }
    proof {
        assert(line@.subrange(s as int, e as int) =~= seq![c0, c1]);
    }
    true
}

/// Equality of a token with a three-character mnemonic.
fn tok_eq3(line: &Vec<char>, s: usize, e: usize, c0: char, c1: char, c2: char) -> (r: bool)
    requires
        s <= e <= line@.len(),
    ensures
        r == (line@.subrange(s as int, e as int) == seq![c0, c1, c2]),
{
    if e - s != 3 {
        proof {
            assert(line@.subrange(s as int, e as int).len() != seq![c0, c1, c2].len());
        }
        return false;
    }
    if line[s] != c0 {
        proof {
            assert(line@.subrange(s as int, e as int)[0] == line@[s as int + 0]);
        }
        return false;
    }
    if line[s + 1] != c1 {
        proof {
            assert(line@.subrange(s as int, e as int)[1] == line@[s as int + 1]);
        }
        return false;
    }
    if line[s + 2] != c2 {
        proof {
            assert(line@.subrange(s as int, e as int)[2] == line@[s as int + 2]);
        }
        return false;
    }
    proof {
        assert(line@.subrange(s as int, e as int) =~= seq![c0, c1, c2]);
    }
    true
}

/// Equality of a token with a four-character mnemonic.
fn tok_eq4(line: &Vec<char>, s: usize, e: usize, c0: char, c1: char, c2: char, c3: char) -> (r:
    bool)
    requires
        s <= e <= line@.len(),
    ensures
        r == (line@.subrange(s as int, e as int) == seq![c0, c1, c2, c3]),
{
    if e - s != 4 {
        proof {
            assert(line@.subrange(s as int, e as int).len() != seq![c0, c1, c2, c3].len());
        }
        return false;
    }
    if line[s] != c0 {
        proof {
            assert(line@.subrange(s as int, e as int)[0] == line@[s as int + 0]);
        }
        return false;
    }
    if line[s + 1] != c1 {
        proof {
            assert(line@.subrange(s as int, e as int)[1] == line@[s as int + 1]);
        }
        return false;
    }
    if line[s + 2] != c2 {
        proof {
            assert(line@.subrange(s as int, e as int)[2] == line@[s as int + 2]);
        }
        return false;
    }
    if line[s + 3] != c3 {
        proof {
            assert(line@.subrange(s as int, e as int)[3] == line@[s as int + 3]);
        }
        return false;
    }
    proof {
        assert(line@.subrange(s as int, e as int) =~= seq![c0, c1, c2, c3]);
    }
    true
}

/// Equality of a token with a five-character mnemonic.
fn tok_eq5(
    line: &Vec<char>,
    s: usize,
    e: usize,
    c0: char,
    c1: char,
    c2: char,
    c3: char,
    c4: char,
) -> (r: bool)
    requires
        s <= e <= line@.len(),
    ensures
        r == (line@.subrange(s as int, e as int) == seq![c0, c1, c2, c3, c4]),
{
    if e - s != 5 {
        proof {
            assert(line@.subrange(s as int, e as int).len() != seq![c0, c1, c2, c3, c4].len());
        }
        return false;
    }
    if line[s] != c0 {
        proof {
            assert(line@.subrange(s as int, e as int)[0] == line@[s as int + 0]);
        }
        return false;
    }
    if line[s + 1] != c1 {
        proof {
            assert(line@.subrange(s as int, e as int)[1] == line@[s as int + 1]);
        }
        return false;
    }
    if line[s + 2] != c2 {
        proof {
            assert(line@.subrange(s as int, e as int)[2] == line@[s as int + 2]);
        }
        return false;
    }
    if line[s + 3] != c3 {
        proof {
            assert(line@.subrange(s as int, e as int)[3] == line@[s as int + 3]);
        }
        return false;
    }
    if line[s + 4] != c4 {
        proof {
            assert(line@.subrange(s as int, e as int)[4] == line@[s as int + 4]);
        }
        return false;
    }
    proof {
        assert(line@.subrange(s as int, e as int) =~= seq![c0, c1, c2, c3, c4]);
    }
    true
}

/// A copy of `line[s..e]`.
fn copy_range(line: &Vec<char>, s: usize, e: usize) -> (r: Vec<char>)
    requires
        s <= e <= line@.len(),
    ensures
        r@ == line@.subrange(s as int, e as int),
{
    let mut out: Vec<char> = Vec::new();
    let mut k = s;
    while k < e
        invariant
            s <= k <= e <= line@.len(),
            out@ == line@.subrange(s as int, k as int),
        decreases e - k,
    {
        out.push(line[k]);
        proof {
            assert(out@ =~= line@.subrange(s as int, k + 1));
        }
        k = k + 1;
    }
    out
}

/// What one line yielded, computed.
enum LineOutcome {
    Inst(Instruction, bool),
    Need(Vec<char>),
    Fail(ParseError),
}

/// Parse the jump operand at `line[s..e]`, per [`jump_arg`].
fn jump_arg_exec(line: &Vec<char>, s: usize, e: usize) -> (r: Result<u32, ParseError>)
    requires
        s <= e <= line@.len(),
    ensures
        jump_arg(line@.subrange(s as int, e as int)) matches Ok(n) ==> r == Ok::<u32, ParseError>(
            n,
        ),
        jump_arg(line@.subrange(s as int, e as int)) matches Err(f) ==> r matches Err(err)
            && err@ == f,
{
    if s == e {
        return Err(ParseError::MissingOperand);
    }
    match parse_u32_token(line, s, e) {
        Some(n) => Ok(n),
        None => Err(ParseError::InvalidOperand),
    }
}

/// Parse one line against the float answers `floats[fidx..]`, per
/// [`parse_one`].
fn parse_line(line: &Vec<char>, floats: &[Option<u32>], fidx: usize) -> (r: LineOutcome)
    requires
        fidx <= floats@.len(),
    ensures
        r matches LineOutcome::Inst(i2, u2) ==> parse_one(line@, floats@.skip(fidx as int))
            == LineRes::Inst(i2, (if u2 {
            1int
        } else {
            0int
        })),
        r matches LineOutcome::Need(v) ==> parse_one(line@, floats@.skip(fidx as int))
            == LineRes::Need(v@),
        r matches LineOutcome::Fail(e) ==> parse_one(line@, floats@.skip(fidx as int))
            == LineRes::Fail(e@),
{
    let n = line.len();
    let mut i: usize = 0;
    while i < n && is_space_c(line[i])
        invariant
            i <= n == line@.len(),
            ws_end(line@, 0) == ws_end(line@, i as int),
        decreases n - i,
    {
        i = i + 1;
    }
    let t1s = i;
    while i < n && !is_space_c(line[i])
        invariant
            t1s <= i <= n == line@.len(),
            tok_end(line@, t1s as int) == tok_end(line@, i as int),
        decreases n - i,
    {
        i = i + 1;
    }
    let t1e = i;
    while i < n && is_space_c(line[i])
        invariant
            t1e <= i <= n == line@.len(),
            ws_end(line@, t1e as int) == ws_end(line@, i as int),
        decreases n - i,
    {
        i = i + 1;
    }
    let t2s = i;
    while i < n && !is_space_c(line[i])
        invariant
            t2s <= i <= n == line@.len(),
            tok_end(line@, t2s as int) == tok_end(line@, i as int),
        decreases n - i,
    {
        i = i + 1;
    }
    let t2e = i;
    proof {
        assert(tok1_start(line@) == t1s);
        assert(tok_end(line@, t1s as int) == t1e);
        assert(tok2_start(line@) == t2s);
        assert(tok_end(line@, t2s as int) == t2e);
        assert(tok1_of(line@) == line@.subrange(t1s as int, t1e as int));
        assert(tok2_of(line@) == line@.subrange(t2s as int, t2e as int));
    }
    if t1e == t1s {
        proof {
            assert(tok1_of(line@).len() == 0);
        }
        return LineOutcome::Fail(ParseError::MissingInstruction);
    }
    if tok_eq3(line, t1s, t1e, 'N', 'O', 'P') {
        LineOutcome::Inst(Instruction::NOP, false)
    } else if tok_eq4(line, t1s, t1e, 'P', 'U', 'S', 'H') {
        if t2e == t2s {
            return LineOutcome::Fail(ParseError::MissingOperand);
        }
        match parse_u32_token(line, t2s, t2e) {
            Some(v) => LineOutcome::Inst(Instruction::PUSH(Data::NUMBER(v)), false),
            None => {
                if fidx >= floats.len() {
                    LineOutcome::Need(copy_range(line, t2s, t2e))
                } else {
                    match floats[fidx] {
                        Some(bits) => LineOutcome::Inst(
                            Instruction::PUSH(Data::FLOAT(bits)),
                            true,
                        ),
                        None => LineOutcome::Fail(
                            ParseError::NotANumber(copy_range(line, t2s, t2e)),
                        ),
                    }
                }
            },
        }
    } else if tok_eq4(line, t1s, t1e, 'P', 'L', 'U', 'S') {
        LineOutcome::Inst(Instruction::PLUS, false)
    } else if tok_eq5(line, t1s, t1e, 'M', 'I', 'N', 'U', 'S') {
        LineOutcome::Inst(Instruction::MINUS, false)
    } else if tok_eq4(line, t1s, t1e, 'M', 'U', 'L', 'T') {
        LineOutcome::Inst(Instruction::MULT, false)
    } else if tok_eq3(line, t1s, t1e, 'C', 'M', 'P') {
        LineOutcome::Inst(Instruction::CMP, false)
    } else if tok_eq4(line, t1s, t1e, 'J', 'U', 'M', 'P') {
        match jump_arg_exec(line, t2s, t2e) {
            Ok(v) => LineOutcome::Inst(Instruction::JUMP(v), false),
            Err(e) => LineOutcome::Fail(e),
        }
    } else if tok_eq2(line, t1s, t1e, 'J', 'E') {
        match jump_arg_exec(line, t2s, t2e) {
            Ok(v) => LineOutcome::Inst(Instruction::JE(v), false),
            Err(e) => LineOutcome::Fail(e),
        }
    } else if tok_eq3(line, t1s, t1e, 'J', 'N', 'E') {
        match jump_arg_exec(line, t2s, t2e) {
            Ok(v) => LineOutcome::Inst(Instruction::JNE(v), false),
            Err(e) => LineOutcome::Fail(e),
        }
    } else if tok_eq2(line, t1s, t1e, 'J', 'G') {
        match jump_arg_exec(line, t2s, t2e) {
            Ok(v) => LineOutcome::Inst(Instruction::JG(v), false),
            Err(e) => LineOutcome::Fail(e),
        }
    } else if tok_eq3(line, t1s, t1e, 'J', 'G', 'E') {
        match jump_arg_exec(line, t2s, t2e) {
            Ok(v) => LineOutcome::Inst(Instruction::JGE(v), false),
            Err(e) => LineOutcome::Fail(e),
        }
    } else if tok_eq2(line, t1s, t1e, 'J', 'L') {
        match jump_arg_exec(line, t2s, t2e) {
            Ok(v) => LineOutcome::Inst(Instruction::JL(v), false),
            Err(e) => LineOutcome::Fail(e),
        }
    } else if tok_eq3(line, t1s, t1e, 'J', 'L', 'E') {
        match jump_arg_exec(line, t2s, t2e) {
            Ok(v) => LineOutcome::Inst(Instruction::JLE(v), false),
            Err(e) => LineOutcome::Fail(e),
        }
    } else {
        LineOutcome::Fail(ParseError::UnknownMnemonic)
    }
}

/// The end of the line starting at `i`: the first index at or after `i`
/// holding a newline, or the length.
pub open spec fn nl_end(s: Seq<char>, i: int) -> int
    decreases s.len() - i,
{
    if i < 0 || i >= s.len() {
        i
    } else if s[i] == '\n' {
        i
    } else {
        nl_end(s, i + 1)
    }
}

/// `nl_end` stays within the text.
pub proof fn lemma_nl_bounds(s: Seq<char>, i: int)
    requires
        0 <= i <= s.len(),
    ensures
        i <= nl_end(s, i) <= s.len(),
    decreases s.len() - i,
{
    if i < s.len() {
        lemma_nl_bounds(s, i + 1);
    }
}

/// The lines of a text, split on newlines; empty text has no lines, and a
/// trailing newline ends the last line rather than opening a new one.
pub open spec fn split_lines(s: Seq<char>) -> Seq<Seq<char>>
    decreases s.len(),
    via split_lines_dec
{
    if s.len() == 0 {
        Seq::empty()
    } else {
        let e = nl_end(s, 0);
        let line = s.take(e);
        if e == s.len() {
            seq![line]
        } else {
            seq![line] + split_lines(s.skip(e + 1))
        }
    }
}

#[via_fn]
proof fn split_lines_dec(s: Seq<char>) {
    if s.len() > 0 {
        lemma_nl_bounds(s, 0);
    }
}

/// Where a parse of many lines stands: finished, or waiting for the answer
/// to a float token.
pub ghost enum AsmStatus {
    Done(Seq<Instruction>),
    NeedFloat(Seq<char>),
}

/// The parse of a sequence of lines against the float answers `floats`,
/// line by line, each line consuming the answers its tokens needed.  The
/// first failing line's error is the whole parse's error.
pub open spec fn parse_lines(lines: Seq<Seq<char>>, floats: Seq<Option<u32>>) -> Result<
    AsmStatus,
    ParseFault,
>
    decreases lines.len(),
{
    if lines.len() == 0 {
        Ok(AsmStatus::Done(Seq::empty()))
    } else {
        match parse_one(lines[0], floats) {
            LineRes::Inst(inst, used) => match parse_lines(lines.skip(1), floats.skip(used)) {
                Ok(AsmStatus::Done(t)) => Ok(AsmStatus::Done(seq![inst] + t)),
                other => other,
            },
            LineRes::Need(tok) => Ok(AsmStatus::NeedFloat(tok)),
            LineRes::Fail(e) => Err(e),
        }
    }
}

/// The parse of a whole text against the float answers `floats`.
pub open spec fn parse_text(text: Seq<char>, floats: Seq<Option<u32>>) -> Result<
    AsmStatus,
    ParseFault,
> {
    parse_lines(split_lines(text), floats)
}

/// The loop invariant of [`parseasm`]: parsing the remaining text with the
/// remaining float answers, appended to what is already parsed, agrees
/// with the whole parse `w`.
pub open spec fn parse_continues(
    w: Result<AsmStatus, ParseFault>,
    done: Seq<Instruction>,
    text: Seq<char>,
    floats: Seq<Option<u32>>,
) -> bool {
    match parse_lines(split_lines(text), floats) {
        Ok(AsmStatus::Done(t)) => w == Ok::<AsmStatus, ParseFault>(AsmStatus::Done(done + t)),
        Ok(AsmStatus::NeedFloat(tok)) => w == Ok::<AsmStatus, ParseFault>(
            AsmStatus::NeedFloat(tok),
        ),
        Err(e) => w == Err::<AsmStatus, ParseFault>(e),
    }
}

/// One parsed line carries the invariant to the next line.
proof fn lemma_parse_step(
    w: Result<AsmStatus, ParseFault>,
    done: Seq<Instruction>,
    text: Seq<char>,
    floats: Seq<Option<u32>>,
    inst: Instruction,
    used: int,
    text2: Seq<char>,
)
    requires
        text.len() > 0,
        parse_continues(w, done, text, floats),
        parse_one(text.take(nl_end(text, 0)), floats) == LineRes::Inst(inst, used),
        text2 == (if nl_end(text, 0) == text.len() {
            Seq::<char>::empty()
        } else {
            text.skip(nl_end(text, 0) + 1)
        }),
    ensures
        parse_continues(w, done.push(inst), text2, floats.skip(used)),
{
    lemma_nl_bounds(text, 0);
    let e = nl_end(text, 0);
    let lines = split_lines(text);
    if e == text.len() {
        assert(lines == seq![text.take(e)]);
        assert(lines.skip(1) =~= split_lines(text2));
    } else {
        assert(lines == seq![text.take(e)] + split_lines(text.skip(e + 1)));
        assert(lines.skip(1) =~= split_lines(text2));
    }
    assert(lines[0] == text.take(e));
    match parse_lines(lines.skip(1), floats.skip(used)) {
        Ok(AsmStatus::Done(t)) => {
            assert(done + (seq![inst] + t) =~= done.push(inst) + t);
        },
        _ => {},
    }
}

/// A failing line settles the whole parse.
proof fn lemma_parse_fail(
    w: Result<AsmStatus, ParseFault>,
    done: Seq<Instruction>,
    text: Seq<char>,
    floats: Seq<Option<u32>>,
    err: ParseFault,
)
    requires
        text.len() > 0,
        parse_continues(w, done, text, floats),
        parse_one(text.take(nl_end(text, 0)), floats) == LineRes::Fail(err),
    ensures
        w == Err::<AsmStatus, ParseFault>(err),
{
    lemma_nl_bounds(text, 0);
    assert(split_lines(text)[0] == text.take(nl_end(text, 0)));
}

/// A line waiting for a float answer settles the whole parse.
proof fn lemma_parse_need(
    w: Result<AsmStatus, ParseFault>,
    done: Seq<Instruction>,
    text: Seq<char>,
    floats: Seq<Option<u32>>,
    tok: Seq<char>,
)
    requires
        text.len() > 0,
        parse_continues(w, done, text, floats),
        parse_one(text.take(nl_end(text, 0)), floats) == LineRes::Need(tok),
    ensures
        w == Ok::<AsmStatus, ParseFault>(AsmStatus::NeedFloat(tok)),
{
    lemma_nl_bounds(text, 0);
    assert(split_lines(text)[0] == text.take(nl_end(text, 0)));
}

/// What an assembly run produced: the program, or the first float token
/// whose answer is missing from the given slice.
#[derive(Clone, Debug)]
pub enum AsmOutcome {
    Done(Program),
    NeedFloat(Vec<char>),
}

/// Assemble a textual program, per [`parse_text`]: one instruction per
/// line.  `floats` answers, in order, the PUSH operand tokens that are not
/// unsigned 32-bit integers: `Some(bits)` for a float literal's bit
/// pattern, `None` for a token that is no number either.  When the text
/// holds more such tokens than `floats` has answers, the first unanswered
/// token is handed back as [`AsmOutcome::NeedFloat`].
pub fn parseasm(src: &str, floats: &[Option<u32>]) -> (r: Result<AsmOutcome, ParseError>)
    ensures
        parse_text(src@, floats@) matches Ok(AsmStatus::Done(s)) ==> r matches Ok(
            AsmOutcome::Done(p),
        ) && p.instructions@ == s,
        parse_text(src@, floats@) matches Ok(AsmStatus::NeedFloat(t)) ==> r matches Ok(
            AsmOutcome::NeedFloat(v),
        ) && v@ == t,
        parse_text(src@, floats@) matches Err(f) ==> r matches Err(e) && e@ == f,
{
    let flen = floats.len();
    let n = src.unicode_len();
    let mut chars: Vec<char> = Vec::new();
    let mut idx: usize = 0;
    while idx < n
        invariant
            idx <= n == src@.len(),
            chars@ == src@.take(idx as int),
        decreases n - idx,
    {
        let c = src.get_char(idx);
        chars.push(c);
        proof {
            assert(chars@ =~= src@.take(idx + 1));
        }
        idx = idx + 1;
    }
    proof {
        assert(src@.take(n as int) =~= src@);
    }
    let total = chars.len();
    let mut insts: Vec<Instruction> = Vec::new();
    let mut pos: usize = 0;
    let mut fidx: usize = 0;
    let ghost w = parse_text(src@, floats@);
    proof {
        assert(src@.skip(0) =~= src@);
        assert(floats@.skip(0) =~= floats@);
        match parse_lines(split_lines(src@), floats@) {
            Ok(AsmStatus::Done(t)) => {
                assert(Seq::<Instruction>::empty() + t =~= t);
            },
            _ => {},
        }
    }
    while pos < total
        invariant
            pos <= total == chars@.len(),
            fidx <= floats@.len() == flen,
            chars@ == src@,
            w == parse_text(src@, floats@),
            parse_continues(w, insts@, chars@.skip(pos as int), floats@.skip(fidx as int)),
        decreases total - pos,
    {
        let ghost text = chars@.skip(pos as int);
        let mut j = pos;
        while j < total && chars[j] != '\n'
            invariant
                pos <= j <= total == chars@.len(),
                nl_end(text, 0) == nl_end(text, j - pos),
                text == chars@.skip(pos as int),
            decreases total - j,
        {
            proof {
                assert(text[j - pos] == chars@[j as int]);
            }
            j = j + 1;
        }
        proof {
            if j < total {
                assert(text[j - pos] == chars@[j as int]);
            }
            assert(nl_end(text, 0) == j - pos);
        }
        let line = copy_range(&chars, pos, j);
        proof {
            assert(line@ =~= text.take(j - pos));
        }
        match parse_line(&line, floats, fidx) {
            LineOutcome::Inst(inst, used) => {
                let ghost done = insts@;
                insts.push(inst);
                proof {
                    let ghost u: int = if used {
                        1
                    } else {
                        0
                    };
                    let ghost text2: Seq<char> = if j == total {
                        Seq::<char>::empty()
                    } else {
                        chars@.skip(j + 1)
                    };
                    if j < total {
                        assert(text.skip(nl_end(text, 0) + 1) =~= chars@.skip(j + 1));
                    }
                    lemma_parse_step(w, done, text, floats@.skip(fidx as int), inst, u, text2);
                    if used {
                        assert(floats@.skip(fidx as int).skip(1) =~= floats@.skip(fidx + 1));
                    } else {
                        assert(floats@.skip(fidx as int).skip(0) =~= floats@.skip(fidx as int));
                    }
                }
                if used {
                    proof {
                        assert(floats@.skip(fidx as int).len() > 0);
                    }
                    fidx = fidx + 1;
                }
                if j == total {
                    pos = total;
                } else {
                    pos = j + 1;
                }
            },
            LineOutcome::Need(tok) => {
                proof {
                    lemma_parse_need(w, insts@, text, floats@.skip(fidx as int), tok@);
                }
                return Ok(AsmOutcome::NeedFloat(tok));
            },
            LineOutcome::Fail(e) => {
                proof {
                    lemma_parse_fail(w, insts@, text, floats@.skip(fidx as int), e@);
                }
                return Err(e);
            },
        }
    }
    proof {
        assert(chars@.skip(pos as int) =~= Seq::<char>::empty());
        assert(insts@ + Seq::<Instruction>::empty() =~= insts@);
    }
    Ok(AsmOutcome::Done(Program { instructions: insts }))
}

/// The character of a decimal digit value.
pub open spec fn digit_char(d: int) -> char {
    if d == 0 {
        '0'
    } else if d == 1 {
        '1'
    } else if d == 2 {
        '2'
    } else if d == 3 {
        '3'
    } else if d == 4 {
        '4'
    } else if d == 5 {
        '5'
    } else if d == 6 {
        '6'
    } else if d == 7 {
        '7'
    } else if d == 8 {
        '8'
    } else {
        '9'
    }
}

/// The decimal rendering of an integer, most significant digit first.
pub open spec fn dec_digits(n: u32) -> Seq<char>
    decreases n,
{
    if n < 10 {
        seq![digit_char(n as int)]
    } else {
        dec_digits(n / 10).push(digit_char((n % 10) as int))
    }
}

/// The decimal rendering holds digits alone and denotes the integer back.
pub proof fn lemma_dec_digits(n: u32)
    ensures
        dec_digits(n).len() >= 1,
        all_digits(dec_digits(n)),
        digits_val(dec_digits(n)) == n,
        parse_u32_tok(dec_digits(n)) == Some(n),
    decreases n,
{
    if n < 10 {
        let t = dec_digits(n);
        assert(t.last() == digit_char(n as int));
        assert(t.drop_last() =~= Seq::<char>::empty());
        assert(digits_val(Seq::<char>::empty()) == 0);
        assert(digit_char(n as int) as u32 == 48 + n);
        assert(digits_val(t) == n);
    } else {
        lemma_dec_digits(n / 10);
        let t = dec_digits(n);
        assert(t.drop_last() =~= dec_digits(n / 10));
        assert(t.last() == digit_char((n % 10) as int));
        assert(digits_val(t) == digits_val(dec_digits(n / 10)) * 10 + (n % 10));
    }
    let t = dec_digits(n);
    assert(is_digit(t[0]));
    assert(t[0] != '+');
}

/// The mnemonic that renders an instruction.
pub open spec fn mnemonic_of(i: Instruction) -> Seq<char> {
    match i {
        Instruction::NOP => m_nop(),
        Instruction::PUSH(_) => m_push(),
        Instruction::PLUS => m_plus(),
        Instruction::MINUS => m_minus(),
        Instruction::MULT => m_mult(),
        Instruction::JUMP(_) => m_jump(),
        Instruction::CMP => m_cmp(),
        Instruction::JE(_) => m_je(),
        Instruction::JNE(_) => m_jne(),
        Instruction::JG(_) => m_jg(),
        Instruction::JGE(_) => m_jge(),
        Instruction::JL(_) => m_jl(),
        Instruction::JLE(_) => m_jle(),
    }
}

/// The operand an instruction renders, if any: a pushed integer or a jump
/// target.  A pushed float has no text rendering here.
pub open spec fn render_operand_of(i: Instruction) -> Option<u32> {
    match i {
        Instruction::PUSH(Data::NUMBER(n)) => Some(n),
        Instruction::PUSH(Data::FLOAT(_)) => None,
        Instruction::JUMP(n) => Some(n),
        Instruction::JE(n) => Some(n),
        Instruction::JNE(n) => Some(n),
        Instruction::JG(n) => Some(n),
        Instruction::JGE(n) => Some(n),
        Instruction::JL(n) => Some(n),
        Instruction::JLE(n) => Some(n),
        _ => None,
    }
}

/// Whether an instruction is representable in the text syntax: everything
/// but a float push, whose literal the renderer cannot write.
pub open spec fn renderable_inst(i: Instruction) -> bool {
    !(i matches Instruction::PUSH(Data::FLOAT(_)))
}

/// The line that renders one instruction: the mnemonic, then one space and
/// the decimal operand where the instruction carries one.
pub open spec fn render_inst(i: Instruction) -> Seq<char> {
    match render_operand_of(i) {
        Some(n) => mnemonic_of(i) + seq![' '] + dec_digits(n),
        None => mnemonic_of(i),
    }
}

/// The text that renders a program: its instructions' lines joined by
/// single newlines.
pub open spec fn render_program(insts: Seq<Instruction>) -> Seq<char>
    decreases insts.len(),
{
    if insts.len() == 0 {
        Seq::empty()
    } else if insts.len() == 1 {
        render_inst(insts[0])
    } else {
        render_inst(insts[0]) + seq!['\n'] + render_program(insts.skip(1))
    }
}

/// A run of whitespace ends exactly where the next non-whitespace stands.
proof fn lemma_ws_end_at(s: Seq<char>, i: int, j: int)
    requires
        0 <= i <= j <= s.len(),
        forall|k: int| i <= k < j ==> is_ws(#[trigger] s[k]),
        j == s.len() || !is_ws(s[j]),
    ensures
        ws_end(s, i) == j,
    decreases j - i,
{
    if i < j {
        lemma_ws_end_at(s, i + 1, j);
    }
}

/// A run of non-whitespace ends exactly where the next whitespace stands.
proof fn lemma_tok_end_at(s: Seq<char>, i: int, j: int)
    requires
        0 <= i <= j <= s.len(),
        forall|k: int| i <= k < j ==> !is_ws(#[trigger] s[k]),
        j == s.len() || is_ws(s[j]),
    ensures
        tok_end(s, i) == j,
    decreases j - i,
{
    if i < j {
        lemma_tok_end_at(s, i + 1, j);
    }
}

/// A run without newlines ends exactly where the next newline stands.
proof fn lemma_nl_end_at(s: Seq<char>, i: int, j: int)
    requires
        0 <= i <= j <= s.len(),
        forall|k: int| i <= k < j ==> #[trigger] s[k] != '\n',
        j == s.len() || s[j] == '\n',
    ensures
        nl_end(s, i) == j,
    decreases j - i,
{
    if i < j {
        lemma_nl_end_at(s, i + 1, j);
    }
}

/// No character of a rendered line is whitespace or a newline, except the
/// single separating space, which is no newline either.
proof fn lemma_render_inst_chars(i: Instruction)
    requires
        renderable_inst(i),
    ensures
        render_inst(i).len() > 0,
        forall|k: int| 0 <= k < render_inst(i).len() ==> #[trigger] render_inst(i)[k] != '\n',
        tok1_of(render_inst(i)) == mnemonic_of(i),
        render_operand_of(i) is None ==> tok2_of(render_inst(i)) == Seq::<char>::empty(),
        render_operand_of(i) matches Some(n) ==> tok2_of(render_inst(i)) == dec_digits(n),
{
    let line = render_inst(i);
    let m = mnemonic_of(i);
    assert(forall|k: int| 0 <= k < m.len() ==> !is_ws(#[trigger] m[k]) && m[k] != '\n');
    match render_operand_of(i) {
        Some(n) => {
            lemma_dec_digits(n);
            let d = dec_digits(n);
            assert(forall|k: int| 0 <= k < d.len() ==> !is_ws(#[trigger] d[k]) && d[k] != '\n');
            assert(forall|k: int| 0 <= k < line.len() ==> #[trigger] line[k] != '\n');
            assert(forall|k: int| 0 <= k < m.len() ==> !is_ws(#[trigger] line[k]));
            assert(is_ws(line[m.len() as int]));
            assert(forall|k: int| m.len() + 1 <= k < line.len() ==> !is_ws(#[trigger] line[k]));
            lemma_ws_end_at(line, 0, 0);
            lemma_tok_end_at(line, 0, m.len() as int);
            lemma_ws_end_at(line, m.len() as int, m.len() as int + 1);
            lemma_tok_end_at(line, m.len() as int + 1, line.len() as int);
            assert(tok1_of(line) =~= m);
            assert(tok2_of(line) =~= d);
        },
        None => {
            assert(line == m);
            assert(forall|k: int| 0 <= k < line.len() ==> !is_ws(#[trigger] line[k]));
            lemma_ws_end_at(line, 0, 0);
            lemma_tok_end_at(line, 0, line.len() as int);
            lemma_ws_end_at(line, line.len() as int, line.len() as int);
            lemma_tok_end_at(line, line.len() as int, line.len() as int);
            assert(tok1_of(line) =~= m);
            assert(tok2_of(line) =~= Seq::<char>::empty());
        },
    }
}

/// Parsing the line that renders an instruction yields that instruction,
/// whatever float answers stand by.
pub proof fn lemma_parse_rendered_line(i: Instruction, floats: Seq<Option<u32>>)
    requires
        renderable_inst(i),
    ensures
        parse_one(render_inst(i), floats) == LineRes::Inst(i, 0),
{
    lemma_render_inst_chars(i);
    match render_operand_of(i) {
        Some(n) => {
            lemma_dec_digits(n);
        },
        None => {},
    }
}

/// Assembler fidelity: parsing the text that renders a program yields the
/// program back, instruction for instruction, for every program whose
/// instructions the text syntax can express — every program without a
/// float push, whose literal the renderer cannot write.
pub proof fn lemma_assembler_fidelity(insts: Seq<Instruction>)
    requires
        forall|k: int| 0 <= k < insts.len() ==> renderable_inst(#[trigger] insts[k]),
    ensures
        parse_text(render_program(insts), Seq::<Option<u32>>::empty()) == Ok::<
            AsmStatus,
            ParseFault,
        >(AsmStatus::Done(insts)),
    decreases insts.len(),
{
    let text = render_program(insts);
    if insts.len() == 0 {
        assert(split_lines(text) =~= Seq::<Seq<char>>::empty());
        assert(insts =~= Seq::<Instruction>::empty());
    } else {
        let line = render_inst(insts[0]);
        lemma_render_inst_chars(insts[0]);
        lemma_parse_rendered_line(insts[0], Seq::<Option<u32>>::empty());
        if insts.len() == 1 {
            assert(text == line);
            lemma_nl_end_at(text, 0, text.len() as int);
            assert(text.take(text.len() as int) =~= line);
            assert(split_lines(text) == seq![text.take(nl_end(text, 0))]);
            let lines = split_lines(text);
            assert(lines[0] == line);
            assert(lines.skip(1) =~= Seq::<Seq<char>>::empty());
            assert(Seq::<Option<u32>>::empty().skip(0) =~= Seq::<Option<u32>>::empty());
            assert(seq![insts[0]] + Seq::<Instruction>::empty() =~= insts);
        } else {
            assert(insts.len() >= 2);
            lemma_assembler_fidelity(insts.skip(1));
            let tail = render_program(insts.skip(1));
            assert(text == line + seq!['\n'] + tail);
            assert(forall|k: int| 0 <= k < line.len() ==> #[trigger] text[k] != '\n');
            assert(text[line.len() as int] == '\n');
            lemma_nl_end_at(text, 0, line.len() as int);
            let e = nl_end(text, 0);
            assert(e < text.len());
            assert(text.take(e) =~= line);
            assert(text.skip(e + 1) =~= tail);
            let lines = split_lines(text);
            assert(lines == seq![text.take(e)] + split_lines(text.skip(e + 1)));
            assert(lines[0] == text.take(e));
            assert(lines.skip(1) =~= split_lines(tail));
            assert(Seq::<Option<u32>>::empty().skip(0) =~= Seq::<Option<u32>>::empty());
            assert(seq![insts[0]] + insts.skip(1) =~= insts);
        }
    }
}

} // verus!
